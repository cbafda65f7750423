//! The login profile of bash: the block that loads the aliases.
use vstd::prelude::*;

use crate::paths;
use crate::text;

verus! {

pub const ALIAS_FILE_HEADER: &'static str = "# Managed by `am` (alias-management).
# Lines of the form
#   alias <name>=\"<action>\" #command
#   alias <name>=\"<action>\" #folder
#   alias <name>=\"<action>\" #ssh
# are owned by am. Anything else in this file is left untouched.
";

pub const PROFILE_MARKER_BEGIN: &'static str = "# >>> alias-management (am) >>>";

pub const PROFILE_BLOCK: &'static str = r#"# >>> alias-management (am) >>>
# Added by `am` (alias-management). Do not edit this block by hand.
# Loads managed aliases and re-sources them after every `am` run so
# changes take effect in the current shell immediately.
[ -f "$HOME/.alias-management" ] && source "$HOME/.alias-management"
am() {
    command am "$@"
    local am_status=$?
    if [ -f "$HOME/.alias-management" ]; then
        source "$HOME/.alias-management"
    fi
    return $am_status
}
# <<< alias-management (am) <<<
"#;

/// bash reads only the first of `~/.bash_profile`, `~/.bash_login` and
/// `~/.profile` for login shells. A profile that am creates sources
/// `~/.profile` first, which it would otherwise shadow.
pub const PROFILE_CREATE_PREAMBLE: &'static str = "# Created by `am` (alias-management).
# Keep sourcing ~/.profile: bash skips it for login shells once
# ~/.bash_profile exists.
[ -f \"$HOME/.profile\" ] && source \"$HOME/.profile\"
";

/// What separates the block from a content before it: a blank line.
pub open spec fn separator(content: Seq<char>) -> Seq<char> {
    if content.len() == 0 {
        seq![]
    } else if content.last() == '\n' {
        seq!['\n']
    } else {
        seq!['\n', '\n']
    }
}

/// The content with the block after it.
pub open spec fn with_block(content: Seq<char>) -> Seq<char> {
    content + separator(content) + PROFILE_BLOCK@
}

/// Whether the block is there. The marker that begins it tells.
pub open spec fn is_installed(content: Seq<char>) -> bool {
    text::occurs_in(content, PROFILE_MARKER_BEGIN@)
}

/// Whether this is the profile with the block, which is not added where it is
/// installed already.
pub open spec fn is_with_block(r: Option<String>, content: Seq<char>) -> bool {
    match r {
        Some(out) => !is_installed(content) && out@ == with_block(content),
        None => is_installed(content),
    }
}

/// The profile with the integration block appended, or `None` when the block
/// is installed already. Never rewrites an existing block.
pub fn with_profile_block(content: &str) -> (r: Option<String>)
    ensures
        is_with_block(r, content@),
{
    if text::contains_text(content, PROFILE_MARKER_BEGIN) {
        return None;
    }
    let v: Vec<char> = text::to_chars(content);
    let mut out: String = String::new();
    out.push_str(content);
    if v.len() > 0 {
        if v[v.len() - 1] != '\n' {
            out.push('\n');
        }
        out.push('\n');
    }
    out.push_str(PROFILE_BLOCK);
    assert(out@ == with_block(content@));
    Some(out)
}

// ---------------------------------------------------------------------------
// Setup
// ---------------------------------------------------------------------------

/// What the setup finds of one of the two files that it looks after.
pub enum Found {
    /// The file of aliases: whether it is there.
    Aliases { exists: bool },
    /// The profile: its content, if it is there.
    Profile { content: Option<String> },
}

/// What the setup writes in place of a file, and what it says once it has.
pub struct SetupWrite {
    pub content: String,
    pub notices: Vec<String>,
}

/// What the setup leaves in a file, if it writes it at all.
pub open spec fn setup_content(found: Found) -> Option<Seq<char>> {
    match found {
        Found::Aliases { exists: true } => None,
        Found::Aliases { exists: false } => Some(ALIAS_FILE_HEADER@),
        Found::Profile { content: None } => Some(with_block(PROFILE_CREATE_PREAMBLE@)),
        Found::Profile { content: Some(c) } => if is_installed(c@) {
            None
        } else {
            Some(with_block(c@))
        },
    }
}

/// What the setup says when it has written the file at `path`.
pub open spec fn setup_notices(found: Found, path: Seq<char>) -> Seq<Seq<char>> {
    let restart = "Restart your shell or run: source ~/"@ + paths::PROFILE_FILE_NAME@;
    match found {
        Found::Aliases { .. } => seq!["Created "@ + path],
        Found::Profile { content: None } => seq![
            "Created "@ + path
                + " with the am shell integration (it also sources ~/.profile so your login environment is preserved)"@,
            restart,
        ],
        Found::Profile { content: Some(_) } => seq![
            "Installed the am shell integration in "@ + path,
            restart,
        ],
    }
}

/// Whether this is what the setup writes, and what it says then.
pub open spec fn is_setup(r: Option<SetupWrite>, found: Found, path: Seq<char>) -> bool {
    match r {
        Some(w) => setup_content(found) == Some(w.content@) && text::texts(w.notices@)
            == setup_notices(found, path),
        None => setup_content(found) is None,
    }
}

/// Idempotent first-run setup: what to write in place of the file at `path`,
/// if anything. A missing file of aliases is created with its header; the
/// shell-integration block is added to the profile unless it is there, and a
/// missing profile is created so that it keeps sourcing `~/.profile`.
pub fn ensure_setup(found: &Found, path: &str) -> (r: Option<SetupWrite>)
    ensures
        is_setup(r, *found, path@),
{
    let mut notices: Vec<String> = Vec::new();
    let mut first: String = String::new();
    let content: String = match found {
        Found::Aliases { exists } => {
            if *exists {
                return None;
            }
            first.push_str("Created ");
            first.push_str(path);
            assert(first@ == "Created "@ + path@);
            notices.push(first);
            assert(text::texts(notices@) == setup_notices(*found, path@));
            return Some(SetupWrite { content: ALIAS_FILE_HEADER.to_string(), notices });
        },
        Found::Profile { content: None } => {
            first.push_str("Created ");
            first.push_str(path);
            first.push_str(
                " with the am shell integration (it also sources ~/.profile so your login environment is preserved)",
            );
            assert(first@ == setup_notices(*found, path@)[0]);
            proof {
                lemma_preamble_holds_no_marker();
            }
            with_profile_block(PROFILE_CREATE_PREAMBLE)?
        },
        Found::Profile { content: Some(c) } => {
            first.push_str("Installed the am shell integration in ");
            first.push_str(path);
            assert(first@ == setup_notices(*found, path@)[0]);
            with_profile_block(c.as_str())?
        },
    };
    let mut restart: String = String::new();
    restart.push_str("Restart your shell or run: source ~/");
    restart.push_str(paths::PROFILE_FILE_NAME);
    assert(restart@ == "Restart your shell or run: source ~/"@ + paths::PROFILE_FILE_NAME@);
    notices.push(first);
    notices.push(restart);
    assert(text::texts(notices@) == setup_notices(*found, path@));
    Some(SetupWrite { content, notices })
}

// ---------------------------------------------------------------------------
// Laws
// ---------------------------------------------------------------------------

/// Whether nothing between `lo` and `hi` looks like the start of the marker.
spec fn no_marker_within(s: Seq<char>, lo: int, hi: int) -> bool
    decreases hi - lo,
{
    if hi - lo <= 1 {
        lo < hi ==> !(s[lo] == '#' && s[lo + 2] == '>')
    } else {
        no_marker_within(s, lo, (lo + hi) / 2) && no_marker_within(s, (lo + hi) / 2, hi)
    }
}

proof fn lemma_no_marker_at(s: Seq<char>, lo: int, hi: int, k: int)
    requires
        no_marker_within(s, lo, hi),
        lo <= k < hi,
    ensures
        !(s[k] == '#' && s[k + 2] == '>'),
    decreases hi - lo,
{
    if hi - lo > 1 {
        if k < (lo + hi) / 2 {
            lemma_no_marker_at(s, lo, (lo + hi) / 2, k);
        } else {
            lemma_no_marker_at(s, (lo + hi) / 2, hi, k);
        }
    }
}

/// Nothing in the block after its first character looks like the start of the
/// marker.
#[verifier::spinoff_prover]
proof fn lemma_block_is_searched()
    ensures
        PROFILE_BLOCK@.len() == 493,
        no_marker_within(PROFILE_BLOCK@, 1, 491),
{
    reveal_strlit(
        r#"# >>> alias-management (am) >>>
# Added by `am` (alias-management). Do not edit this block by hand.
# Loads managed aliases and re-sources them after every `am` run so
# changes take effect in the current shell immediately.
[ -f "$HOME/.alias-management" ] && source "$HOME/.alias-management"
am() {
    command am "$@"
    local am_status=$?
    if [ -f "$HOME/.alias-management" ]; then
        source "$HOME/.alias-management"
    fi
    return $am_status
}
# <<< alias-management (am) <<<
"#,
    );
    reveal_with_fuel(no_marker_within, 12);
}

/// The block starts with its marker.
#[verifier::spinoff_prover]
proof fn lemma_block_starts_with_marker()
    ensures
        text::occurs_at(PROFILE_BLOCK@, PROFILE_MARKER_BEGIN@, 0),
{
    reveal_strlit("# >>> alias-management (am) >>>");
    reveal_strlit(
        r#"# >>> alias-management (am) >>>
# Added by `am` (alias-management). Do not edit this block by hand.
# Loads managed aliases and re-sources them after every `am` run so
# changes take effect in the current shell immediately.
[ -f "$HOME/.alias-management" ] && source "$HOME/.alias-management"
am() {
    command am "$@"
    local am_status=$?
    if [ -f "$HOME/.alias-management" ]; then
        source "$HOME/.alias-management"
    fi
    return $am_status
}
# <<< alias-management (am) <<<
"#,
    );
    assert(PROFILE_BLOCK@.subrange(0, PROFILE_MARKER_BEGIN@.len() as int) =~= PROFILE_MARKER_BEGIN@);
}

/// The block starts with its marker and holds it nowhere else; the marker is
/// part of a line.
proof fn lemma_block_holds_marker_once()
    ensures
        text::occurs_at(PROFILE_BLOCK@, PROFILE_MARKER_BEGIN@, 0),
        forall|i: int| #[trigger]
            text::occurs_at(PROFILE_BLOCK@, PROFILE_MARKER_BEGIN@, i) ==> i == 0,
        PROFILE_MARKER_BEGIN@.len() > 2,
        !PROFILE_MARKER_BEGIN@.contains('\n'),
{
    let b = PROFILE_BLOCK@;
    let m = PROFILE_MARKER_BEGIN@;
    reveal_strlit("# >>> alias-management (am) >>>");
    lemma_block_is_searched();
    lemma_block_starts_with_marker();
    assert forall|i: int| #[trigger] text::occurs_at(b, m, i) implies i == 0 by {
        if i > 0 {
            lemma_no_marker_at(b, 1, 491, i);
            assert(b.subrange(i, i + m.len())[0] == b[i]);
            assert(b.subrange(i, i + m.len())[2] == b[i + 2]);
        }
    }
}

#[verifier::spinoff_prover]
proof fn lemma_preamble_holds_no_marker()
    ensures
        !is_installed(PROFILE_CREATE_PREAMBLE@),
{
    let p = PROFILE_CREATE_PREAMBLE@;
    let m = PROFILE_MARKER_BEGIN@;
    reveal_strlit("# >>> alias-management (am) >>>");
    reveal_strlit(
        "# Created by `am` (alias-management).
# Keep sourcing ~/.profile: bash skips it for login shells once
# ~/.bash_profile exists.
[ -f \"$HOME/.profile\" ] && source \"$HOME/.profile\"
",
    );
    reveal_with_fuel(no_marker_within, 12);
    assert(no_marker_within(p, 0, p.len() - 2));
    assert forall|i: int| !#[trigger] text::occurs_at(p, m, i) by {
        if text::occurs_at(p, m, i) {
            lemma_no_marker_at(p, 0, p.len() - 2, i);
            assert(p.subrange(i, i + m.len())[0] == p[i]);
            assert(p.subrange(i, i + m.len())[2] == p[i + 2]);
        }
    }
}

/// The block is installed exactly once: where it was not there, the result
/// holds its marker at one place, the start of the block.
pub proof fn law_block_is_added_once(content: Seq<char>)
    requires
        !is_installed(content),
    ensures
        forall|i: int| #[trigger]
            text::occurs_at(with_block(content), PROFILE_MARKER_BEGIN@, i) <==> i == content.len()
                + separator(content).len(),
{
    let m = PROFILE_MARKER_BEGIN@;
    let b = PROFILE_BLOCK@;
    let s = with_block(content);
    let start: int = content.len() + separator(content).len() as int;
    lemma_block_holds_marker_once();
    assert(s.subrange(start, start + m.len()) =~= b.subrange(0, m.len() as int));
    assert forall|i: int| #[trigger] text::occurs_at(s, m, i) implies i == start by {
        let n = content.len() as int;
        if i >= start {
            assert(s.subrange(i, i + m.len()) =~= b.subrange(i - start, i - start + m.len()));
            assert(text::occurs_at(b, m, i - start));
        } else if i + m.len() <= n {
            assert(s.subrange(i, i + m.len()) =~= content.subrange(i, i + m.len()));
            assert(text::occurs_at(content, m, i));
        } else {
            let k = if i < n {
                n
            } else {
                i
            };
            assert(s[k] == '\n');
            assert(s.subrange(i, i + m.len())[k - i] == s[k]);
            assert(m[k - i] == '\n');
        }
    }
}

/// Whether the setup finds `again` where it has dealt with what it found
/// before.
pub open spec fn is_after_setup(found: Found, again: Found) -> bool {
    match (found, again) {
        (Found::Aliases { .. }, Found::Aliases { exists }) => exists,
        (Found::Profile { content }, Found::Profile { content: Some(c) }) => c@ == (
        match setup_content(found) {
            Some(written) => written,
            None => (content->0)@,
        }),
        _ => false,
    }
}

/// Setting up is idempotent: what the setup has dealt with it does not write
/// again.
pub proof fn law_setup_settles(found: Found, again: Found)
    requires
        is_after_setup(found, again),
    ensures
        setup_content(again) is None,
{
    if let Found::Profile { content } = found {
        if setup_content(found) is Some {
            let c = match content {
                Some(c) => c@,
                None => PROFILE_CREATE_PREAMBLE@,
            };
            lemma_preamble_holds_no_marker();
            law_block_is_added_once(c);
            assert(text::occurs_at(
                with_block(c),
                PROFILE_MARKER_BEGIN@,
                (c.len() + separator(c).len()) as int,
            ));
        }
    }
}

/// What the profile held stays in it, at its start, and the block ends it.
pub proof fn law_setup_keeps_profile(content: Seq<char>)
    ensures
        content.is_prefix_of(with_block(content)),
        PROFILE_BLOCK@.is_suffix_of(with_block(content)),
{
    let s = with_block(content);
    assert(s.take(content.len() as int) == content);
    assert(s.skip(s.len() - PROFILE_BLOCK@.len()) == PROFILE_BLOCK@);
}

/// The block counts as installed just where the whole marker stands somewhere
/// in the profile. Where it does not, the setup writes the profile: what was
/// there, then the block, with one blank line between them.
pub proof fn law_only_the_whole_marker_counts(c: String)
    ensures
        ({
            let content = c@;
            let marker = "# >>> alias-management (am) >>>"@;
            let there = exists|i: int|
                0 <= i && i + marker.len() <= content.len() && #[trigger] content.subrange(
                    i,
                    i + marker.len(),
                ) == marker;
            let r = setup_content(Found::Profile { content: Some(c) });
            &&& there <==> r is None
            &&& !there && content.len() == 0 ==> r == Some(PROFILE_BLOCK@)
            &&& !there && content.len() > 0 && content.last() == '\n' ==> r == Some(
                content + seq!['\n'] + PROFILE_BLOCK@,
            )
            &&& !there && content.len() > 0 && content.last() != '\n' ==> r == Some(
                content + seq!['\n', '\n'] + PROFILE_BLOCK@,
            )
            &&& there <==> is_installed(content)
            &&& !there ==> r == Some(with_block(content))
        }),
{
    let content = c@;
    let marker = "# >>> alias-management (am) >>>"@;
    if is_installed(content) {
        let i = choose|i: int| text::occurs_at(content, PROFILE_MARKER_BEGIN@, i);
        assert(content.subrange(i, i + marker.len()) == marker);
    }
    if exists|i: int|
        0 <= i && i + marker.len() <= content.len() && #[trigger] content.subrange(
            i,
            i + marker.len(),
        ) == marker {
        let i = choose|i: int|
            0 <= i && i + marker.len() <= content.len() && #[trigger] content.subrange(
                i,
                i + marker.len(),
            ) == marker;
        assert(text::occurs_at(content, PROFILE_MARKER_BEGIN@, i));
    }
    if content.len() == 0 {
        assert(with_block(content) =~= PROFILE_BLOCK@);
    }
}

/// A profile with the marker in it is left alone, whatever stands around the
/// marker.
pub proof fn law_installed_profile_is_left_alone(c: String, x: Seq<char>, y: Seq<char>)
    requires
        c@ == x + "# >>> alias-management (am) >>>"@ + y,
    ensures
        setup_content(Found::Profile { content: Some(c) }) is None,
{
    text::law_part_is_found(x, "# >>> alias-management (am) >>>"@, y);
}

/// A missing profile is created with the lines that keep sourcing
/// `~/.profile`, a blank line and the block; a missing file of aliases with
/// its header. A file of aliases that is there is left alone.
pub proof fn law_missing_files_are_created()
    ensures
        setup_content(Found::Profile { content: None }) == Some(
            PROFILE_CREATE_PREAMBLE@ + seq!['\n'] + PROFILE_BLOCK@,
        ),
        setup_content(Found::Aliases { exists: false }) == Some(ALIAS_FILE_HEADER@),
        setup_content(Found::Aliases { exists: true }) is None,
{
    reveal_strlit(
        "# Created by `am` (alias-management).
# Keep sourcing ~/.profile: bash skips it for login shells once
# ~/.bash_profile exists.
[ -f \"$HOME/.profile\" ] && source \"$HOME/.profile\"
",
    );
}

/// Each file that is written is named in full in what is said of it.
pub proof fn law_notices_name_the_file(found: Found, path: Seq<char>)
    ensures
        found is Aliases ==> setup_notices(found, path) == seq!["Created "@ + path],
        found is Profile ==> setup_notices(found, path).len() == 2 && setup_notices(found, path)[1]
            == "Restart your shell or run: source ~/.bash_profile"@,
        found matches Found::Profile { content: None } ==> setup_notices(found, path)[0]
            == "Created "@ + path
            + " with the am shell integration (it also sources ~/.profile so your login environment is preserved)"@,
        found matches Found::Profile { content: Some(_) } ==> setup_notices(found, path)[0]
            == "Installed the am shell integration in "@ + path,
{
    reveal_strlit("Restart your shell or run: source ~/");
    reveal_strlit(".bash_profile");
    reveal_strlit("Restart your shell or run: source ~/.bash_profile");
    assert("Restart your shell or run: source ~/"@ + paths::PROFILE_FILE_NAME@
        =~= "Restart your shell or run: source ~/.bash_profile"@);
}

/// Adding the block to a profile keeps all that was there and ends with the
/// block. It is left out just where the whole marker stands somewhere in the
/// profile.
pub proof fn law_block_is_added_or_there(r: Option<String>, c: String)
    requires
        is_with_block(r, c@),
    ensures
        ({
            let marker = "# >>> alias-management (am) >>>"@;
            let there = exists|i: int|
                0 <= i && i + marker.len() <= c@.len() && #[trigger] c@.subrange(
                    i,
                    i + marker.len(),
                ) == marker;
            &&& there <==> r is None
            &&& r matches Some(out) ==> c@.is_prefix_of(out@) && PROFILE_BLOCK@.is_suffix_of(out@)
        }),
{
    law_only_the_whole_marker_counts(c);
    law_setup_keeps_profile(c@);
}

/// What the setup writes is just what it settles on, and it says what it
/// should; where there is nothing to write, it writes nothing.
pub proof fn law_setup_writes_what_it_should(r: Option<SetupWrite>, found: Found, path: Seq<char>)
    requires
        is_setup(r, found, path),
    ensures
        r is Some <==> setup_content(found) is Some,
        r matches Some(w) ==> setup_content(found) == Some(w.content@),
        r matches Some(w) ==> w.notices@.len() == setup_notices(found, path).len() && forall|i: int|
            0 <= i < w.notices@.len() ==> #[trigger] w.notices@[i]@ == setup_notices(found, path)[i],
{
    if let Some(w) = r {
        assert(text::texts(w.notices@).len() == w.notices@.len());
        assert forall|i: int| 0 <= i < w.notices@.len() implies #[trigger] w.notices@[i]@
            == setup_notices(found, path)[i] by {
            assert(text::texts(w.notices@)[i] == w.notices@[i]@);
        }
    }
}

} // verus!
