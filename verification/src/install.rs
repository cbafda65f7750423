//! Installing am: the folder, and how it gets on the search path.
use vstd::prelude::*;

use crate::cli;
use crate::error::AmError;
use crate::paths;
use crate::text;

verus! {

pub const BIN_NAME: &'static str = "am";

pub const SYSTEM_BIN: &'static str = "/usr/local/bin";

pub const USER_BIN: &'static str = ".local/bin";

// ---------------------------------------------------------------------------
// The folder
// ---------------------------------------------------------------------------

/// Whether this is the folder to install into.
pub open spec fn is_place(
    r: Result<String, AmError>,
    dir: Option<Seq<char>>,
    cwd: Seq<char>,
    system_writable: bool,
    home: Option<Seq<char>>,
) -> bool {
    match dir {
        Some(d) => r matches Ok(into) && into@ == paths::joined(cwd, d),
        None => if system_writable {
            r matches Ok(into) && into@ == SYSTEM_BIN@
        } else {
            match r {
                Ok(into) => home matches Some(h) && h.len() > 0 && into@ == paths::joined(
                    h,
                    USER_BIN@,
                ),
                Err(e) => (home matches Some(h) ==> h.len() == 0) && e == AmError::HomeNotSet,
            }
        },
    }
}

/// The folder to install into: the one that was asked for, seen from the
/// directory `cwd`; or else the one for the whole system where it can be
/// written to; or else the one in the home directory.
pub fn install_dir(dir: Option<&str>, cwd: &str, system_writable: bool, home: Option<&str>) -> (r:
    Result<String, AmError>)
    ensures
        is_place(r, paths::optional_text(dir), cwd@, system_writable, paths::optional_text(home)),
{
    match dir {
        Some(d) => Ok(paths::join(cwd, d)),
        None => if system_writable {
            Ok(SYSTEM_BIN.to_string())
        } else {
            match cli::home_dir(home) {
                Ok(h) => Ok(paths::join(h.as_str(), USER_BIN)),
                Err(e) => Err(e),
            }
        },
    }
}

/// Where am itself goes in a folder.
pub fn install_target(dir: &str) -> (r: String)
    ensures
        r@ == paths::joined(dir@, BIN_NAME@),
{
    paths::join(dir, BIN_NAME)
}

// ---------------------------------------------------------------------------
// The search path
// ---------------------------------------------------------------------------

/// The folders of a search path from position `from` on: what stands between
/// the colons.
pub open spec fn folders(path: Seq<char>, from: int) -> Seq<Seq<char>>
    decreases path.len() - from,
{
    if 0 <= from <= path.len() {
        proof {
            text::lemma_found(path, ':', from);
        }
        let end = text::find_from(path, ':', from);
        let here = seq![path.subrange(from, end)];
        if end < path.len() {
            here + folders(path, end + 1)
        } else {
            here
        }
    } else {
        seq![]
    }
}

/// Whether a folder is among some others, by the components of its path.
pub open spec fn is_among(dirs: Seq<Seq<char>>, dir: Seq<char>) -> bool {
    exists|k: int| 0 <= k < dirs.len() && paths::same_place(#[trigger] dirs[k], dir)
}

/// Whether a folder is on a search path.
pub open spec fn on_path(path: Seq<char>, dir: Seq<char>) -> bool {
    is_among(folders(path, 0), dir)
}

proof fn lemma_among(first: Seq<char>, rest: Seq<Seq<char>>, dir: Seq<char>)
    ensures
        is_among(seq![first] + rest, dir) == (paths::same_place(first, dir) || is_among(rest, dir)),
{
    let all = seq![first] + rest;
    assert(all[0] == first);
    if is_among(rest, dir) {
        let k = choose|k: int| 0 <= k < rest.len() && paths::same_place(#[trigger] rest[k], dir);
        assert(all[k + 1] == rest[k]);
    }
    if is_among(all, dir) && !paths::same_place(first, dir) {
        let k = choose|k: int| 0 <= k < all.len() && paths::same_place(#[trigger] all[k], dir);
        assert(rest[k - 1] == all[k]);
    }
}

/// Whether a folder is on a search path.
pub fn is_on_path(path: &str, dir: &str) -> (r: bool)
    ensures
        r == on_path(path@, dir@),
{
    let p: Vec<char> = text::to_chars(path);
    let len: usize = p.len();
    let mut from: usize = 0;
    loop
        invariant
            p@ == path@,
            len == p@.len(),
            from <= len,
            on_path(path@, dir@) == is_among(folders(path@, from as int), dir@),
        decreases len - from,
    {
        let end: usize = text::find_char(&p, ':', from);
        let here: String = text::substring(&p, from, end);
        proof {
            let rest = if end < len {
                folders(path@, end + 1)
            } else {
                seq![]
            };
            lemma_among(here@, rest, dir@);
            assert(folders(path@, from as int) =~= seq![here@] + rest);
        }
        if paths::is_same_place(here.as_str(), dir) {
            return true;
        }
        if end >= len {
            return false;
        }
        from = end + 1;
    }
}

// ---------------------------------------------------------------------------
// The line that extends it
// ---------------------------------------------------------------------------

/// The characters that bash interprets inside double quotes.
pub open spec fn is_special(c: char) -> bool {
    c == '"' || c == '$' || c == '`' || c == '\\'
}

/// A text as it is written inside double quotes, with a backslash before each
/// special character.
pub open spec fn escaped(s: Seq<char>) -> Seq<char>
    decreases s.len(),
{
    if s.len() == 0 {
        seq![]
    } else if is_special(s[0]) {
        seq!['\\', s[0]] + escaped(s.drop_first())
    } else {
        seq![s[0]] + escaped(s.drop_first())
    }
}

/// A text as it is written inside double quotes.
pub fn escape(s: &str) -> (r: String)
    ensures
        r@ == escaped(s@),
{
    let v: Vec<char> = text::to_chars(s);
    let mut out: String = String::new();
    let mut i: usize = 0;
    assert(v@.skip(0) == v@);
    assert(out@ + escaped(v@) == escaped(v@));
    while i < v.len()
        invariant
            v@ == s@,
            i <= v@.len(),
            out@ + escaped(v@.skip(i as int)) == escaped(s@),
        decreases v@.len() - i,
    {
        let c: char = v[i];
        let ghost held = out@;
        let ghost rest = escaped(v@.skip(i + 1));
        assert(v@.skip(i as int).drop_first() == v@.skip(i + 1));
        if c == '"' || c == '$' || c == '`' || c == '\\' {
            out.push('\\');
            out.push(c);
            assert(held + (seq!['\\', c] + rest) == out@ + rest);
        } else {
            out.push(c);
            assert(held + (seq![c] + rest) == out@ + rest);
        }
        i = i + 1;
    }
    assert(v@.skip(i as int) == Seq::<char>::empty());
    assert(out@ + escaped(v@.skip(i as int)) == out@);
    out
}

/// The line that puts a folder on the search path, if there is one: a colon
/// would part the folder in two, and a line break the line.
pub open spec fn path_line(dir: Seq<char>) -> Option<Seq<char>> {
    if dir.contains(':') || dir.contains('\n') {
        None
    } else {
        Some("export PATH=\""@ + escaped(dir) + ":$PATH\""@)
    }
}

/// What is said once am has been copied into a folder. Where the folder is not
/// on the search path, that gives the line that puts it there, or says that
/// there is none.
pub open spec fn install_notices(dir: Seq<char>, path: Seq<char>) -> Seq<Seq<char>> {
    let done = seq!["Installed "@ + paths::joined(dir, BIN_NAME@)];
    if on_path(path, dir) {
        done
    } else {
        match path_line(dir) {
            Some(l) => done + seq![
                dir + " is not on your PATH; add this line to ~/"@ + paths::PROFILE_FILE_NAME@
                    + ":"@,
                l,
            ],
            None => done + seq![
                dir
                    + " is not on your PATH and cannot be put there: its name contains a colon or a line break"@,
            ],
        }
    }
}

/// What is said once am has been copied into the folder `dir`, where the
/// search path is `path`.
pub fn installed(dir: &str, path: &str) -> (r: Vec<String>)
    ensures
        text::texts(r@) == install_notices(dir@, path@),
{
    let mut first: String = String::new();
    first.push_str("Installed ");
    first.push_str(install_target(dir).as_str());
    let ghost done = seq!["Installed "@ + paths::joined(dir@, BIN_NAME@)];
    assert(first@ == done[0]);
    let mut out: Vec<String> = Vec::new();
    out.push(first);
    assert(text::texts(out@) =~= done);
    if is_on_path(path, dir) {
        return out;
    }
    let mut advice: String = String::new();
    advice.push_str(dir);
    if text::has_char(dir, ':') || text::has_char(dir, '\n') {
        advice.push_str(
            " is not on your PATH and cannot be put there: its name contains a colon or a line break",
        );
        assert(advice@ == install_notices(dir@, path@)[1]);
        out.push(advice);
    } else {
        advice.push_str(" is not on your PATH; add this line to ~/");
        advice.push_str(paths::PROFILE_FILE_NAME);
        advice.push_str(":");
        let mut export: String = String::new();
        export.push_str("export PATH=\"");
        export.push_str(escape(dir).as_str());
        export.push_str(":$PATH\"");
        assert(advice@ == install_notices(dir@, path@)[1]);
        assert(export@ == install_notices(dir@, path@)[2]);
        out.push(advice);
        out.push(export);
    }
    assert(text::texts(out@) =~= install_notices(dir@, path@));
    out
}

// ---------------------------------------------------------------------------
// Laws
// ---------------------------------------------------------------------------

/// What bash reads of a text inside double quotes: a backslash goes where it
/// stands before a special character. (No `$` or backtick without one is read
/// this way.)
pub open spec fn read_in_quotes(s: Seq<char>) -> Seq<char>
    decreases s.len(),
{
    if s.len() == 0 {
        seq![]
    } else if s.len() > 1 && s[0] == '\\' && (s[1] == '"' || s[1] == '$' || s[1] == '`' || s[1]
        == '\\') {
        seq![s[1]] + read_in_quotes(s.skip(2))
    } else {
        seq![s[0]] + read_in_quotes(s.skip(1))
    }
}

/// Whether every special character has a backslash before it.
pub open spec fn is_escaped(s: Seq<char>) -> bool
    decreases s.len(),
{
    if s.len() == 0 {
        true
    } else if s[0] == '\\' {
        s.len() > 1 && (s[1] == '"' || s[1] == '$' || s[1] == '`' || s[1] == '\\') && is_escaped(
            s.skip(2),
        )
    } else {
        s[0] != '"' && s[0] != '$' && s[0] != '`' && is_escaped(s.skip(1))
    }
}

/// Bash reads an escaped text as the text itself, with nothing left in it to
/// interpret.
pub proof fn law_escaped_text_is_literal(s: Seq<char>)
    ensures
        is_escaped(escaped(s)),
        read_in_quotes(escaped(s)) == s,
    decreases s.len(),
{
    if s.len() > 0 {
        let rest = s.drop_first();
        law_escaped_text_is_literal(rest);
        assert(s =~= seq![s[0]] + rest);
        if is_special(s[0]) {
            assert(escaped(s).skip(2) =~= escaped(rest));
        } else {
            assert(escaped(s).skip(1) =~= escaped(rest));
        }
    }
}

/// The line that is given puts the folder on the search path: once it has been
/// followed, the folder is found there.
pub proof fn law_path_line_helps(dir: Seq<char>, path: Seq<char>)
    requires
        path_line(dir) is Some,
    ensures
        on_path(read_in_quotes(escaped(dir)) + seq![':'] + path, dir),
{
    law_escaped_text_is_literal(dir);
    let after = dir + seq![':'] + path;
    assert forall|k: int| 0 <= k < dir.len() implies after[k] != ':' by {
        assert(dir.contains(dir[k]));
        assert(after[k] == dir[k]);
    }
    text::lemma_find_from(after, ':', 0, dir.len() as int);
    assert(after.subrange(0, dir.len() as int) =~= dir);
    assert(folders(after, 0)[0] == dir);
    assert(paths::same_place(folders(after, 0)[0], dir));
}

/// The folder that was asked for is used, taken from the current directory
/// where it is relative. Otherwise the folder of the whole system is, where it
/// can be written to, and the one in the home directory where it cannot.
pub proof fn law_folder_to_install_into(
    r: Result<String, AmError>,
    dir: Option<Seq<char>>,
    cwd: Seq<char>,
    system_writable: bool,
    home: Option<Seq<char>>,
)
    requires
        is_place(r, dir, cwd, system_writable, home),
    ensures
        dir matches Some(d) ==> {
            &&& d.len() > 0 && d[0] == '/' ==> (r matches Ok(into) && into@ == d)
            &&& d.len() > 0 && d[0] != '/' && cwd.len() > 0 && cwd.last() != '/' ==> (r matches Ok(
                into,
            ) && into@ == cwd + seq!['/'] + d)
        },
        dir is None && system_writable ==> (r matches Ok(into) && into@ == "/usr/local/bin"@),
        dir is None && !system_writable ==> {
            &&& home is None || (home->0).len() == 0 ==> (r matches Err(AmError::HomeNotSet))
            &&& home is Some && (home->0).len() > 0 && (home->0).last() != '/' ==> (r matches Ok(
                into,
            ) && into@ == home->0 + "/.local/bin"@)
        },
{
    reveal_strlit(".local/bin");
    reveal_strlit("/.local/bin");
    if dir is None && !system_writable {
        if let Some(h) = home {
            if h.len() > 0 && h.last() != '/' {
                assert(paths::joined(h, USER_BIN@) =~= h + "/.local/bin"@);
            }
        }
    }
}

proof fn lemma_folders_shift(p: Seq<char>, from: int)
    requires
        0 <= from <= p.len(),
    ensures
        folders(p, from) == folders(p.skip(from), 0),
    decreases p.len() - from,
{
    let q = p.skip(from);
    text::lemma_found(p, ':', from);
    let end = text::find_from(p, ':', from);
    assert forall|k: int| 0 <= k < end - from implies q[k] != ':' by {
        assert(q[k] == p[from + k]);
    }
    if end < p.len() {
        assert(q[end - from] == p[end]);
    }
    text::lemma_find_from(q, ':', 0, end - from);
    assert(q.subrange(0, end - from) =~= p.subrange(from, end));
    if end < p.len() {
        lemma_folders_shift(p, end + 1);
        lemma_folders_shift(q, end - from + 1);
        assert(q.skip(end - from + 1) =~= p.skip(end + 1));
    }
}

/// A folder is on a search path just where it is one of those between the
/// colons, by its components.
pub proof fn law_search_path_is_looked_through(d: Seq<char>, rest: Seq<char>, dir: Seq<char>)
    requires
        !d.contains(':'),
    ensures
        ({
            let same = {
                &&& paths::components(d).len() == paths::components(dir).len()
                &&& forall|i: int|
                    0 <= i < paths::components(d).len() ==> #[trigger] paths::component(d, i)
                        == paths::component(dir, i)
            };
            &&& on_path(d, dir) <==> same
            &&& on_path(d + seq![':'] + rest, dir) <==> same || on_path(rest, dir)
        }),
{
    let s = d + seq![':'] + rest;
    let n = d.len() as int;
    assert forall|k: int| 0 <= k < n implies d[k] != ':' && s[k] != ':' by {
        assert(d.contains(d[k]));
        assert(s[k] == d[k]);
    }
    assert(s[n] == ':');
    text::lemma_find_from(s, ':', 0, n);
    text::lemma_find_from(d, ':', 0, n);
    assert(s.subrange(0, n) =~= d);
    assert(d.subrange(0, n) =~= d);
    lemma_folders_shift(s, n + 1);
    assert(s.skip(n + 1) =~= rest);
    lemma_among(d, folders(rest, 0), dir);
    assert(folders(s, 0) =~= seq![d] + folders(rest, 0));
    lemma_among(d, Seq::empty(), dir);
    assert(folders(d, 0) =~= seq![d] + Seq::<Seq<char>>::empty());
}

/// What is said once am is installed names the file; where the folder is not on
/// the search path, it gives the whole line that puts it there, just where
/// there is one.
pub proof fn law_install_notices(dir: Seq<char>, path: Seq<char>)
    requires
        dir.len() > 0 && dir.last() != '/',
    ensures
        ({
            let r = install_notices(dir, path);
            let possible = !dir.contains(':') && !dir.contains('\n');
            &&& r[0] == "Installed "@ + dir + "/am"@
            &&& on_path(path, dir) <==> r.len() == 1
            &&& !on_path(path, dir) && possible ==> r.len() == 3 && r[1] == dir
                + " is not on your PATH; add this line to ~/.bash_profile:"@ && r[2]
                == "export PATH=\""@ + escaped(dir) + ":$PATH\""@
            &&& !on_path(path, dir) && !possible ==> r.len() == 2
        }),
{
    reveal_strlit("am");
    reveal_strlit("/am");
    assert(paths::joined(dir, BIN_NAME@) =~= dir + "/am"@);
    assert("Installed "@ + paths::joined(dir, BIN_NAME@) =~= "Installed "@ + dir + "/am"@);
    reveal_strlit(" is not on your PATH; add this line to ~/");
    reveal_strlit(".bash_profile");
    reveal_strlit(":");
    reveal_strlit(" is not on your PATH; add this line to ~/.bash_profile:");
    assert(" is not on your PATH; add this line to ~/"@ + paths::PROFILE_FILE_NAME@ + ":"@
        =~= " is not on your PATH; add this line to ~/.bash_profile:"@);
    assert(dir + " is not on your PATH; add this line to ~/"@ + paths::PROFILE_FILE_NAME@ + ":"@
        =~= dir + (" is not on your PATH; add this line to ~/"@ + paths::PROFILE_FILE_NAME@ + ":"@));
}

} // verus!
