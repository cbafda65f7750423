//! Unix paths as texts: their components, `~`, and the `cd` that goes to one.
use vstd::prelude::*;

use crate::chars;
use crate::error::AmError;
use crate::line;
use crate::text;
use crate::validate;

verus! {

pub const ALIAS_FILE_NAME: &'static str = ".alias-management";

pub const PROFILE_FILE_NAME: &'static str = ".bash_profile";

// ---------------------------------------------------------------------------
// Joining
// ---------------------------------------------------------------------------

/// `rest` as seen from the directory `base`: an absolute `rest` stands for
/// itself.
pub open spec fn joined(base: Seq<char>, rest: Seq<char>) -> Seq<char> {
    if rest.len() > 0 && rest[0] == '/' {
        rest
    } else if base.len() > 0 && base.last() != '/' {
        base + seq!['/'] + rest
    } else {
        base + rest
    }
}

fn starts_with_slash(s: &str) -> (r: bool)
    ensures
        r == (s@.len() > 0 && s@[0] == '/'),
{
    let v: Vec<char> = text::to_chars(s);
    v.len() > 0 && v[0] == '/'
}

/// `rest` as seen from the directory `base`.
pub fn join(base: &str, rest: &str) -> (r: String)
    ensures
        r@ == joined(base@, rest@),
{
    let mut out: String = String::new();
    if !starts_with_slash(rest) {
        let v: Vec<char> = text::to_chars(base);
        out.push_str(base);
        if v.len() > 0 && v[v.len() - 1] != '/' {
            out.push('/');
        }
    }
    out.push_str(rest);
    assert(out@ == joined(base@, rest@));
    out
}

/// Where the aliases are stored.
pub fn alias_file_path(home: &str) -> (r: String)
    ensures
        r@ == joined(home@, ALIAS_FILE_NAME@),
{
    join(home, ALIAS_FILE_NAME)
}

/// Where bash is told to load them.
pub fn profile_path(home: &str) -> (r: String)
    ensures
        r@ == joined(home@, PROFILE_FILE_NAME@),
{
    join(home, PROFILE_FILE_NAME)
}

// ---------------------------------------------------------------------------
// Components
// ---------------------------------------------------------------------------

/// The part of a text from `start` up to `end`.
pub struct Span {
    pub start: int,
    pub end: int,
}

/// The pieces between slashes from position `from` on. Empty ones are left
/// out, and so is `.`, unless it starts the path.
pub open spec fn pieces(p: Seq<char>, from: int) -> Seq<Span>
    decreases p.len() - from,
{
    if 0 <= from <= p.len() {
        proof {
            text::lemma_found(p, '/', from);
        }
        let end = text::find_from(p, '/', from);
        let here = if end > from && (from == 0 || p.subrange(from, end) != seq!['.']) {
            seq![Span { start: from, end }]
        } else {
            seq![]
        };
        if end < p.len() {
            here + pieces(p, end + 1)
        } else {
            here
        }
    } else {
        seq![]
    }
}

/// The components of a path: the root, where the path is absolute, and the
/// pieces.
pub open spec fn components(p: Seq<char>) -> Seq<Span> {
    if p.len() > 0 && p[0] == '/' {
        seq![Span { start: 0, end: 1 }] + pieces(p, 1)
    } else {
        pieces(p, 0)
    }
}

/// The text of one component.
pub open spec fn component(p: Seq<char>, i: int) -> Seq<char> {
    p.subrange(components(p)[i].start, components(p)[i].end)
}

/// Whether the path `p` is `base` or lies under it, by whole components.
pub open spec fn lies_under(p: Seq<char>, base: Seq<char>) -> bool {
    &&& components(base).len() <= components(p).len()
    &&& forall|i: int|
        0 <= i < components(base).len() ==> #[trigger] component(base, i) == component(p, i)
}

/// Whether two paths have the same components.
pub open spec fn same_place(a: Seq<char>, b: Seq<char>) -> bool {
    &&& components(a).len() == components(b).len()
    &&& forall|i: int| 0 <= i < components(a).len() ==> #[trigger] component(a, i) == component(b, i)
}

/// What is left of the path `p` below `base`.
pub open spec fn below(p: Seq<char>, base: Seq<char>) -> Seq<char> {
    let c = components(p);
    let n = components(base).len() as int;
    if n < c.len() {
        p.subrange(c[n].start, c.last().end)
    } else {
        seq![]
    }
}

struct Piece {
    start: usize,
    end: usize,
}

impl View for Piece {
    type V = Span;

    closed spec fn view(&self) -> Span {
        Span { start: self.start as int, end: self.end as int }
    }
}

spec fn spans(v: Seq<Piece>) -> Seq<Span> {
    v.map_values(|x: Piece| x@)
}

/// The spans lie in a text of length `n`, one after the other.
spec fn in_order(v: Seq<Piece>, n: int) -> bool {
    &&& forall|i: int| 0 <= i < v.len() ==> (#[trigger] v[i]).start <= v[i].end <= n
    &&& forall|i: int, j: int|
        0 <= i < j < v.len() ==> (#[trigger] v[i]).end <= (#[trigger] v[j]).start
}

fn split_components(p: &Vec<char>) -> (r: Vec<Piece>)
    ensures
        spans(r@) == components(p@),
        in_order(r@, p@.len() as int),
{
    let mut out: Vec<Piece> = Vec::new();
    let mut from: usize = 0;
    if p.len() > 0 && p[0] == '/' {
        out.push(Piece { start: 0, end: 1 });
        from = 1;
    }
    let len: usize = p.len();
    assert(spans(out@) + pieces(p@, from as int) == components(p@));
    loop
        invariant
            len == p@.len(),
            from <= len,
            spans(out@) + pieces(p@, from as int) == components(p@),
            in_order(out@, from as int),
            from == 0 ==> out@.len() == 0,
        decreases len - from,
    {
        let end: usize = text::find_char(p, '/', from);
        let ghost held = spans(out@);
        let ghost rest = pieces(p@, end + 1);
        let dot: bool = end - from == 1 && p[from] == '.';
        proof {
            if dot {
                assert(p@.subrange(from as int, end as int) == seq!['.']);
            } else if p@.subrange(from as int, end as int) == seq!['.'] {
                assert(p@.subrange(from as int, end as int).len() == 1);
                assert(p@.subrange(from as int, end as int)[0] == p@[from as int]);
            }
        }
        if end > from && (from == 0 || !dot) {
            let piece: Piece = Piece { start: from, end };
            out.push(piece);
            assert(spans(out@) == held.push(piece@));
            assert(held + (seq![piece@] + rest) == spans(out@) + rest);
            assert(held + seq![piece@] == spans(out@));
        } else {
            assert(seq![] + rest == rest);
            assert(held + Seq::<Span>::empty() == held);
        }
        if end >= len {
            return out;
        }
        from = end + 1;
    }
}

/// What is left of `path` below `base`, if it lies there.
pub fn strip_base(path: &str, base: &str) -> (r: Option<String>)
    ensures
        match r {
            Some(rest) => lies_under(path@, base@) && rest@ == below(path@, base@),
            None => !lies_under(path@, base@),
        },
{
    let p: Vec<char> = text::to_chars(path);
    let b: Vec<char> = text::to_chars(base);
    let ps: Vec<Piece> = split_components(&p);
    let bs: Vec<Piece> = split_components(&b);
    if bs.len() > ps.len() {
        return None;
    }
    let mut i: usize = 0;
    while i < bs.len()
        invariant
            p@ == path@,
            b@ == base@,
            spans(ps@) == components(path@),
            spans(bs@) == components(base@),
            in_order(ps@, p@.len() as int),
            in_order(bs@, b@.len() as int),
            i <= bs@.len() <= ps@.len(),
            forall|k: int| 0 <= k < i ==> #[trigger] component(base@, k) == component(path@, k),
        decreases bs@.len() - i,
    {
        assert(spans(ps@)[i as int] == ps@[i as int]@);
        assert(spans(bs@)[i as int] == bs@[i as int]@);
        let x: String = text::substring(&p, ps[i].start, ps[i].end);
        let y: String = text::substring(&b, bs[i].start, bs[i].end);
        assert(x@ == component(path@, i as int));
        assert(y@ == component(base@, i as int));
        if !text::same_text(x.as_str(), y.as_str()) {
            return None;
        }
        i = i + 1;
    }
    if bs.len() == ps.len() {
        return Some(String::new());
    }
    let n: usize = bs.len();
    let last: usize = ps.len() - 1;
    assert(spans(ps@)[n as int] == ps@[n as int]@);
    assert(spans(ps@)[last as int] == ps@[last as int]@);
    assert(ps@[n as int].start <= ps@[last as int].end);
    Some(text::substring(&p, ps[n].start, ps[last].end))
}

/// Whether two paths have the same components.
pub fn is_same_place(a: &str, b: &str) -> (r: bool)
    ensures
        r == same_place(a@, b@),
{
    let under: bool = strip_base(a, b).is_some();
    let over: bool = strip_base(b, a).is_some();
    proof {
        if under && over {
            assert forall|i: int| 0 <= i < components(a@).len() implies #[trigger] component(a@, i)
                == component(b@, i) by {
                assert(component(b@, i) == component(a@, i));
            }
        }
    }
    under && over
}

// ---------------------------------------------------------------------------
// The home directory
// ---------------------------------------------------------------------------

/// The path with the home directory written as `~`.
pub open spec fn contracted(path: Seq<char>, home: Seq<char>) -> Seq<char> {
    if !lies_under(path, home) {
        path
    } else if below(path, home).len() == 0 {
        seq!['~']
    } else {
        seq!['~', '/'] + below(path, home)
    }
}

/// The path with the home directory written as `~`.
pub fn contract_home(path: &str, home: &str) -> (r: String)
    ensures
        r@ == contracted(path@, home@),
{
    match strip_base(path, home) {
        Some(rest) => {
            let mut out: String = String::new();
            out.push('~');
            if !rest.as_str().is_empty() {
                out.push('/');
                out.push_str(rest.as_str());
            }
            assert(out@ == contracted(path@, home@));
            out
        },
        None => path.to_string(),
    }
}

/// The text with a leading `~` that stands alone or before a slash replaced
/// by the home directory, if that is known.
pub open spec fn tilde_expanded(input: Seq<char>, home: Option<Seq<char>>) -> Seq<char> {
    if input.len() > 0 && input[0] == '~' && (input.len() == 1 || input[1] == '/') {
        match home {
            Some(h) => h + input.skip(1),
            None => input,
        }
    } else {
        input
    }
}

/// The text of an optional string slice.
pub open spec fn optional_text(s: Option<&str>) -> Option<Seq<char>> {
    match s {
        Some(t) => Some(t@),
        None => None,
    }
}

/// `shellexpand::tilde_with_context`: a `~` at the start of the input, if it
/// is followed by a slash or by nothing, is replaced by the home directory
/// that the closure gives. Any other input, and every input where there is no
/// home directory, comes back as it is. (This is what it does on Unix.)
#[verifier::external_body]
fn expand_tilde(input: &str, home: Option<&str>) -> (r: String)
    ensures
        r@ == tilde_expanded(input@, optional_text(home)),
{
    shellexpand::tilde_with_context(input, || home).into_owned()
}

/// The folder that an input stands for.
pub open spec fn expanded(input: Seq<char>, home: Option<Seq<char>>, cwd: Seq<char>) -> Seq<char> {
    joined(cwd, tilde_expanded(text::trimmed(input), home))
}

/// The folder that an input stands for, seen from the directory `cwd`.
pub fn expand_input_path(input: &str, home: Option<&str>, cwd: &str) -> (r: String)
    ensures
        r@ == expanded(input@, optional_text(home), cwd@),
{
    let t: String = text::trim(input);
    let path: String = expand_tilde(t.as_str(), home);
    join(cwd, path.as_str())
}

// ---------------------------------------------------------------------------
// The action of a folder alias
// ---------------------------------------------------------------------------

/// The characters that need no quotes in a path.
pub open spec fn plain(c: char) -> bool {
    chars::is_alnum(c) || "_./~+@%=:,-"@.contains(c)
}

/// Whether a path needs no quotes.
pub open spec fn is_plain(p: Seq<char>) -> bool {
    forall|i: int| 0 <= i < p.len() ==> plain(#[trigger] p[i])
}

/// The characters that bash interprets inside double quotes, and the single
/// quote.
pub open spec fn unsafe_in_quotes(c: char) -> bool {
    c == '"' || c == '\'' || c == '$' || c == '`' || c == '\\'
}

/// Whether a path can be put between double quotes.
pub open spec fn is_quotable(p: Seq<char>) -> bool {
    forall|i: int| 0 <= i < p.len() ==> !unsafe_in_quotes(#[trigger] p[i])
}

/// The action that goes to a folder. Plain paths are written with `~`; others
/// in full, between double quotes.
pub open spec fn folder_command(path: Seq<char>, home: Seq<char>) -> Option<Seq<char>> {
    if is_plain(contracted(path, home)) {
        Some("cd "@ + contracted(path, home))
    } else if is_quotable(path) {
        Some("cd \""@ + path + "\""@)
    } else {
        None
    }
}

fn all_plain(p: &str) -> (r: bool)
    ensures
        r == is_plain(p@),
{
    let v: Vec<char> = text::to_chars(p);
    let mut i: usize = 0;
    while i < v.len()
        invariant
            v@ == p@,
            i <= v@.len(),
            forall|k: int| 0 <= k < i ==> plain(#[trigger] v@[k]),
        decreases v@.len() - i,
    {
        let c: char = v[i];
        if !chars::is_ascii_alphanumeric(c) && !text::has_char("_./~+@%=:,-", c) {
            return false;
        }
        i = i + 1;
    }
    true
}

fn all_quotable(p: &str) -> (r: bool)
    ensures
        r == is_quotable(p@),
{
    let v: Vec<char> = text::to_chars(p);
    let mut i: usize = 0;
    while i < v.len()
        invariant
            v@ == p@,
            i <= v@.len(),
            forall|k: int| 0 <= k < i ==> !unsafe_in_quotes(#[trigger] v@[k]),
        decreases v@.len() - i,
    {
        let c: char = v[i];
        if c == '"' || c == '\'' || c == '$' || c == '`' || c == '\\' {
            return false;
        }
        i = i + 1;
    }
    true
}

/// Builds the `cd ...` action for a folder alias. Paths of plain characters
/// are stored with the home directory as `~`; other paths fall back to the
/// full path in double quotes. Characters that bash would still interpret
/// there make the path unstorable.
pub fn folder_action(expanded: &str, home: &str) -> (r: Result<String, AmError>)
    ensures
        match r {
            Ok(a) => folder_command(expanded@, home@) == Some(a@),
            Err(e) => folder_command(expanded@, home@) is None && e == AmError::UnsafePath,
        },
{
    let display: String = contract_home(expanded, home);
    let mut out: String = String::new();
    if all_plain(display.as_str()) {
        out.push_str("cd ");
        out.push_str(display.as_str());
        assert(out@ == "cd "@ + display@);
        return Ok(out);
    }
    if !all_quotable(expanded) {
        return Err(AmError::UnsafePath);
    }
    out.push_str("cd \"");
    out.push_str(expanded);
    out.push_str("\"");
    assert(out@ == "cd \""@ + expanded@ + "\""@);
    Ok(out)
}

// ---------------------------------------------------------------------------
// Laws
// ---------------------------------------------------------------------------

/// The action for a folder can always be quoted, and it can be stored on one
/// line unless it is a quoted path with a line break in it.
pub proof fn law_folder_action_is_storable(path: Seq<char>, home: Seq<char>)
    requires
        folder_command(path, home) is Some,
    ensures
        line::quoted(folder_command(path, home)->0) is Some,
        validate::storable(folder_command(path, home)->0) <==> (is_plain(contracted(path, home))
            || !path.contains('\n')),
{
    reveal_strlit("cd ");
    reveal_strlit("cd \"");
    reveal_strlit("\"");
    reveal_strlit("_./~+@%=:,-");
    let a = folder_command(path, home)->0;
    if is_plain(contracted(path, home)) {
        assert forall|i: int| 0 <= i < a.len() implies a[i] != '"' && a[i] != '\n' by {
            if i < 3 {
                assert(a[i] == "cd "@[i]);
            } else {
                assert(a[i] == contracted(path, home)[i - 3]);
                assert(plain(contracted(path, home)[i - 3]));
            }
        }
    } else {
        assert forall|i: int| 0 <= i < a.len() implies a[i] != '\'' && (a[i] == '\n'
            ==> path.contains('\n')) by {
            if i < 4 {
                assert(a[i] == "cd \""@[i]);
            } else if i < 4 + path.len() {
                assert(a[i] == path[i - 4]);
                assert(!unsafe_in_quotes(path[i - 4]));
            } else {
                assert(a[i] == '"');
            }
        }
        if path.contains('\n') {
            let k = choose|k: int| 0 <= k < path.len() && path[k] == '\n';
            assert(a[k + 4] == '\n');
        }
    }
}

/// A path with a quote, `$`, a backtick or a backslash in it is rejected, but
/// for the part of it that `~` stands for.
pub proof fn law_unsafe_path_is_rejected(path: Seq<char>, home: Seq<char>, i: int)
    requires
        0 <= i < contracted(path, home).len(),
        unsafe_in_quotes(contracted(path, home)[i]),
    ensures
        folder_command(path, home) is None,
{
    reveal_strlit("_./~+@%=:,-");
    let c = contracted(path, home);
    assert(!plain(c[i]));
    if lies_under(path, home) && below(path, home).len() > 0 {
        let spans = components(path);
        let n = components(home).len() as int;
        assert(i >= 2);
        if path.len() > 0 && path[0] == '/' && n > 0 {
            lemma_pieces(path, 1, n - 1);
        } else if path.len() > 0 && path[0] == '/' {
            if spans.len() > 1 {
                lemma_pieces(path, 1, 0);
            }
        } else {
            lemma_pieces(path, 0, n);
        }
        assert(c[i] == path[spans[n].start + i - 2]);
    } else {
        assert(c == path || i == 0);
    }
}

/// The texts of some spans of a path.
spec fn texts_at(p: Seq<char>, spans: Seq<Span>) -> Seq<Seq<char>> {
    Seq::new(spans.len(), |i: int| p.subrange(spans[i].start, spans[i].end))
}

/// The pieces of a relative path, as texts.
spec fn words(p: Seq<char>) -> Seq<Seq<char>>
    decreases p.len(),
{
    proof {
        text::lemma_found(p, '/', 0);
    }
    let end = text::find_from(p, '/', 0);
    let here = if end > 0 && p.take(end) != seq!['.'] {
        seq![p.take(end)]
    } else {
        seq![]
    };
    if end < p.len() {
        here + words(p.skip(end + 1))
    } else {
        here
    }
}

proof fn lemma_find_skips(p: Seq<char>, from: int)
    requires
        0 <= from <= p.len(),
    ensures
        text::find_from(p, '/', from) == from + text::find_from(p.skip(from), '/', 0),
{
    let q = p.skip(from);
    text::lemma_found(q, '/', 0);
    let e = text::find_from(q, '/', 0);
    assert forall|k: int| from <= k < from + e implies p[k] != '/' by {
        assert(q[k - from] == p[k]);
    }
    if e < q.len() {
        assert(q[e] == p[from + e]);
    }
    text::lemma_find_from(p, '/', from, from + e);
}

proof fn lemma_pieces_are_words(p: Seq<char>, from: int)
    requires
        0 < from <= p.len(),
    ensures
        texts_at(p, pieces(p, from)) == words(p.skip(from)),
    decreases p.len() - from,
{
    let q = p.skip(from);
    let end = text::find_from(p, '/', from);
    text::lemma_found(p, '/', from);
    lemma_find_skips(p, from);
    assert(q.take(end - from) =~= p.subrange(from, end));
    if end < p.len() {
        lemma_pieces_are_words(p, end + 1);
        assert(q.skip(end - from + 1) =~= p.skip(end + 1));
        assert(texts_at(p, pieces(p, from)) =~= words(q));
    } else {
        assert(texts_at(p, pieces(p, from)) =~= words(q));
    }
}

proof fn lemma_words_add(a: Seq<char>, b: Seq<char>)
    ensures
        words(a + seq!['/'] + b) == words(a) + words(b),
    decreases a.len(),
{
    let s = a + seq!['/'] + b;
    let e = text::find_from(a, '/', 0);
    text::lemma_found(a, '/', 0);
    assert forall|k: int| 0 <= k < e implies s[k] != '/' by {
        assert(s[k] == a[k]);
    }
    assert(s[e] == '/');
    text::lemma_find_from(s, '/', 0, e);
    assert(s.take(e) =~= a.take(e));
    if e < a.len() {
        lemma_words_add(a.skip(e + 1), b);
        assert(s.skip(e + 1) =~= a.skip(e + 1) + seq!['/'] + b);
        assert(words(s) =~= words(a) + words(b));
    } else {
        assert(s.skip(e + 1) =~= b);
        assert(words(s) =~= words(a) + words(b));
    }
}

/// The pieces of a path are not empty and follow one another; from the start
/// of one of them on, the pieces are that one and those after it; and after
/// the end of the last one there is none.
proof fn lemma_pieces(p: Seq<char>, from: int, k: int)
    requires
        0 <= from <= p.len(),
        0 <= k < pieces(p, from).len(),
    ensures
        from <= pieces(p, from)[k].start < pieces(p, from)[k].end <= pieces(p, from).last().end
            <= p.len(),
        pieces(p, pieces(p, from)[k].start) == pieces(p, from).skip(k),
        pieces(p, from).last().end < p.len() ==> p[pieces(p, from).last().end] == '/' && pieces(
            p,
            pieces(p, from).last().end + 1,
        ).len() == 0,
    decreases p.len() - from,
{
    let end = text::find_from(p, '/', from);
    text::lemma_found(p, '/', from);
    let ps = pieces(p, from);
    let here = end > from && (from == 0 || p.subrange(from, end) != seq!['.']);
    if end < p.len() {
        let rest = pieces(p, end + 1);
        if here {
            assert(ps =~= seq![Span { start: from, end }] + rest);
            if k > 0 {
                lemma_pieces(p, end + 1, k - 1);
                assert(ps.skip(k) =~= rest.skip(k - 1));
            } else {
                assert(ps.skip(0) =~= ps);
                if rest.len() > 0 {
                    lemma_pieces(p, end + 1, 0);
                }
            }
        } else {
            assert(ps =~= rest);
            lemma_pieces(p, end + 1, k);
        }
    } else {
        assert(ps.skip(0) =~= ps);
    }
}

/// What is left below the first `n` components of an absolute path has the
/// others.
proof fn lemma_words_below(p: Seq<char>, n: int)
    requires
        p.len() > 0 && p[0] == '/',
        1 <= n < components(p).len(),
    ensures
        0 <= components(p)[n].start < components(p).last().end <= p.len(),
        words(p.subrange(components(p)[n].start, components(p).last().end)) == texts_at(
            p,
            components(p).skip(n),
        ),
{
    let c = components(p);
    let ps = pieces(p, 1);
    assert(c.skip(n) =~= ps.skip(n - 1));
    lemma_pieces(p, 1, n - 1);
    let start = ps[n - 1].start;
    let end = ps.last().end;
    lemma_pieces_are_words(p, start);
    let sub = p.subrange(start, end);
    if end < p.len() {
        assert(p.skip(start) =~= sub + seq!['/'] + p.skip(end + 1));
        lemma_words_add(sub, p.skip(end + 1));
        lemma_pieces_are_words(p, end + 1);
        assert(words(p.skip(end + 1)) =~= seq![]);
        assert(words(p.skip(start)) =~= words(sub));
    } else {
        assert(p.skip(start) =~= sub);
    }
}

/// The components of an absolute path are the root and its words.
proof fn lemma_absolute(p: Seq<char>)
    requires
        p.len() > 0 && p[0] == '/',
    ensures
        texts_at(p, components(p)) == seq![seq!['/']] + words(p.skip(1)),
{
    lemma_pieces_are_words(p, 1);
    assert(p.subrange(0, 1) =~= seq!['/']);
    assert(texts_at(p, components(p)) =~= seq![seq!['/']] + words(p.skip(1)));
}

/// Writing the home directory as `~` and reading it again leads to the same
/// place, for absolute paths whose short form has no white space around it.
pub proof fn law_contract_then_expand(path: Seq<char>, home: Seq<char>, cwd: Seq<char>)
    requires
        path.len() > 0 && path[0] == '/',
        home.len() > 0,
        text::trimmed(contracted(path, home)) == contracted(path, home),
    ensures
        same_place(expanded(contracted(path, home), Some(home), cwd), path),
{
    let short = contracted(path, home);
    let long = expanded(short, Some(home), cwd);
    if !lies_under(path, home) {
        assert(long == path);
    } else {
        let n = components(home).len() as int;
        let c = components(path);
        let b = below(path, home);
        let hs = texts_at(home, components(home));
        let ps = texts_at(path, c);
        assert forall|i: int| 0 <= i < n implies hs[i] == ps[i] by {
            assert(component(home, i) == component(path, i));
        }
        if home[0] != '/' {
            text::lemma_found(home, '/', 0);
            assert(component(home, 0) == component(path, 0));
            assert(component(path, 0)[0] == '/');
            assert(component(home, 0)[0] == home[0]);
        }
        if n < c.len() {
            lemma_words_below(path, n);
            assert(b.len() > 0);
            assert(short.skip(1) =~= seq!['/'] + b);
            assert(long =~= home + seq!['/'] + b);
            lemma_absolute(home);
            lemma_absolute(long);
            assert(long.skip(1) =~= home.skip(1) + seq!['/'] + b);
            lemma_words_add(home.skip(1), b);
            assert(texts_at(long, components(long)) =~= hs + words(b));
            assert(texts_at(path, c.skip(n)) =~= ps.skip(n));
            assert(texts_at(long, components(long)) =~= ps);
        } else {
            assert(short.skip(1) =~= seq![]);
            assert(long =~= home);
            assert(hs =~= ps);
        }
        let ls = texts_at(long, components(long));
        assert forall|i: int| 0 <= i < components(long).len() implies #[trigger] component(long, i)
            == component(path, i) by {
            assert(ls[i] == ps[i]);
        }
    }
}

// ---------------------------------------------------------------------------
// Laws: where an input leads
// ---------------------------------------------------------------------------

/// The pieces of a text that starts with whole ones: those, and then those of
/// what follows.
proof fn lemma_pieces_add(x: Seq<char>, y: Seq<char>, from: int)
    requires
        0 <= from <= x.len(),
        x.len() > 0 && x.last() == '/',
    ensures
        pieces(x + y, from) == pieces(x, from) + pieces(x + y, x.len() as int),
    decreases x.len() - from,
{
    let s = x + y;
    text::lemma_found(x, '/', from);
    let end = text::find_from(x, '/', from);
    if from < x.len() {
        assert(x[x.len() - 1] == '/');
        assert(end < x.len());
        assert forall|k: int| from <= k < end implies s[k] != '/' by {
            assert(s[k] == x[k]);
        }
        assert(s[end] == '/');
        text::lemma_find_from(s, '/', from, end);
        assert(s.subrange(from, end) =~= x.subrange(from, end));
        lemma_pieces_add(x, y, end + 1);
        assert(pieces(s, from) =~= pieces(x, from) + pieces(s, x.len() as int));
    } else {
        assert(pieces(x, from) =~= seq![]);
        assert(pieces(s, from) =~= pieces(x, from) + pieces(s, x.len() as int));
    }
}

/// A slash at the end adds no piece.
proof fn lemma_final_slash(p: Seq<char>, from: int)
    requires
        0 <= from <= p.len(),
    ensures
        pieces(p + seq!['/'], from) == pieces(p, from),
    decreases p.len() - from,
{
    let s = p + seq!['/'];
    text::lemma_found(p, '/', from);
    let end = text::find_from(p, '/', from);
    assert forall|k: int| from <= k < end implies s[k] != '/' by {
        assert(s[k] == p[k]);
    }
    assert(s[end] == '/');
    text::lemma_find_from(s, '/', from, end);
    assert(s.subrange(from, end) =~= p.subrange(from, end));
    if end < p.len() {
        lemma_final_slash(p, end + 1);
    } else {
        text::lemma_found(s, '/', end + 1);
        assert(pieces(s, end + 1) =~= seq![]);
        assert(pieces(s, from) =~= pieces(p, from));
    }
}

/// The components of `p` and of what goes on from there.
proof fn lemma_components_add(p: Seq<char>, y: Seq<char>)
    requires
        p.len() > 0,
    ensures
        ({
            let s = p + seq!['/'] + y;
            &&& components(s) == components(p) + pieces(s, p.len() as int + 1)
            &&& forall|i: int| 0 <= i < components(p).len() ==> #[trigger] component(s, i) == component(p, i)
        }),
{
    let x = p + seq!['/'];
    let s = x + y;
    assert(s[0] == p[0]);
    let from: int = if p[0] == '/' {
        1
    } else {
        0
    };
    lemma_pieces_add(x, y, from);
    lemma_final_slash(p, from);
    assert(components(s) =~= components(p) + pieces(s, p.len() as int + 1));
    assert forall|i: int| 0 <= i < components(p).len() implies #[trigger] component(s, i)
        == component(p, i) by {
        let c = components(p)[i];
        assert(components(s)[i] == c);
        if p[0] == '/' && i == 0 {
        } else if p[0] == '/' {
            lemma_pieces(p, 1, i - 1);
        } else {
            lemma_pieces(p, 0, i);
        }
        assert(s.subrange(c.start, c.end) =~= p.subrange(c.start, c.end));
    }
}

/// A path is read from left to right: going on with a slash and a name adds
/// that name as a component; going on with a slash alone, or with a slash and
/// `.`, adds none.
pub proof fn law_components_go_on(p: Seq<char>, name: Seq<char>)
    requires
        p.len() > 0,
        name.len() > 0,
        !name.contains('/'),
        name != seq!['.'],
    ensures
        ({
            let s = p + seq!['/'] + name;
            let n = components(p).len() as int;
            &&& components(s).len() == n + 1
            &&& component(s, n) == name
            &&& forall|i: int| 0 <= i < n ==> #[trigger] component(s, i) == component(p, i)
        }),
        same_place(p + seq!['/'], p),
        same_place(p + seq!['/', '.'], p),
{
    let n = p.len() as int + 1;
    let s = p + seq!['/'] + name;
    lemma_components_add(p, name);
    assert forall|k: int| n <= k < s.len() implies s[k] != '/' by {
        assert(s[k] == name[k - n]);
        assert(name.contains(name[k - n]));
    }
    text::lemma_find_from(s, '/', n, s.len() as int);
    assert(s.subrange(n, s.len() as int) =~= name);
    let none = Seq::<char>::empty();
    lemma_components_add(p, none);
    assert(p + seq!['/'] + none =~= p + seq!['/']);
    text::lemma_find_from(p + seq!['/'], '/', n, n);
    assert(pieces(p + seq!['/'], n) =~= seq![]);
    let d = p + seq!['/', '.'];
    assert(p + seq!['/'] + seq!['.'] =~= d);
    lemma_components_add(p, seq!['.']);
    text::lemma_find_from(d, '/', n, n + 1);
    assert(d.subrange(n, n + 1) =~= seq!['.']);
    assert(pieces(d, n) =~= seq![]);
}

/// Where the components of a path begin: the root has one, a bare name is one,
/// and an empty path has none.
pub proof fn law_components_begin(name: Seq<char>)
    requires
        name.len() > 0,
        !name.contains('/'),
    ensures
        components(seq!['/']).len() == 1 && component(seq!['/'], 0) == seq!['/'],
        components(name).len() == 1 && component(name, 0) == name,
        components(Seq::<char>::empty()).len() == 0,
{
    let root = seq!['/'];
    text::lemma_find_from(root, '/', 1, 1);
    assert(pieces(root, 1) =~= seq![]);
    assert(root.subrange(0, 1) =~= root);
    assert forall|k: int| 0 <= k < name.len() implies name[k] != '/' by {
        assert(name.contains(name[k]));
    }
    text::lemma_find_from(name, '/', 0, name.len() as int);
    assert(name.subrange(0, name.len() as int) =~= name);
}

/// An input that is neither absolute nor starts with `~` alone or `~/` is taken
/// from the current directory: it follows that directory's path, and lies in
/// it. The home directory makes no difference.
pub proof fn law_relative_input_is_taken_from_cwd(
    input: Seq<char>,
    home: Option<Seq<char>>,
    other: Option<Seq<char>>,
    cwd: Seq<char>,
)
    requires
        ({
            let t = text::trimmed(input);
            &&& t.len() > 0 ==> t[0] != '/'
            &&& t.len() > 0 && t[0] == '~' ==> t.len() > 1 && t[1] != '/'
        }),
    ensures
        ({
            let t = text::trimmed(input);
            let r = expanded(input, home, cwd);
            &&& r == expanded(input, other, cwd)
            &&& cwd.len() > 0 && cwd.last() != '/' ==> r == cwd + seq!['/'] + t
            &&& cwd.len() == 0 || cwd.last() == '/' ==> r == cwd + t
            &&& components(cwd).len() <= components(r).len()
            &&& forall|i: int| 0 <= i < components(cwd).len() ==> #[trigger] component(r, i) == component(cwd, i)
        }),
{
    let t = text::trimmed(input);
    let r = expanded(input, home, cwd);
    if cwd.len() > 0 && cwd.last() != '/' {
        assert(r == cwd + seq!['/'] + t);
        lemma_components_add(cwd, t);
    } else if cwd.len() > 1 {
        let p = cwd.drop_last();
        let none = Seq::<char>::empty();
        assert(cwd =~= p + seq!['/'] + none);
        assert(r =~= p + seq!['/'] + t);
        lemma_components_add(p, t);
        lemma_components_add(p, none);
        text::lemma_find_from(cwd, '/', cwd.len() as int, cwd.len() as int);
        assert(pieces(cwd, cwd.len() as int) =~= seq![]);
        assert(components(cwd) =~= components(p));
        assert forall|i: int| 0 <= i < components(cwd).len() implies #[trigger] component(r, i)
            == component(cwd, i) by {
            assert(component(r, i) == component(p, i));
            assert(component(cwd, i) == component(p, i));
        }
    } else if cwd.len() == 1 {
        assert(cwd =~= seq!['/']);
        text::lemma_find_from(cwd, '/', 1, 1);
        assert(pieces(cwd, 1) =~= seq![]);
        assert(r[0] == '/');
        assert(r.subrange(0, 1) =~= cwd.subrange(0, 1));
    } else {
        text::lemma_find_from(cwd, '/', 0, 0);
    }
}

/// An absolute input leads where it says, whatever the current and the home
/// directory are.
pub proof fn law_absolute_input_stands(
    input: Seq<char>,
    home: Option<Seq<char>>,
    cwd: Seq<char>,
)
    requires
        text::trimmed(input).len() > 0 && text::trimmed(input)[0] == '/',
    ensures
        expanded(input, home, cwd) == text::trimmed(input),
{
}

/// A `~` alone, or before a slash, is the home directory, whatever the current
/// directory is; what follows it is taken from there.
pub proof fn law_tilde_is_the_home_directory(
    input: Seq<char>,
    home: Seq<char>,
    cwd: Seq<char>,
    rest: Seq<char>,
)
    requires
        home.len() > 0 && home[0] == '/',
        rest.len() > 0 ==> rest[0] == '/',
        text::trimmed(input) == seq!['~'] + rest,
    ensures
        expanded(input, Some(home), cwd) == home + rest,
{
    let t = text::trimmed(input);
    assert(t.skip(1) =~= rest);
    assert((home + rest)[0] == '/');
}

/// The two files lie in the home directory, under their names.
pub proof fn law_files_lie_at_home(home: Seq<char>)
    requires
        home.len() > 0,
    ensures
        home.last() != '/' ==> joined(home, ALIAS_FILE_NAME@) == home + "/.alias-management"@
            && joined(home, PROFILE_FILE_NAME@) == home + "/.bash_profile"@,
        home.last() == '/' ==> joined(home, ALIAS_FILE_NAME@) == home + ".alias-management"@
            && joined(home, PROFILE_FILE_NAME@) == home + ".bash_profile"@,
{
    reveal_strlit(".alias-management");
    reveal_strlit("/.alias-management");
    reveal_strlit(".bash_profile");
    reveal_strlit("/.bash_profile");
    if home.last() != '/' {
        assert(joined(home, ALIAS_FILE_NAME@) =~= home + "/.alias-management"@);
        assert(joined(home, PROFILE_FILE_NAME@) =~= home + "/.bash_profile"@);
    }
}

// ---------------------------------------------------------------------------
// Laws: what is stored for a folder
// ---------------------------------------------------------------------------

/// Whatever goes on from a folder lies under it, and so does the folder
/// itself.
pub proof fn law_what_goes_on_lies_under(base: Seq<char>, rest: Seq<char>)
    requires
        base.len() > 0,
    ensures
        lies_under(base + seq!['/'] + rest, base),
        lies_under(base, base),
{
    let s = base + seq!['/'] + rest;
    lemma_components_add(base, rest);
    assert forall|i: int| 0 <= i < components(base).len() implies #[trigger] component(base, i)
        == component(s, i) by {
        assert(component(s, i) == component(base, i));
    }
}

/// What lies under an absolute folder has its components, and is that folder
/// with something after it.
pub proof fn law_lying_under_means_going_on(p: Seq<char>, base: Seq<char>) -> (rest: Seq<char>)
    requires
        lies_under(p, base),
        p.len() > 0 && p[0] == '/',
        base.len() > 0 && base[0] == '/',
    ensures
        components(base).len() <= components(p).len(),
        forall|i: int| 0 <= i < components(base).len() ==> #[trigger] component(base, i) == component(p, i),
        ({
            let q = base + seq!['/'] + rest;
            &&& components(q).len() == components(p).len()
            &&& forall|i: int| 0 <= i < components(q).len() ==> #[trigger] component(q, i) == component(p, i)
        }),
{
    let n = components(base).len() as int;
    let c = components(p);
    let hs = texts_at(base, components(base));
    let ps = texts_at(p, c);
    assert forall|i: int| 0 <= i < n implies hs[i] == ps[i] by {
        assert(component(base, i) == component(p, i));
    }
    let b = below(p, base);
    let q = base + seq!['/'] + b;
    lemma_absolute(base);
    lemma_absolute(q);
    assert(q.skip(1) =~= base.skip(1) + seq!['/'] + b);
    lemma_words_add(base.skip(1), b);
    assert(texts_at(q, components(q)) =~= hs + words(b));
    if n < c.len() {
        lemma_words_below(p, n);
        assert(texts_at(p, c.skip(n)) =~= ps.skip(n));
    } else {
        text::lemma_find_from(b, '/', 0, 0);
        assert(words(b) =~= seq![]);
        assert(hs =~= ps);
    }
    assert(texts_at(q, components(q)) =~= ps);
    assert forall|i: int| 0 <= i < components(q).len() implies #[trigger] component(q, i)
        == component(p, i) by {
        assert(texts_at(q, components(q))[i] == ps[i]);
    }
    b
}

/// The last component of a path that does not end in a slash or in `/.` ends
/// where the path does.
proof fn lemma_last_piece(p: Seq<char>, from: int)
    requires
        0 <= from < p.len(),
        p.last() != '/',
        !(p.last() == '.' && p.len() > 1 && p[p.len() - 2] == '/'),
        from > 0 ==> p[from - 1] == '/',
    ensures
        pieces(p, from).len() > 0,
        pieces(p, from).last().end == p.len(),
    decreases p.len() - from,
{
    text::lemma_found(p, '/', from);
    let end = text::find_from(p, '/', from);
    if end < p.len() {
        assert(end + 1 < p.len());
        lemma_last_piece(p, end + 1);
    } else {
        let w = p.subrange(from, end);
        if from > 0 && w == seq!['.'] {
            assert(w.len() == 1);
            assert(w[0] == p[from]);
            assert(p.last() == '.');
        }
    }
}

/// The home directory is written as `~`, and what goes on from it goes on from
/// `~`, name by name. Any other path is written in full.
pub proof fn law_home_is_written_as_tilde(p: Seq<char>, name: Seq<char>, home: Seq<char>)
    requires
        home.len() > 0 && home[0] == '/',
        p.len() > 0,
        p.last() != '/',
        !(p.last() == '.' && p.len() > 1 && p[p.len() - 2] == '/'),
        name.len() > 0,
        !name.contains('/'),
        name != seq!['.'],
    ensures
        contracted(home, home) == seq!['~'],
        lies_under(p, home) ==> contracted(p + seq!['/'] + name, home) == contracted(p, home)
            + seq!['/'] + name,
        !lies_under(p, home) ==> contracted(p, home) == p,
{
    law_what_goes_on_lies_under(home, name);
    assert(below(home, home) =~= seq![]);
    if lies_under(p, home) {
        let s = p + seq!['/'] + name;
        let n = components(home).len() as int;
        let m = components(p).len() as int;
        assert(p[0] == '/') by {
            assert(component(home, 0) == component(p, 0));
            assert(component(home, 0) =~= seq!['/']);
            if p[0] != '/' {
                text::lemma_found(p, '/', 0);
                assert(component(p, 0)[0] == p[0]);
            }
        }
        law_components_go_on(p, name);
        lemma_components_add(p, name);
        assert forall|i: int| 0 <= i < n implies #[trigger] component(home, i) == component(s, i) by {
            assert(component(home, i) == component(p, i));
            assert(component(s, i) == component(p, i));
        }
        assert(lies_under(s, home));
        // The new component is the last and ends with the path.
        let at = p.len() as int + 1;
        assert forall|k: int| at <= k < s.len() implies s[k] != '/' by {
            assert(s[k] == name[k - at]);
            assert(name.contains(name[k - at]));
        }
        text::lemma_find_from(s, '/', at, s.len() as int);
        assert(s.subrange(at, s.len() as int) =~= name);
        assert(components(s).last() == Span { start: at, end: s.len() as int });
        if n < m {
            lemma_words_below(p, n);
            lemma_last_piece(p, 1);
            assert(components(p).last().end == p.len());
            assert(components(s)[n] == components(p)[n]);
            assert(below(s, home) =~= below(p, home) + seq!['/'] + name);
            assert(contracted(s, home) =~= contracted(p, home) + seq!['/'] + name);
        } else {
            assert(below(p, home) =~= seq![]);
            assert(components(s)[n] == components(s).last());
            assert(below(s, home) =~= name);
            assert(contracted(s, home) =~= contracted(p, home) + seq!['/'] + name);
        }
    }
}

/// What is stored for a folder: `cd` and the short path, where that is made of
/// plain characters; `cd` and the full path in double quotes, where it is not;
/// and nothing where the full path would be read differently there.
pub proof fn law_folder_actions(path: Seq<char>, home: Seq<char>)
    ensures
        ({
            let short = contracted(path, home);
            let bare = forall|i: int|
                0 <= i < short.len() ==> ('a' <= #[trigger] short[i] <= 'z' || 'A' <= short[i] <= 'Z' || '0' <= short[i]
                    <= '9' || short[i] == '_' || short[i] == '.' || short[i] == '/' || short[i] == '~' || short[i] == '+' || short[i]
                    == '@' || short[i] == '%' || short[i] == '=' || short[i] == ':' || short[i] == ',' || short[i] == '-');
            let safe = forall|i: int|
                0 <= i < path.len() ==> #[trigger] path[i] != '"' && path[i] != '\'' && path[i] != '$'
                    && path[i] != '`' && path[i] != '\\';
            let r = folder_command(path, home);
            &&& bare ==> r == Some("cd "@ + short)
            &&& !bare && safe ==> r == Some("cd \""@ + path + "\""@)
            &&& !bare && !safe ==> r is None
        }),
{
    reveal_strlit("_./~+@%=:,-");
    let short = contracted(path, home);
    let specials = "_./~+@%=:,-"@;
    if is_plain(short) {
        assert forall|i: int| 0 <= i < short.len() implies ('a' <= #[trigger] short[i] <= 'z' || 'A' <= short[i] <= 'Z' || '0' <= short[i]
                    <= '9' || short[i] == '_' || short[i] == '.' || short[i] == '/' || short[i] == '~' || short[i] == '+' || short[i]
                    == '@' || short[i] == '%' || short[i] == '=' || short[i] == ':' || short[i] == ',' || short[i] == '-') by {
            assert(plain(short[i]));
        }
    } else {
        let i = choose|i: int| 0 <= i < short.len() && !plain(#[trigger] short[i]);
        let c = short[i];
        assert(specials[0] == '_' && specials[1] == '.' && specials[2] == '/' && specials[3] == '~'
            && specials[4] == '+' && specials[5] == '@' && specials[6] == '%' && specials[7] == '='
            && specials[8] == ':' && specials[9] == ',' && specials[10] == '-');
        assert(!(c == short[i] && ('a' <= c <= 'z' || 'A' <= c <= 'Z' || '0' <= c
                    <= '9' || c == '_' || c == '.' || c == '/' || c == '~' || c == '+' || c
                    == '@' || c == '%' || c == '=' || c == ':' || c == ',' || c == '-')));
    }
    if !is_quotable(path) {
        let i = choose|i: int| 0 <= i < path.len() && unsafe_in_quotes(#[trigger] path[i]);
        assert(path[i] == '"' || path[i] == '\'' || path[i] == '$' || path[i] == '`' || path[i]
            == '\\');
    } else {
        assert forall|i: int| 0 <= i < path.len() implies #[trigger] path[i] != '"' && path[i]
            != '\'' && path[i] != '$' && path[i] != '`' && path[i] != '\\' by {
            assert(!unsafe_in_quotes(path[i]));
        }
    }
}

/// An optional text is there just where the string is, and is all of it.
pub proof fn law_optional_text_is_the_text(s: &str)
    ensures
        optional_text(Some(s)) == Some(s@),
        optional_text(None) is None,
{
}

} // verus!
