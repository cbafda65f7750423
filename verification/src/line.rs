//! The line that stores an alias:
//!
//! ```text
//! alias <name>="<action>" #<kind>
//! ```
//!
//! Single quotes may stand in place of the double ones, and white space may
//! stand before the line, after it, and around the `#`.
use vstd::prelude::*;

use crate::chars;
use crate::entry::{Alias, AliasEntry, AliasKind};
use crate::error::AmError;
use crate::text;

verus! {

// ---------------------------------------------------------------------------
// Names
// ---------------------------------------------------------------------------

/// The characters that a name may start with.
pub open spec fn starts_name(c: char) -> bool {
    chars::is_alnum(c) || c == '_'
}

/// The characters that a name may hold.
pub open spec fn in_name(c: char) -> bool {
    starts_name(c) || c == '.' || c == '-'
}

/// The names that an alias may have.
pub open spec fn valid_name(s: Seq<char>) -> bool {
    &&& s.len() > 0
    &&& starts_name(s[0])
    &&& forall|i: int| 0 <= i < s.len() ==> in_name(#[trigger] s[i])
}

fn may_start_name(c: char) -> (r: bool)
    ensures
        r == starts_name(c),
{
    chars::is_ascii_alphanumeric(c) || c == '_'
}

fn may_be_in_name(c: char) -> (r: bool)
    ensures
        r == in_name(c),
{
    may_start_name(c) || c == '.' || c == '-'
}

/// Whether an alias may be called `name`: a letter, digit or `_`, then
/// letters, digits, `_`, `.` and `-`, all of them ASCII.
pub fn is_valid_alias_name(name: &str) -> (r: bool)
    ensures
        r == valid_name(name@),
{
    let v: Vec<char> = text::to_chars(name);
    if v.len() == 0 || !may_start_name(v[0]) {
        return false;
    }
    let mut i: usize = 0;
    while i < v.len()
        invariant
            v@ == name@,
            i <= v@.len(),
            forall|k: int| 0 <= k < i ==> in_name(#[trigger] v@[k]),
        decreases v@.len() - i,
    {
        if !may_be_in_name(v[i]) {
            return false;
        }
        i = i + 1;
    }
    true
}

// ---------------------------------------------------------------------------
// The grammar of a line
// ---------------------------------------------------------------------------

/// What a line leaves open besides the alias: its white space and its quotes.
pub struct Layout {
    pub indent: Seq<char>,
    pub gap: Seq<char>,
    pub quote: char,
    pub space: Seq<char>,
    pub inner: Seq<char>,
    pub tail: Seq<char>,
}

/// Whether `s` holds nothing but white space.
pub open spec fn blank(s: Seq<char>) -> bool {
    forall|i: int| 0 <= i < s.len() ==> chars::is_space(#[trigger] s[i])
}

impl Layout {
    /// Whether an alias can be written this way.
    pub open spec fn fits(self, a: Alias) -> bool {
        &&& blank(self.indent)
        &&& blank(self.gap)
        &&& self.gap.len() > 0
        &&& blank(self.space)
        &&& blank(self.inner)
        &&& blank(self.tail)
        &&& self.quote == '"' || self.quote == '\''
        &&& valid_name(a.name)
        &&& !a.action.contains(self.quote)
    }

    /// The line that holds the alias.
    pub open spec fn write(self, a: Alias) -> Seq<char> {
        self.indent + "alias"@ + self.gap + a.name + seq!['=', self.quote] + a.action + seq![
            self.quote,
        ] + self.space + seq!['#'] + self.inner + a.kind.marker() + self.tail
    }
}

/// Whether `line` is a way to write the alias `a`.
pub open spec fn is_line_of(line: Seq<char>, a: Alias) -> bool {
    exists|l: Layout| #[trigger] l.fits(a) && line == l.write(a)
}

/// The alias that a line holds, if it is the line of one. There is at most
/// one (`law_line_holds_one_alias`).
pub open spec fn parsed(line: Seq<char>) -> Option<Alias> {
    if exists|a: Alias| is_line_of(line, a) {
        Some(choose|a: Alias| is_line_of(line, a))
    } else {
        None
    }
}

// ---------------------------------------------------------------------------
// Reading a line from left to right
// ---------------------------------------------------------------------------

/// The classes of characters that follow one another in a line.
enum Class {
    Space,
    Name,
    Except(char),
}

impl Class {
    spec fn holds(self, c: char) -> bool {
        match self {
            Class::Space => chars::is_space(c),
            Class::Name => in_name(c),
            Class::Except(q) => c != q,
        }
    }

    fn accepts(&self, c: char) -> (r: bool)
        ensures
            r == self.holds(c),
    {
        match self {
            Class::Space => chars::is_whitespace(c),
            Class::Name => may_be_in_name(c),
            Class::Except(q) => c != *q,
        }
    }
}

/// Where the run of characters of class `k` ends that starts at `i`.
spec fn run_end(s: Seq<char>, k: Class, i: int) -> int
    decreases s.len() - i,
{
    if i >= s.len() || !k.holds(s[i]) {
        i
    } else {
        run_end(s, k, i + 1)
    }
}

proof fn lemma_run_end(s: Seq<char>, k: Class, i: int, e: int)
    requires
        0 <= i <= e <= s.len(),
        forall|j: int| i <= j < e ==> k.holds(#[trigger] s[j]),
        e < s.len() ==> !k.holds(s[e]),
    ensures
        run_end(s, k, i) == e,
    decreases e - i,
{
    if i < e {
        lemma_run_end(s, k, i + 1, e);
    }
}

proof fn lemma_run(s: Seq<char>, k: Class, i: int)
    requires
        0 <= i <= s.len(),
    ensures
        i <= run_end(s, k, i) <= s.len(),
        forall|j: int| i <= j < run_end(s, k, i) ==> k.holds(#[trigger] s[j]),
        run_end(s, k, i) < s.len() ==> !k.holds(s[run_end(s, k, i)]),
    decreases s.len() - i,
{
    if i < s.len() && k.holds(s[i]) {
        lemma_run(s, k, i + 1);
    }
}

fn skip_run(s: &Vec<char>, k: Class, i: usize) -> (r: usize)
    requires
        i <= s@.len(),
    ensures
        i <= r <= s@.len(),
        r == run_end(s@, k, i as int),
{
    let mut e: usize = i;
    while e < s.len() && k.accepts(s[e])
        invariant
            i <= e <= s@.len(),
            forall|j: int| i <= j < e ==> k.holds(#[trigger] s@[j]),
        decreases s@.len() - e,
    {
        e = e + 1;
    }
    proof {
        lemma_run_end(s@, k, i as int, e as int);
    }
    e
}

/// The positions at which the parts of a line start.
struct Cuts {
    word: int,
    gap: int,
    name: int,
    equals: int,
    closing: int,
    hash: int,
    marker: int,
}

spec fn cuts(s: Seq<char>) -> Cuts {
    let word = run_end(s, Class::Space, 0);
    let gap = word + 5;
    let name = run_end(s, Class::Space, gap);
    let equals = run_end(s, Class::Name, name);
    let closing = run_end(s, Class::Except(s[equals + 1]), equals + 2);
    let hash = run_end(s, Class::Space, closing + 1);
    let marker = run_end(s, Class::Space, hash + 1);
    Cuts { word, gap, name, equals, closing, hash, marker }
}

/// Whether `s`, cut from left to right, reads as the line of an alias of this kind.
spec fn reads_as(s: Seq<char>, kind: AliasKind) -> bool {
    let c = cuts(s);
    &&& text::occurs_at(s, "alias"@, c.word)
    &&& c.gap < c.name
    &&& c.name < c.equals
    &&& starts_name(s[c.name])
    &&& c.equals + 1 < s.len()
    &&& s[c.equals] == '='
    &&& s[c.equals + 1] == '"' || s[c.equals + 1] == '\''
    &&& c.closing < s.len()
    &&& c.hash < s.len()
    &&& s[c.hash] == '#'
    &&& text::occurs_at(s, kind.marker(), c.marker)
    &&& run_end(s, Class::Space, c.marker + kind.marker().len()) == s.len()
}

spec fn read(s: Seq<char>, kind: AliasKind) -> Alias {
    let c = cuts(s);
    Alias {
        name: s.subrange(c.name, c.equals),
        action: s.subrange(c.equals + 2, c.closing),
        kind,
    }
}

/// A line that reads as one of an alias is one.
proof fn lemma_reading_is_sound(s: Seq<char>, kind: AliasKind)
    requires
        reads_as(s, kind),
    ensures
        is_line_of(s, read(s, kind)),
{
    reveal_strlit("alias");
    let c = cuts(s);
    let a = read(s, kind);
    let end = c.marker + kind.marker().len();
    lemma_run(s, Class::Space, 0);
    lemma_run(s, Class::Space, c.gap);
    lemma_run(s, Class::Name, c.name);
    lemma_run(s, Class::Except(s[c.equals + 1]), c.equals + 2);
    lemma_run(s, Class::Space, c.closing + 1);
    lemma_run(s, Class::Space, c.hash + 1);
    lemma_run(s, Class::Space, end);
    let l = Layout {
        indent: s.subrange(0, c.word),
        gap: s.subrange(c.gap, c.name),
        quote: s[c.equals + 1],
        space: s.subrange(c.closing + 1, c.hash),
        inner: s.subrange(c.hash + 1, c.marker),
        tail: s.subrange(end, s.len() as int),
    };
    assert(l.fits(a));
    assert(s =~= l.write(a));
}

/// A line of an alias reads as one of just that alias.
proof fn lemma_reading_is_complete(l: Layout, a: Alias)
    requires
        l.fits(a),
    ensures
        reads_as(l.write(a), a.kind),
        read(l.write(a), a.kind) == a,
{
    reveal_strlit("alias");
    reveal_strlit("command");
    reveal_strlit("folder");
    reveal_strlit("ssh");
    let s = l.write(a);
    let word = l.indent.len() as int;
    let gap = word + 5;
    let name = gap + l.gap.len();
    let equals = name + a.name.len();
    let closing = equals + 2 + a.action.len();
    let hash = closing + 1 + l.space.len();
    let marker = hash + 1 + l.inner.len();
    let end = marker + a.kind.marker().len();
    assert(s.len() == end + l.tail.len());
    assert(s.subrange(0, word) =~= l.indent);
    assert(s.subrange(word, gap) =~= "alias"@);
    assert(s.subrange(gap, name) =~= l.gap);
    assert(s.subrange(name, equals) =~= a.name);
    assert(s[equals] == '=' && s[equals + 1] == l.quote);
    assert(s.subrange(equals + 2, closing) =~= a.action);
    assert(s[closing] == l.quote);
    assert(s.subrange(closing + 1, hash) =~= l.space);
    assert(s[hash] == '#');
    assert(s.subrange(hash + 1, marker) =~= l.inner);
    assert(s.subrange(marker, end) =~= a.kind.marker());
    assert(s.subrange(end, s.len() as int) =~= l.tail);
    assert(forall|i: int| 0 <= i < word ==> s[i] == l.indent[i]);
    assert(s[word] == 'a');
    lemma_run_end(s, Class::Space, 0, word);
    assert(forall|i: int| gap <= i < name ==> s[i] == l.gap[i - gap]);
    assert(s[name] == a.name[0]);
    lemma_run_end(s, Class::Space, gap, name);
    assert(forall|i: int| name <= i < equals ==> s[i] == a.name[i - name]);
    lemma_run_end(s, Class::Name, name, equals);
    assert forall|i: int| equals + 2 <= i < closing implies s[i] != l.quote by {
        assert(s[i] == a.action[i - (equals + 2)]);
    }
    lemma_run_end(s, Class::Except(l.quote), equals + 2, closing);
    assert(forall|i: int| closing + 1 <= i < hash ==> s[i] == l.space[i - (closing + 1)]);
    lemma_run_end(s, Class::Space, closing + 1, hash);
    assert(forall|i: int| hash + 1 <= i < marker ==> s[i] == l.inner[i - (hash + 1)]);
    assert(s[marker] == a.kind.marker()[0]);
    lemma_run_end(s, Class::Space, hash + 1, marker);
    assert(forall|i: int| end <= i < s.len() ==> s[i] == l.tail[i - end]);
    lemma_run_end(s, Class::Space, end, s.len() as int);
}

proof fn lemma_one_marker(s: Seq<char>, i: int, a: AliasKind, b: AliasKind)
    requires
        text::occurs_at(s, a.marker(), i),
        text::occurs_at(s, b.marker(), i),
    ensures
        a == b,
{
    reveal_strlit("command");
    reveal_strlit("folder");
    reveal_strlit("ssh");
    assert(s.subrange(i, i + a.marker().len())[0] == s[i]);
    assert(s.subrange(i, i + b.marker().len())[0] == s[i]);
}

/// A line holds at most one alias: the grammar is unambiguous.
pub proof fn law_line_holds_one_alias(line: Seq<char>, a: Alias, b: Alias)
    requires
        is_line_of(line, a),
        is_line_of(line, b),
    ensures
        a == b,
{
    let l = choose|l: Layout| #[trigger] l.fits(a) && line == l.write(a);
    let m = choose|l: Layout| #[trigger] l.fits(b) && line == l.write(b);
    lemma_reading_is_complete(l, a);
    lemma_reading_is_complete(m, b);
    lemma_one_marker(line, cuts(line).marker, a.kind, b.kind);
}

/// `parsed` gives the alias that the line is a line of.
pub proof fn lemma_parsed(line: Seq<char>, a: Alias)
    requires
        is_line_of(line, a),
    ensures
        parsed(line) == Some(a),
{
    let b = choose|b: Alias| is_line_of(line, b);
    law_line_holds_one_alias(line, a, b);
}

proof fn lemma_parsed_iff_read(line: Seq<char>)
    ensures
        forall|kind: AliasKind|
            #[trigger] reads_as(line, kind) ==> parsed(line) == Some(read(line, kind)),
        (forall|kind: AliasKind| !#[trigger] reads_as(line, kind)) ==> parsed(line) is None,
{
    assert forall|kind: AliasKind| #[trigger] reads_as(line, kind) implies parsed(line) == Some(
        read(line, kind),
    ) by {
        lemma_reading_is_sound(line, kind);
        lemma_parsed(line, read(line, kind));
    }
    if exists|a: Alias| is_line_of(line, a) {
        let a = choose|a: Alias| is_line_of(line, a);
        let l = choose|l: Layout| #[trigger] l.fits(a) && line == l.write(a);
        lemma_reading_is_complete(l, a);
        assert(reads_as(line, a.kind));
    }
}

/// The alias that a line stores, or `None` where the line is not one that am
/// manages.
pub fn parse_alias_line(line: &str) -> (r: Option<AliasEntry>)
    ensures
        match r {
            Some(e) => parsed(line@) == Some(e@),
            None => parsed(line@) is None,
        },
{
    let s: Vec<char> = text::to_chars(line);
    proof {
        lemma_parsed_iff_read(line@);
        reveal_strlit("alias");
    }
    let ghost c = cuts(s@);
    let len: usize = s.len();
    let word: usize = skip_run(&s, Class::Space, 0);
    if !text::matches_at(&s, &text::to_chars("alias"), word) {
        return None;
    }
    let gap: usize = word + 5;
    let name: usize = skip_run(&s, Class::Space, gap);
    if name == gap {
        return None;
    }
    let equals: usize = skip_run(&s, Class::Name, name);
    if equals == name || !may_start_name(s[name]) {
        return None;
    }
    if len - equals < 2 || s[equals] != '=' {
        return None;
    }
    let quote: char = s[equals + 1];
    if quote != '"' && quote != '\'' {
        return None;
    }
    let closing: usize = skip_run(&s, Class::Except(quote), equals + 2);
    if closing >= len {
        return None;
    }
    let hash: usize = skip_run(&s, Class::Space, closing + 1);
    if hash >= len || s[hash] != '#' {
        return None;
    }
    let marker: usize = skip_run(&s, Class::Space, hash + 1);
    match kind_at(&s, marker) {
        Some(kind) => {
            let end: usize = marker + text::to_chars(kind.as_str()).len();
            if skip_run(&s, Class::Space, end) < len {
                assert forall|other: AliasKind| !#[trigger] reads_as(s@, other) by {
                    if reads_as(s@, other) {
                        lemma_one_marker(s@, c.marker, kind, other);
                    }
                }
                return None;
            }
            assert(reads_as(s@, kind));
            Some(
                AliasEntry {
                    name: text::substring(&s, name, equals),
                    action: text::substring(&s, equals + 2, closing),
                    kind,
                },
            )
        },
        None => None,
    }
}

/// The kind whose marker stands at position `i`.
fn kind_at(s: &Vec<char>, i: usize) -> (r: Option<AliasKind>)
    requires
        i <= s@.len(),
    ensures
        match r {
            Some(kind) => text::occurs_at(s@, kind.marker(), i as int),
            None => forall|kind: AliasKind| !text::occurs_at(s@, #[trigger] kind.marker(), i as int),
        },
{
    if text::matches_at(s, &text::to_chars(AliasKind::Command.as_str()), i) {
        Some(AliasKind::Command)
    } else if text::matches_at(s, &text::to_chars(AliasKind::Folder.as_str()), i) {
        Some(AliasKind::Folder)
    } else if text::matches_at(s, &text::to_chars(AliasKind::Ssh.as_str()), i) {
        Some(AliasKind::Ssh)
    } else {
        None
    }
}

// ---------------------------------------------------------------------------
// Writing a line
// ---------------------------------------------------------------------------

/// The action in quotes that it does not hold itself, double ones if they
/// will do.
pub open spec fn quoted(action: Seq<char>) -> Option<Seq<char>> {
    if !action.contains('"') {
        Some(seq!['"'] + action + seq!['"'])
    } else if !action.contains('\'') {
        Some(seq!['\''] + action + seq!['\''])
    } else {
        None
    }
}

/// The line that am writes for an alias.
pub open spec fn formatted(a: Alias) -> Option<Seq<char>> {
    match quoted(a.action) {
        Some(q) => Some("alias "@ + a.name + "="@ + q + " #"@ + a.kind.marker()),
        None => None,
    }
}

/// Quotes an action for a bash `alias` line: double quotes by default, single
/// quotes when the action itself contains double quotes. An action with both
/// cannot be quoted.
pub fn quote_action(action: &str) -> (r: Result<String, AmError>)
    ensures
        match r {
            Ok(q) => quoted(action@) == Some(q@),
            Err(e) => quoted(action@) is None && e == AmError::BothQuotes,
        },
{
    if !text::has_char(action, '"') {
        Ok(enclose('"', action))
    } else if !text::has_char(action, '\'') {
        Ok(enclose('\'', action))
    } else {
        Err(AmError::BothQuotes)
    }
}

fn enclose(quote: char, action: &str) -> (r: String)
    ensures
        r@ == seq![quote] + action@ + seq![quote],
{
    let mut out: String = String::new();
    out.push(quote);
    out.push_str(action);
    out.push(quote);
    assert(out@ == seq![quote] + action@ + seq![quote]);
    out
}

/// The line that stores an entry. Fails only where the action cannot be quoted.
pub fn format_alias_line(entry: &AliasEntry) -> (r: Result<String, AmError>)
    ensures
        match r {
            Ok(line) => formatted(entry@) == Some(line@),
            Err(e) => formatted(entry@) is None && e == AmError::BothQuotes,
        },
{
    match quote_action(entry.action.as_str()) {
        Ok(q) => {
            let mut out: String = String::new();
            out.push_str("alias ");
            out.push_str(entry.name.as_str());
            out.push_str("=");
            out.push_str(q.as_str());
            out.push_str(" #");
            out.push_str(entry.kind.as_str());
            assert(out@ == "alias "@ + entry.name@ + "="@ + q@ + " #"@ + entry.kind.marker());
            Ok(out)
        },
        Err(e) => Err(e),
    }
}

// ---------------------------------------------------------------------------
// Laws
// ---------------------------------------------------------------------------

/// What is written can be read back: the line that am writes for an alias with
/// a valid name parses to just that alias.
pub proof fn law_format_then_parse(a: Alias)
    requires
        valid_name(a.name),
        formatted(a) is Some,
    ensures
        parsed(formatted(a)->0) == Some(a),
{
    reveal_strlit("alias ");
    reveal_strlit("alias");
    reveal_strlit("=");
    reveal_strlit(" #");
    let quote = if !a.action.contains('"') {
        '"'
    } else {
        '\''
    };
    let none = Seq::<char>::empty();
    let l = Layout { indent: none, gap: seq![' '], quote, space: seq![' '], inner: none, tail: none };
    assert(l.fits(a));
    assert(formatted(a)->0 =~= l.write(a));
    lemma_parsed(formatted(a)->0, a);
}

/// What is read can be written again: an alias that a line holds has a valid
/// name and an action that can be quoted, and its own line holds it too.
pub proof fn law_parse_then_format(line: Seq<char>)
    requires
        parsed(line) is Some,
    ensures
        valid_name(parsed(line)->0.name),
        formatted(parsed(line)->0) is Some,
        parsed(formatted(parsed(line)->0)->0) == parsed(line),
{
    let a = parsed(line)->0;
    assert(is_line_of(line, a));
    let l = choose|l: Layout| #[trigger] l.fits(a) && line == l.write(a);
    assert(quoted(a.action) is Some);
    law_format_then_parse(a);
}

/// A carriage return at the end of a line makes no difference to what the
/// line holds.
pub proof fn lemma_parsed_without_cr(l: Seq<char>)
    ensures
        parsed(text::strip_cr(l)) == parsed(l),
{
    if l.len() > 0 && l.last() == '\r' {
        let short = l.drop_last();
        assert(short.push('\r') == l);
        if parsed(l) is Some {
            let a = parsed(l)->0;
            assert(is_line_of(l, a));
            let w = choose|w: Layout| #[trigger] w.fits(a) && l == w.write(a);
            reveal_strlit("command");
            reveal_strlit("folder");
            reveal_strlit("ssh");
            if w.tail.len() == 0 {
                assert(l.last() == a.kind.marker().last());
            }
            let v = Layout { tail: w.tail.drop_last(), ..w };
            assert(v.fits(a));
            assert(short =~= v.write(a));
            lemma_parsed(short, a);
        } else if parsed(short) is Some {
            let a = parsed(short)->0;
            assert(is_line_of(short, a));
            let w = choose|w: Layout| #[trigger] w.fits(a) && short == w.write(a);
            let v = Layout { tail: w.tail.push('\r'), ..w };
            assert(v.fits(a));
            assert(l =~= v.write(a));
            lemma_parsed(l, a);
        }
    }
}

/// Every line of the form `alias NAME=QUOTED #KIND` is read as just that alias:
/// with either quote, whatever the action is that does not hold that quote, and
/// with any white space where it may stand.
pub proof fn law_alias_line_is_read(
    indent: Seq<char>,
    gap: Seq<char>,
    name: Seq<char>,
    quote: char,
    action: Seq<char>,
    space: Seq<char>,
    inner: Seq<char>,
    kind: AliasKind,
    word: Seq<char>,
    tail: Seq<char>,
)
    requires
        forall|i: int| 0 <= i < indent.len() ==> chars::is_space(#[trigger] indent[i]),
        forall|i: int| 0 <= i < gap.len() ==> chars::is_space(#[trigger] gap[i]),
        gap.len() > 0,
        name.len() > 0,
        name[0] != '.' && name[0] != '-',
        forall|i: int|
            0 <= i < name.len() ==> ('a' <= #[trigger] name[i] <= 'z' || 'A' <= name[i] <= 'Z'
                || '0' <= name[i] <= '9' || name[i] == '_' || name[i] == '.' || name[i] == '-'),
        quote == '"' || quote == '\'',
        !action.contains(quote),
        forall|i: int| 0 <= i < space.len() ==> chars::is_space(#[trigger] space[i]),
        forall|i: int| 0 <= i < inner.len() ==> chars::is_space(#[trigger] inner[i]),
        forall|i: int| 0 <= i < tail.len() ==> chars::is_space(#[trigger] tail[i]),
        match kind {
            AliasKind::Command => word == "command"@,
            AliasKind::Folder => word == "folder"@,
            AliasKind::Ssh => word == "ssh"@,
        },
    ensures
        parsed(
            indent + "alias"@ + gap + name + seq!['=', quote] + action + seq![quote] + space
                + seq!['#'] + inner + word + tail,
        ) == Some(Alias { name, action, kind }),
{
    let a = Alias { name, action, kind };
    let l = Layout { indent, gap, quote, space, inner, tail };
    assert(l.fits(a));
    lemma_parsed(l.write(a), a);
}

/// Only such lines are read as an alias.
pub proof fn law_read_line_has_that_form(line: Seq<char>) -> (l: Layout)
    requires
        parsed(line) is Some,
    ensures
        ({
            let a = parsed(line)->0;
            let word = match a.kind {
                AliasKind::Command => "command"@,
                AliasKind::Folder => "folder"@,
                AliasKind::Ssh => "ssh"@,
            };
            line == l.indent + "alias"@ + l.gap + a.name + seq!['=', l.quote] + a.action + seq![
                l.quote,
            ] + l.space + seq!['#'] + l.inner + word + l.tail
        }),
        l.quote == '"' || l.quote == '\'',
        !(parsed(line)->0).action.contains(l.quote),
        l.gap.len() > 0,
        forall|i: int| 0 <= i < l.indent.len() ==> chars::is_space(#[trigger] l.indent[i]),
        forall|i: int| 0 <= i < l.gap.len() ==> chars::is_space(#[trigger] l.gap[i]),
        forall|i: int| 0 <= i < l.space.len() ==> chars::is_space(#[trigger] l.space[i]),
        forall|i: int| 0 <= i < l.inner.len() ==> chars::is_space(#[trigger] l.inner[i]),
        forall|i: int| 0 <= i < l.tail.len() ==> chars::is_space(#[trigger] l.tail[i]),
        ({
            let name = (parsed(line)->0).name;
            &&& name.len() > 0
            &&& name[0] != '.' && name[0] != '-'
            &&& forall|i: int|
                0 <= i < name.len() ==> ('a' <= #[trigger] name[i] <= 'z' || 'A' <= name[i] <= 'Z'
                    || '0' <= name[i] <= '9' || name[i] == '_' || name[i] == '.' || name[i] == '-')
        }),
{
    let a = parsed(line)->0;
    assert(is_line_of(line, a));
    let l = choose|l: Layout| #[trigger] l.fits(a) && line == l.write(a);
    assert forall|i: int| 0 <= i < a.name.len() implies ('a' <= #[trigger] a.name[i] <= 'z' || 'A'
        <= a.name[i] <= 'Z' || '0' <= a.name[i] <= '9' || a.name[i] == '_' || a.name[i] == '.'
        || a.name[i] == '-') by {
        assert(in_name(a.name[i]));
    }
    l
}

/// A name is accepted just where it is made of ASCII letters, digits, `_`, `.`
/// and `-` and starts with none of the last two.
pub proof fn law_valid_names(name: Seq<char>)
    ensures
        valid_name(name) <==> {
            &&& name.len() > 0
            &&& name[0] != '.' && name[0] != '-'
            &&& forall|i: int|
                0 <= i < name.len() ==> ('a' <= #[trigger] name[i] <= 'z' || 'A' <= name[i] <= 'Z'
                    || '0' <= name[i] <= '9' || name[i] == '_' || name[i] == '.' || name[i] == '-')
        },
{
    if valid_name(name) {
        assert forall|i: int| 0 <= i < name.len() implies ('a' <= #[trigger] name[i] <= 'z' || 'A'
            <= name[i] <= 'Z' || '0' <= name[i] <= '9' || name[i] == '_' || name[i] == '.'
            || name[i] == '-') by {
            assert(in_name(name[i]));
        }
    }
}

/// Quoting puts one and the same quote before and after the action, one that
/// the action does not hold: the double one if it will do. An action is refused
/// just where it holds both.
pub proof fn law_quotes_enclose_the_action(action: Seq<char>)
    ensures
        quoted(action) is None <==> action.contains('"') && action.contains('\''),
        quoted(action) matches Some(q) ==> {
            &&& q.len() == action.len() + 2
            &&& q[0] == q.last()
            &&& q.subrange(1, q.len() - 1) == action
            &&& !action.contains(q[0])
            &&& q[0] == (if action.contains('"') {
                '\''
            } else {
                '"'
            })
        },
{
    if let Some(q) = quoted(action) {
        assert(q.subrange(1, q.len() - 1) =~= action);
    }
}

/// The line of an alias is `alias NAME=QUOTED #KIND`, with one space each.
pub proof fn law_line_is_written_so(a: Alias)
    ensures
        formatted(a) is Some <==> quoted(a.action) is Some,
        formatted(a) matches Some(l) ==> {
            let q = quoted(a.action)->0;
            &&& a.kind is Command ==> l == "alias "@ + a.name + "="@ + q + " #command"@
            &&& a.kind is Folder ==> l == "alias "@ + a.name + "="@ + q + " #folder"@
            &&& a.kind is Ssh ==> l == "alias "@ + a.name + "="@ + q + " #ssh"@
        },
{
    reveal_strlit(" #");
    reveal_strlit("command");
    reveal_strlit("folder");
    reveal_strlit("ssh");
    reveal_strlit(" #command");
    reveal_strlit(" #folder");
    reveal_strlit(" #ssh");
    assert(" #"@ + "command"@ =~= " #command"@);
    assert(" #"@ + "folder"@ =~= " #folder"@);
    assert(" #"@ + "ssh"@ =~= " #ssh"@);
    if let Some(l) = formatted(a) {
        let head = "alias "@ + a.name + "="@ + quoted(a.action)->0;
        assert(l =~= head + (" #"@ + a.kind.marker()));
    }
}

} // verus!
