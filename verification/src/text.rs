//! Text as sequences of characters: trimming, lines, search and order.
use vstd::prelude::*;

use crate::chars;

verus! {

/// `String::push` adds one character at the end.
pub assume_specification[ String::push ](s: &mut String, c: char)
    ensures
        final(s)@ == old(s)@.push(c),
;

/// `String::push_str` adds the text of a string slice at the end.
pub assume_specification[ String::push_str ](s: &mut String, other: &str)
    ensures
        final(s)@ == old(s)@ + other@,
;

/// The texts of a list of strings.
pub open spec fn texts(v: Seq<String>) -> Seq<Seq<char>> {
    v.map_values(|s: String| s@)
}

/// The characters of `s`.
pub fn to_chars(s: &str) -> (r: Vec<char>)
    ensures
        r@ == s@,
{
    let mut out: Vec<char> = Vec::new();
    for c in it: s.chars()
        invariant
            out@ == s@.take(it.index()),
            it.seq() == s@,
    {
        assert(s@.take(it.index() + 1) == s@.take(it.index()).push(s@[it.index()]));
        out.push(c);
    }
    assert(s@.take(s@.len() as int) == s@);
    out
}

/// The text of `chars` from position `from` up to position `to`.
pub fn substring(chars: &Vec<char>, from: usize, to: usize) -> (r: String)
    requires
        from <= to <= chars@.len(),
    ensures
        r@ == chars@.subrange(from as int, to as int),
{
    let mut out: String = String::new();
    let mut i: usize = from;
    while i < to
        invariant
            from <= i <= to <= chars@.len(),
            out@ == chars@.subrange(from as int, i as int),
        decreases to - i,
    {
        out.push(chars[i]);
        i = i + 1;
        assert(chars@.subrange(from as int, i as int) == chars@.subrange(
            from as int,
            i as int - 1,
        ).push(chars@[i as int - 1]));
    }
    out
}

/// Whether two texts are the same.
pub fn same_text(a: &str, b: &str) -> (r: bool)
    ensures
        r == (a@ == b@),
{
    let x: Vec<char> = to_chars(a);
    let y: Vec<char> = to_chars(b);
    if x.len() != y.len() {
        return false;
    }
    let mut i: usize = 0;
    while i < x.len()
        invariant
            i <= x@.len() == y@.len(),
            x@ == a@,
            y@ == b@,
            forall|k: int| 0 <= k < i ==> x@[k] == y@[k],
        decreases x@.len() - i,
    {
        if x[i] != y[i] {
            return false;
        }
        i = i + 1;
    }
    assert(x@ =~= y@);
    true
}

// ---------------------------------------------------------------------------
// Finding characters
// ---------------------------------------------------------------------------

/// The first position from `i` on that holds `c`, or the end of `s`.
pub open spec fn find_from(s: Seq<char>, c: char, i: int) -> int
    decreases s.len() - i,
{
    if i >= s.len() || s[i] == c {
        i
    } else {
        find_from(s, c, i + 1)
    }
}

/// `find_from` gives the one position that ends a run without `c`.
pub proof fn lemma_find_from(s: Seq<char>, c: char, i: int, e: int)
    requires
        0 <= i <= e <= s.len(),
        forall|k: int| i <= k < e ==> s[k] != c,
        e < s.len() ==> s[e] == c,
    ensures
        find_from(s, c, i) == e,
    decreases e - i,
{
    if i < e {
        lemma_find_from(s, c, i + 1, e);
    }
}

/// What `find_from` gives is in range, holds `c` unless it is the end, and
/// has no `c` before it.
pub proof fn lemma_found(s: Seq<char>, c: char, i: int)
    requires
        0 <= i <= s.len(),
    ensures
        i <= find_from(s, c, i) <= s.len(),
        find_from(s, c, i) < s.len() ==> s[find_from(s, c, i)] == c,
        forall|k: int| i <= k < find_from(s, c, i) ==> s[k] != c,
    decreases s.len() - i,
{
    if i < s.len() && s[i] != c {
        lemma_found(s, c, i + 1);
    }
}

/// The first position from `i` on that holds `c`, or the end.
pub fn find_char(s: &Vec<char>, c: char, i: usize) -> (r: usize)
    requires
        i <= s@.len(),
    ensures
        i <= r <= s@.len(),
        r == find_from(s@, c, i as int),
{
    let mut e: usize = i;
    while e < s.len() && s[e] != c
        invariant
            i <= e <= s@.len(),
            forall|k: int| i <= k < e ==> s@[k] != c,
        decreases s@.len() - e,
    {
        e = e + 1;
    }
    proof {
        lemma_find_from(s@, c, i as int, e as int);
    }
    e
}

/// Whether `c` occurs in `s`.
pub fn has_char(s: &str, c: char) -> (r: bool)
    ensures
        r == s@.contains(c),
{
    let v: Vec<char> = to_chars(s);
    let e: usize = find_char(&v, c, 0);
    proof {
        lemma_found(v@, c, 0);
        if e < v@.len() {
            assert(v@[e as int] == c);
        }
    }
    e < v.len()
}

// ---------------------------------------------------------------------------
// Searching
// ---------------------------------------------------------------------------

/// Whether `needle` stands in `hay` at position `i`.
pub open spec fn occurs_at(hay: Seq<char>, needle: Seq<char>, i: int) -> bool {
    0 <= i && i + needle.len() <= hay.len() && hay.subrange(i, i + needle.len()) == needle
}

/// Whether `needle` stands anywhere in `hay`.
pub open spec fn occurs_in(hay: Seq<char>, needle: Seq<char>) -> bool {
    exists|i: int| occurs_at(hay, needle, i)
}

/// Whether `needle` stands in `hay` at position `i`.
pub(crate) fn matches_at(hay: &Vec<char>, needle: &Vec<char>, i: usize) -> (r: bool)
    requires
        i <= hay@.len(),
    ensures
        r == occurs_at(hay@, needle@, i as int),
{
    if needle.len() > hay.len() - i {
        return false;
    }
    let mut k: usize = 0;
    while k < needle.len()
        invariant
            k <= needle@.len(),
            i + needle@.len() <= hay.len(),
            forall|j: int| 0 <= j < k ==> hay@[i + j] == needle@[j],
        decreases needle@.len() - k,
    {
        if hay[i + k] != needle[k] {
            assert(hay@.subrange(i as int, i + needle@.len())[k as int] != needle@[k as int]);
            return false;
        }
        k = k + 1;
    }
    assert(hay@.subrange(i as int, i + needle@.len()) =~= needle@);
    true
}

/// Whether `hay` contains `needle`.
pub fn contains_text(hay: &str, needle: &str) -> (r: bool)
    ensures
        r == occurs_in(hay@, needle@),
{
    let h: Vec<char> = to_chars(hay);
    let n: Vec<char> = to_chars(needle);
    if n.len() > h.len() {
        return false;
    }
    let last: usize = h.len() - n.len();
    let mut i: usize = 0;
    loop
        invariant
            h@ == hay@,
            n@ == needle@,
            last + n@.len() == h@.len(),
            i <= last,
            forall|k: int| 0 <= k < i ==> !occurs_at(h@, n@, k),
        decreases last - i,
    {
        if matches_at(&h, &n, i) {
            return true;
        }
        if i == last {
            assert(forall|k: int| !occurs_at(h@, n@, k));
            return false;
        }
        i = i + 1;
    }
}

// ---------------------------------------------------------------------------
// Trimming
// ---------------------------------------------------------------------------

/// `s` without its leading white space.
pub open spec fn trim_start(s: Seq<char>) -> Seq<char>
    decreases s.len(),
{
    if s.len() > 0 && chars::is_space(s[0]) {
        trim_start(s.drop_first())
    } else {
        s
    }
}

/// `s` without its trailing white space.
pub open spec fn trim_end(s: Seq<char>) -> Seq<char>
    decreases s.len(),
{
    if s.len() > 0 && chars::is_space(s.last()) {
        trim_end(s.drop_last())
    } else {
        s
    }
}

/// `s` without its leading and trailing white space.
pub open spec fn trimmed(s: Seq<char>) -> Seq<char> {
    trim_end(trim_start(s))
}

/// The text without its leading and trailing white space.
pub fn trim(s: &str) -> (r: String)
    ensures
        r@ == trimmed(s@),
{
    let v: Vec<char> = to_chars(s);
    let mut i: usize = 0;
    assert(v@.skip(0) == v@);
    while i < v.len() && chars::is_whitespace(v[i])
        invariant
            i <= v@.len(),
            trim_start(v@) == trim_start(v@.skip(i as int)),
        decreases v@.len() - i,
    {
        assert(v@.skip(i as int).drop_first() == v@.skip(i + 1));
        i = i + 1;
    }
    let mut j: usize = v.len();
    assert(v@.skip(i as int) == v@.subrange(i as int, j as int));
    while j > i && chars::is_whitespace(v[j - 1])
        invariant
            i <= j <= v@.len(),
            trim_end(v@.skip(i as int)) == trim_end(v@.subrange(i as int, j as int)),
        decreases j,
    {
        assert(v@.subrange(i as int, j as int).drop_last() == v@.subrange(i as int, j - 1));
        j = j - 1;
    }
    substring(&v, i, j)
}

proof fn lemma_trim_start(s: Seq<char>)
    ensures
        trim_start(s).len() > 0 ==> !chars::is_space(trim_start(s)[0]),
    decreases s.len(),
{
    if s.len() > 0 && chars::is_space(s[0]) {
        lemma_trim_start(s.drop_first());
    }
}

proof fn lemma_trim_end(s: Seq<char>)
    ensures
        trim_end(s).len() > 0 ==> !chars::is_space(trim_end(s).last()) && trim_end(s)[0] == s[0],
    decreases s.len(),
{
    if s.len() > 0 && chars::is_space(s.last()) {
        lemma_trim_end(s.drop_last());
    }
}

/// Trimming again changes nothing.
pub proof fn law_trim_settles(s: Seq<char>)
    ensures
        trimmed(trimmed(s)) == trimmed(s),
{
    lemma_trim_start(s);
    lemma_trim_end(trim_start(s));
}

// ---------------------------------------------------------------------------
// Lines
// ---------------------------------------------------------------------------

/// A line without the carriage return that may end it.
pub open spec fn strip_cr(s: Seq<char>) -> Seq<char> {
    if s.len() > 0 && s.last() == '\r' {
        s.drop_last()
    } else {
        s
    }
}

/// The lines of a text. A line ends at `\n` or `\r\n`; the last one may lack
/// its ending.
pub open spec fn lines(s: Seq<char>) -> Seq<Seq<char>>
    decreases s.len(),
{
    proof {
        lemma_found(s, '\n', 0);
    }
    let e = find_from(s, '\n', 0);
    if s.len() == 0 {
        seq![]
    } else if e >= s.len() {
        seq![s]
    } else {
        seq![strip_cr(s.take(e))] + lines(s.skip(e + 1))
    }
}

/// The lines of `s`.
pub fn split_lines(s: &str) -> (r: Vec<String>)
    ensures
        texts(r@) == lines(s@),
{
    let v: Vec<char> = to_chars(s);
    let mut out: Vec<String> = Vec::new();
    let mut pos: usize = 0;
    proof {
        assert(v@.skip(0) == v@);
        assert(texts(out@) == Seq::<Seq<char>>::empty());
    }
    while pos < v.len()
        invariant
            pos <= v@.len(),
            texts(out@) + lines(v@.skip(pos as int)) == lines(v@),
        decreases v@.len() - pos,
    {
        let e: usize = find_char(&v, '\n', pos);
        let ghost rest = v@.skip(pos as int);
        proof {
            lemma_found(v@, '\n', pos as int);
            lemma_find_from(rest, '\n', 0, e - pos);
        }
        let ghost before = texts(out@);
        if e >= v.len() {
            let last: String = substring(&v, pos, e);
            assert(last@ == rest);
            out.push(last);
            assert(texts(out@) == before.push(rest));
            assert(lines(rest) == seq![rest]);
            pos = e;
            assert(v@.skip(pos as int) == Seq::<char>::empty());
            assert(lines(v@.skip(pos as int)) == Seq::<Seq<char>>::empty());
            assert(before + seq![rest] == before.push(rest));
            assert(texts(out@) + lines(v@.skip(pos as int)) == texts(out@));
        } else {
            let mut end: usize = e;
            if e > pos && v[e - 1] == '\r' {
                end = e - 1;
            }
            let line: String = substring(&v, pos, end);
            assert(rest.take(e - pos) == v@.subrange(pos as int, e as int));
            assert(line@ == strip_cr(rest.take(e - pos)));
            out.push(line);
            assert(texts(out@) == before.push(line@));
            pos = e + 1;
            assert(rest.skip(e + 1 - (v@.len() - rest.len())) == v@.skip(pos as int));
            assert(before + (seq![line@] + lines(v@.skip(pos as int))) == before.push(line@)
                + lines(v@.skip(pos as int)));
        }
    }
    assert(v@.skip(pos as int) == Seq::<char>::empty());
    assert(lines(v@.skip(pos as int)) == Seq::<Seq<char>>::empty());
    assert(texts(out@) + Seq::<Seq<char>>::empty() == texts(out@));
    out
}

/// The text that holds the given lines, each ended by `\n`.
pub open spec fn unlines(parts: Seq<Seq<char>>) -> Seq<char>
    decreases parts.len(),
{
    if parts.len() == 0 {
        seq![]
    } else {
        unlines(parts.drop_last()) + parts.last().push('\n')
    }
}

// ---------------------------------------------------------------------------
// Order and case
// ---------------------------------------------------------------------------

/// Lexicographic order by code point: whether `a` comes strictly before `b`.
pub open spec fn before(a: Seq<char>, b: Seq<char>) -> bool
    decreases a.len(),
{
    if b.len() == 0 {
        false
    } else if a.len() == 0 {
        true
    } else {
        a[0] < b[0] || (a[0] == b[0] && before(a.drop_first(), b.drop_first()))
    }
}

/// Of two texts, either they are the same or exactly one comes before the other.
pub proof fn lemma_before_total(a: Seq<char>, b: Seq<char>)
    ensures
        a == b ==> !before(a, b),
        a != b ==> before(a, b) != before(b, a),
    decreases a.len(),
{
    if a.len() > 0 && b.len() > 0 {
        lemma_before_total(a.drop_first(), b.drop_first());
        if a.drop_first() == b.drop_first() && a[0] == b[0] {
            assert(a =~= seq![a[0]] + a.drop_first());
            assert(b =~= seq![b[0]] + b.drop_first());
        }
    } else if a.len() == 0 && b.len() == 0 {
        assert(a =~= b);
    }
}

/// The order of texts is transitive.
pub proof fn lemma_before_transitive(a: Seq<char>, b: Seq<char>, c: Seq<char>)
    requires
        before(a, b),
        before(b, c),
    ensures
        before(a, c),
    decreases a.len(),
{
    if a.len() > 0 && a[0] == b[0] && b[0] == c[0] {
        lemma_before_transitive(a.drop_first(), b.drop_first(), c.drop_first());
    }
}

/// Whether `a` comes strictly before `b`.
pub fn is_before(a: &str, b: &str) -> (r: bool)
    ensures
        r == before(a@, b@),
{
    let x: Vec<char> = to_chars(a);
    let y: Vec<char> = to_chars(b);
    let mut i: usize = 0;
    assert(x@.skip(0) == x@ && y@.skip(0) == y@);
    while i < x.len() && i < y.len()
        invariant
            x@ == a@,
            y@ == b@,
            i <= x@.len(),
            i <= y@.len(),
            before(a@, b@) == before(x@.skip(i as int), y@.skip(i as int)),
        decreases x@.len() - i,
    {
        if x[i] != y[i] {
            return x[i] < y[i];
        }
        assert(x@.skip(i as int).drop_first() == x@.skip(i + 1));
        assert(y@.skip(i as int).drop_first() == y@.skip(i + 1));
        i = i + 1;
    }
    i < y.len()
}

/// The lower case of an ASCII character.
pub open spec fn ascii_lower(c: char) -> char {
    if 'A' <= c <= 'Z' {
        (c as u32 + 32) as char
    } else {
        c
    }
}

/// The lower case of a text by the tables of Unicode.
pub uninterp spec fn lowercase(s: Seq<char>) -> Seq<char>;

/// `str::to_lowercase`: the lower-case equivalent of a text by the Unicode
/// property `Lowercase`. Of a text in ASCII that is the text with each of the
/// letters `A` to `Z` replaced by its small letter; of other texts the
/// contract only says that the result depends on nothing but the text.
#[verifier::external_body]
pub(crate) fn to_lowercase(s: &str) -> (r: String)
    ensures
        r@ == lowercase(s@),
        vstd::utf8::is_ascii_chars(s@) ==> r@ == s@.map_values(|c: char| ascii_lower(c)),
{
    s.to_lowercase()
}

// ---------------------------------------------------------------------------
// Laws
// ---------------------------------------------------------------------------

proof fn lemma_trim_start_skips(a: Seq<char>, s: Seq<char>)
    requires
        forall|i: int| 0 <= i < a.len() ==> chars::is_space(#[trigger] a[i]),
    ensures
        trim_start(a + s) == trim_start(s),
    decreases a.len(),
{
    if a.len() == 0 {
        assert(a + s =~= s);
    } else {
        assert((a + s)[0] == a[0]);
        assert((a + s).drop_first() =~= a.drop_first() + s);
        assert forall|i: int| 0 <= i < a.drop_first().len() implies chars::is_space(
            #[trigger] a.drop_first()[i],
        ) by {
            assert(a.drop_first()[i] == a[i + 1]);
        }
        lemma_trim_start_skips(a.drop_first(), s);
    }
}

proof fn lemma_trim_end_skips(s: Seq<char>, b: Seq<char>)
    requires
        forall|i: int| 0 <= i < b.len() ==> chars::is_space(#[trigger] b[i]),
    ensures
        trim_end(s + b) == trim_end(s),
    decreases b.len(),
{
    if b.len() == 0 {
        assert(s + b =~= s);
    } else {
        assert((s + b).last() == b.last());
        assert((s + b).drop_last() =~= s + b.drop_last());
        assert forall|i: int| 0 <= i < b.drop_last().len() implies chars::is_space(
            #[trigger] b.drop_last()[i],
        ) by {
            assert(b.drop_last()[i] == b[i]);
        }
        lemma_trim_end_skips(s, b.drop_last());
    }
}

/// Trimming cuts off all the white space around a text, and nothing else: of a
/// text that neither starts nor ends with some, whatever stands around it.
pub proof fn law_trim_cuts_white_space(a: Seq<char>, t: Seq<char>, b: Seq<char>)
    requires
        forall|i: int| 0 <= i < a.len() ==> chars::is_space(#[trigger] a[i]),
        forall|i: int| 0 <= i < b.len() ==> chars::is_space(#[trigger] b[i]),
        t.len() > 0 ==> !chars::is_space(t[0]) && !chars::is_space(t.last()),
    ensures
        trimmed(a + t + b) == t,
{
    assert(a + t + b =~= a + (t + b));
    lemma_trim_start_skips(a, t + b);
    lemma_trim_end_skips(t, b);
    if t.len() == 0 {
        assert(t + b =~= b + t);
        lemma_trim_start_skips(b, t);
    }
}

/// What trimming leaves is a part of the text, with white space around it.
pub proof fn law_trimmed_is_a_part(s: Seq<char>) -> (r: (Seq<char>, Seq<char>))
    ensures
        s == r.0 + trimmed(s) + r.1,
        forall|i: int| 0 <= i < r.0.len() ==> chars::is_space(#[trigger] r.0[i]),
        forall|i: int| 0 <= i < r.1.len() ==> chars::is_space(#[trigger] r.1[i]),
        trimmed(s).len() > 0 ==> !chars::is_space(trimmed(s)[0]) && !chars::is_space(
            trimmed(s).last(),
        ),
{
    let a = lemma_start_cut(s);
    let b = lemma_end_cut(trim_start(s));
    lemma_trim_start(s);
    lemma_trim_end(trim_start(s));
    assert(s =~= a + trimmed(s) + b);
    (a, b)
}

proof fn lemma_start_cut(s: Seq<char>) -> (a: Seq<char>)
    ensures
        s == a + trim_start(s),
        forall|i: int| 0 <= i < a.len() ==> chars::is_space(#[trigger] a[i]),
    decreases s.len(),
{
    if s.len() > 0 && chars::is_space(s[0]) {
        let a = lemma_start_cut(s.drop_first());
        let r = seq![s[0]] + a;
        assert(s =~= seq![s[0]] + s.drop_first());
        assert(s =~= r + trim_start(s));
        r
    } else {
        assert(s =~= Seq::<char>::empty() + s);
        Seq::empty()
    }
}

proof fn lemma_end_cut(s: Seq<char>) -> (b: Seq<char>)
    ensures
        s == trim_end(s) + b,
        forall|i: int| 0 <= i < b.len() ==> chars::is_space(#[trigger] b[i]),
    decreases s.len(),
{
    if s.len() > 0 && chars::is_space(s.last()) {
        let b = lemma_end_cut(s.drop_last());
        let r = b + seq![s.last()];
        assert(s =~= s.drop_last() + seq![s.last()]);
        assert(s =~= trim_end(s) + r);
        r
    } else {
        assert(s =~= s + Seq::<char>::empty());
        Seq::empty()
    }
}

/// A text is found wherever it stands, with anything before and after it.
pub proof fn law_part_is_found(x: Seq<char>, needle: Seq<char>, y: Seq<char>)
    ensures
        occurs_in(x + needle + y, needle),
{
    let hay = x + needle + y;
    assert(hay.subrange(x.len() as int, x.len() as int + needle.len()) =~= needle);
    assert(occurs_at(hay, needle, x.len() as int));
}

/// A text that is found stands there, with something before and after it.
pub proof fn law_found_is_a_part(hay: Seq<char>, needle: Seq<char>) -> (r: (Seq<char>, Seq<char>))
    requires
        occurs_in(hay, needle),
    ensures
        hay == r.0 + needle + r.1,
{
    let i = choose|i: int| occurs_at(hay, needle, i);
    let r = (hay.take(i), hay.skip(i + needle.len()));
    assert(hay =~= r.0 + needle + r.1);
    r
}

/// A text with a line break in it: what stands before the first one is the
/// first line, but for a carriage return that ends it; the other lines are
/// those of what follows.
pub proof fn law_lines_end_at_line_breaks(l: Seq<char>, rest: Seq<char>)
    requires
        !l.contains('\n'),
    ensures
        lines(l + seq!['\n'] + rest).len() == 1 + lines(rest).len(),
        lines(l + seq!['\n'] + rest).skip(1) == lines(rest),
        l.len() == 0 || l.last() != '\r' ==> lines(l + seq!['\n'] + rest)[0] == l,
        l.len() > 0 && l.last() == '\r' ==> lines(l + seq!['\n'] + rest)[0] == l.drop_last(),
{
    let s = l + seq!['\n'] + rest;
    let n = l.len() as int;
    assert forall|k: int| 0 <= k < n implies s[k] != '\n' by {
        assert(l.contains(l[k]));
        assert(s[k] == l[k]);
    }
    assert(s[n] == '\n');
    lemma_find_from(s, '\n', 0, n);
    assert(s.take(n) =~= l);
    assert(s.skip(n + 1) =~= rest);
    assert(lines(s).skip(1) =~= lines(rest));
}

/// A text without a line break is one line, and an empty one is none.
pub proof fn law_last_line_needs_no_ending(l: Seq<char>)
    requires
        !l.contains('\n'),
    ensures
        l.len() > 0 ==> lines(l) == seq![l],
        l.len() == 0 ==> lines(l).len() == 0,
{
    assert forall|k: int| 0 <= k < l.len() implies l[k] != '\n' by {
        assert(l.contains(l[k]));
    }
    lemma_find_from(l, '\n', 0, l.len() as int);
}

/// Writing lines and reading them is one thing after the other: each line is
/// followed by one `\n`.
pub proof fn law_lines_are_written_in_order(parts: Seq<Seq<char>>, l: Seq<char>)
    ensures
        unlines(parts.push(l)) == unlines(parts) + l + seq!['\n'],
        unlines(Seq::<Seq<char>>::empty()) == Seq::<char>::empty(),
{
    assert(parts.push(l).drop_last() =~= parts);
    assert(l.push('\n') =~= l + seq!['\n']);
    assert(unlines(parts.push(l)) =~= unlines(parts) + l + seq!['\n']);
}

/// Two texts are ordered by the first character in which they differ; a text
/// comes after its own beginnings.
pub proof fn law_first_difference_decides(
    p: Seq<char>,
    a: char,
    b: char,
    x: Seq<char>,
    y: Seq<char>,
)
    ensures
        a != b ==> before(p + seq![a] + x, p + seq![b] + y) == (a < b),
        before(p, p + seq![a] + x),
        !before(p + seq![a] + x, p),
        !before(p, p),
    decreases p.len(),
{
    let u = p + seq![a] + x;
    let v = p + seq![b] + y;
    lemma_before_total(p, p);
    if p.len() == 0 {
        assert(u[0] == a);
        assert(v[0] == b);
    } else {
        let q = p.drop_first();
        assert(u.drop_first() =~= q + seq![a] + x);
        assert(v.drop_first() =~= q + seq![b] + y);
        assert(u[0] == p[0] && v[0] == p[0]);
        law_first_difference_decides(q, a, b, x, y);
    }
}

/// A list of strings carries their texts one for one.
pub proof fn law_texts_carry_the_strings(v: Seq<String>, i: int)
    requires
        0 <= i < v.len(),
    ensures
        texts(v).len() == v.len(),
        texts(v)[i] == v[i]@,
{
}

} // verus!
