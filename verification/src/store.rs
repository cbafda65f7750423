//! The file of aliases: plain bash in which am owns the lines that hold an
//! alias and leaves every other line alone.
use vstd::prelude::*;

use crate::entry;
use crate::entry::{Alias, AliasEntry};
use crate::error::AmError;
use crate::line;
use crate::text;

verus! {

/// A new content for the file of aliases, and what is said once it is there.
pub struct Update {
    pub content: String,
    pub notices: Vec<String>,
}

/// The aliases that a list of lines holds.
pub open spec fn managed(ls: Seq<Seq<char>>) -> Seq<Alias>
    decreases ls.len(),
{
    if ls.len() == 0 {
        seq![]
    } else {
        match line::parsed(ls.last()) {
            Some(a) => managed(ls.drop_last()).push(a),
            None => managed(ls.drop_last()),
        }
    }
}

/// The aliases that a file holds, in its order.
pub open spec fn entries_in(content: Seq<char>) -> Seq<Alias> {
    managed(text::lines(content))
}

/// The entries of a file, in its order. Lines that are not managed are passed
/// over.
pub fn load_entries(content: &str) -> (r: Vec<AliasEntry>)
    ensures
        entry::aliases(r@) == entries_in(content@),
{
    let ls: Vec<String> = text::split_lines(content);
    let mut out: Vec<AliasEntry> = Vec::new();
    let ghost all = text::lines(content@);
    let mut i: usize = 0;
    assert(entry::aliases(out@) == managed(all.take(0)));
    while i < ls.len()
        invariant
            i <= ls@.len(),
            text::texts(ls@) == all,
            entry::aliases(out@) == managed(all.take(i as int)),
        decreases ls@.len() - i,
    {
        assert(all.take(i + 1).drop_last() == all.take(i as int));
        assert(all[i as int] == ls@[i as int]@);
        let ghost held = entry::aliases(out@);
        match line::parse_alias_line(ls[i].as_str()) {
            Some(e) => {
                out.push(e);
                assert(entry::aliases(out@) == held.push(e@));
            },
            None => {},
        }
        i = i + 1;
    }
    assert(all.take(all.len() as int) == all);
    out
}

// ---------------------------------------------------------------------------
// Adding
// ---------------------------------------------------------------------------

/// The content with its last line ended.
pub open spec fn terminated(content: Seq<char>) -> Seq<char> {
    if content.len() > 0 && content.last() != '\n' {
        content.push('\n')
    } else {
        content
    }
}

/// The content with one more line.
pub open spec fn appended(content: Seq<char>, new_line: Seq<char>) -> Seq<char> {
    terminated(content) + new_line.push('\n')
}

fn ends_with_newline(content: &str) -> (r: bool)
    ensures
        r == (content@.len() > 0 && content@.last() == '\n'),
{
    let v: Vec<char> = text::to_chars(content);
    v.len() > 0 && v[v.len() - 1] == '\n'
}

/// The content of the file once `entry` has been added at its end. Fails only
/// where the action of the entry cannot be quoted.
pub fn append_entry(content: &str, entry: &AliasEntry) -> (r: Result<String, AmError>)
    ensures
        match r {
            Ok(c) => line::formatted(entry@) matches Some(l) && c@ == appended(content@, l),
            Err(e) => line::formatted(entry@) is None && e == AmError::BothQuotes,
        },
{
    let l: String = match line::format_alias_line(entry) {
        Ok(l) => l,
        Err(e) => {
            return Err(e);
        },
    };
    let mut out: String = String::new();
    out.push_str(content);
    assert(out@ == content@);
    if !content.is_empty() && !ends_with_newline(content) {
        out.push('\n');
    }
    out.push_str(l.as_str());
    out.push('\n');
    assert(out@ == appended(content@, l@));
    Ok(out)
}

// ---------------------------------------------------------------------------
// Removing
// ---------------------------------------------------------------------------

/// Whether a line holds an alias called `name`.
pub open spec fn holds(l: Seq<char>, name: Seq<char>) -> bool {
    line::parsed(l) matches Some(a) && a.name == name
}

/// The lines that hold no alias called `name`.
pub open spec fn others(ls: Seq<Seq<char>>, name: Seq<char>) -> Seq<Seq<char>> {
    ls.filter(|l: Seq<char>| !holds(l, name))
}

/// The content without the lines that hold an alias called `name`.
pub open spec fn without(content: Seq<char>, name: Seq<char>) -> Seq<char> {
    text::unlines(others(text::lines(content), name))
}

/// Removes every managed line whose alias is called `name`; gives the new
/// content and the number of lines removed. All other lines (comments, blank
/// lines, hand-written bash, alias lines without a marker) are kept. Line
/// endings become `\n`.
pub fn remove_entry_lines(content: &str, name: &str) -> (r: (String, usize))
    ensures
        r.0@ == without(content@, name@),
        r.1 == text::lines(content@).len() - others(text::lines(content@), name@).len(),
{
    let ls: Vec<String> = text::split_lines(content);
    let ghost all = text::lines(content@);
    let ghost keep = |l: Seq<char>| !holds(l, name@);
    let mut out: String = String::new();
    let mut removed: usize = 0;
    let mut i: usize = 0;
    proof {
        reveal(Seq::filter);
    }
    assert(all.take(0).filter(keep) == Seq::<Seq<char>>::empty());
    while i < ls.len()
        invariant
            i <= ls@.len(),
            text::texts(ls@) == all,
            keep == |l: Seq<char>| !holds(l, name@),
            out@ == text::unlines(all.take(i as int).filter(keep)),
            removed == i - all.take(i as int).filter(keep).len(),
            removed <= i,
        decreases ls@.len() - i,
    {
        proof {
            reveal(Seq::filter);
            assert(all.take(i + 1).drop_last() == all.take(i as int));
            assert(all[i as int] == ls@[i as int]@);
        }
        let ghost kept = all.take(i as int).filter(keep);
        let hit: bool = match line::parse_alias_line(ls[i].as_str()) {
            Some(e) => text::same_text(e.name.as_str(), name),
            None => false,
        };
        if hit {
            removed = removed + 1;
        } else {
            let ghost so_far = out@;
            out.push_str(ls[i].as_str());
            out.push('\n');
            assert(kept.push(all[i as int]).drop_last() == kept);
            assert(out@ == so_far + all[i as int].push('\n'));
        }
        i = i + 1;
    }
    assert(all.take(all.len() as int) == all);
    assert(all.filter(keep) == others(all, name@));
    (out, removed)
}

// ---------------------------------------------------------------------------
// Lines of combined texts
// ---------------------------------------------------------------------------

/// Whether a text is empty or ends its last line.
pub open spec fn ended(s: Seq<char>) -> bool {
    s.len() > 0 ==> s.last() == '\n'
}

/// Whether every line of a file ends with just `\n`.
pub open spec fn unix_lines(s: Seq<char>) -> bool {
    &&& ended(s)
    &&& forall|i: int| 0 < i < s.len() && #[trigger] s[i] == '\n' ==> s[i - 1] != '\r'
}

/// The lines of two texts, the first of which ends its last line, follow one
/// another.
proof fn lemma_lines_add(x: Seq<char>, y: Seq<char>)
    requires
        ended(x),
    ensures
        text::lines(x + y) == text::lines(x) + text::lines(y),
    decreases x.len(),
{
    if x.len() == 0 {
        assert(x + y == y);
        assert(text::lines(x) + text::lines(y) == text::lines(y));
    } else {
        let e = text::find_from(x, '\n', 0);
        text::lemma_found(x, '\n', 0);
        assert(x[x.len() - 1] == '\n');
        assert(e < x.len());
        let z = x + y;
        assert forall|k: int| 0 <= k < e implies z[k] != '\n' by {
            assert(z[k] == x[k]);
        }
        assert(z[e] == x[e]);
        text::lemma_find_from(z, '\n', 0, e);
        assert(z.take(e) == x.take(e));
        assert(z.skip(e + 1) == x.skip(e + 1) + y);
        lemma_lines_add(x.skip(e + 1), y);
        let first = seq![text::strip_cr(x.take(e))];
        assert(text::lines(x) == first + text::lines(x.skip(e + 1)));
        assert(text::lines(z) == first + text::lines(z.skip(e + 1)));
        assert(first + (text::lines(x.skip(e + 1)) + text::lines(y)) == (first + text::lines(
            x.skip(e + 1),
        )) + text::lines(y));
    }
}

/// A text without `\n` and its ending are one line.
proof fn lemma_one_line(l: Seq<char>)
    requires
        !l.contains('\n'),
    ensures
        text::lines(l.push('\n')) == seq![text::strip_cr(l)],
{
    let s = l.push('\n');
    let n = l.len() as int;
    assert forall|k: int| 0 <= k < n implies s[k] != '\n' by {
        assert(s[k] == l[k]);
    }
    text::lemma_find_from(s, '\n', 0, n);
    assert(s.take(n) == l);
    assert(s.skip(n + 1) == Seq::<char>::empty());
    assert(text::lines(s.skip(n + 1)) == Seq::<Seq<char>>::empty());
    assert(seq![text::strip_cr(l)] + Seq::<Seq<char>>::empty() == seq![text::strip_cr(l)]);
}

/// The lines of a text hold no `\n`.
proof fn lemma_lines_hold_no_newline(s: Seq<char>)
    ensures
        forall|i: int| 0 <= i < text::lines(s).len() ==> !(#[trigger] text::lines(s)[i]).contains('\n'),
    decreases s.len(),
{
    if s.len() > 0 {
        let e = text::find_from(s, '\n', 0);
        text::lemma_found(s, '\n', 0);
        if e < s.len() {
            lemma_lines_hold_no_newline(s.skip(e + 1));
            let first = text::strip_cr(s.take(e));
            assert(!first.contains('\n')) by {
                assert forall|k: int| 0 <= k < first.len() implies first[k] != '\n' by {
                    assert(first[k] == s[k]);
                }
            }
            let rest = text::lines(s.skip(e + 1));
            assert(text::lines(s) == seq![first] + rest);
            assert forall|i: int| 0 <= i < text::lines(s).len() implies !(
            #[trigger] text::lines(s)[i]).contains('\n') by {
                if i > 0 {
                    assert(text::lines(s)[i] == rest[i - 1]);
                }
            }
        }
    }
}

/// The lines of `unlines`: the given ones, without the carriage returns that
/// end them.
proof fn lemma_lines_of_unlines(ls: Seq<Seq<char>>)
    requires
        forall|i: int| 0 <= i < ls.len() ==> !(#[trigger] ls[i]).contains('\n'),
    ensures
        text::lines(text::unlines(ls)) == ls.map_values(|l: Seq<char>| text::strip_cr(l)),
        ended(text::unlines(ls)),
    decreases ls.len(),
{
    let strip = |l: Seq<char>| text::strip_cr(l);
    if ls.len() == 0 {
        assert(text::lines(text::unlines(ls)) == Seq::<Seq<char>>::empty());
        assert(ls.map_values(strip) == Seq::<Seq<char>>::empty());
    } else {
        assert forall|i: int| 0 <= i < ls.drop_last().len() implies !(
        #[trigger] ls.drop_last()[i]).contains('\n') by {
            assert(ls.drop_last()[i] == ls[i]);
        }
        lemma_lines_of_unlines(ls.drop_last());
        lemma_lines_add(text::unlines(ls.drop_last()), ls.last().push('\n'));
        lemma_one_line(ls.last());
        assert(ls.drop_last().map_values(strip) + seq![text::strip_cr(ls.last())]
            == ls.map_values(strip));
    }
}

/// `unlines` of combined lists.
proof fn lemma_unlines_add(a: Seq<Seq<char>>, b: Seq<Seq<char>>)
    ensures
        text::unlines(a + b) == text::unlines(a) + text::unlines(b),
    decreases b.len(),
{
    if b.len() == 0 {
        assert(a + b == a);
        assert(text::unlines(a) + text::unlines(b) == text::unlines(a));
    } else {
        assert((a + b).drop_last() == a + b.drop_last());
        lemma_unlines_add(a, b.drop_last());
        assert(text::unlines(a) + (text::unlines(b.drop_last()) + b.last().push('\n')) == (
        text::unlines(a) + text::unlines(b.drop_last())) + b.last().push('\n'));
    }
}

/// A file whose lines all end with just `\n` is made of its lines.
proof fn lemma_unlines_of_lines(s: Seq<char>)
    requires
        unix_lines(s),
    ensures
        text::unlines(text::lines(s)) == s,
    decreases s.len(),
{
    if s.len() > 0 {
        let e = text::find_from(s, '\n', 0);
        text::lemma_found(s, '\n', 0);
        assert(s[s.len() - 1] == '\n');
        assert(s[e] == '\n');
        let first = s.take(e);
        let rest = s.skip(e + 1);
        assert(text::strip_cr(first) == first) by {
            if e > 0 {
                assert(first.last() == s[e - 1]);
            }
        }
        assert(unix_lines(rest)) by {
            assert forall|i: int| 0 < i < rest.len() && #[trigger] rest[i] == '\n' implies rest[i
                - 1] != '\r' by {
                assert(rest[i] == s[i + e + 1]);
                assert(rest[i - 1] == s[i + e + 1 - 1]);
            }
            if rest.len() > 0 {
                assert(rest.last() == s.last());
            }
        }
        lemma_unlines_of_lines(rest);
        lemma_unlines_add(seq![first], text::lines(rest));
        assert(seq![first].drop_last() == Seq::<Seq<char>>::empty());
        assert(text::unlines(Seq::<Seq<char>>::empty()) == Seq::<char>::empty());
        assert(text::unlines(seq![first]) == first.push('\n'));
        assert(first.push('\n') + rest == s);
    } else {
        assert(text::lines(s) == Seq::<Seq<char>>::empty());
        assert(text::unlines(text::lines(s)) == s);
    }
}

// ---------------------------------------------------------------------------
// Aliases of combined lines
// ---------------------------------------------------------------------------

proof fn lemma_managed_add(a: Seq<Seq<char>>, b: Seq<Seq<char>>)
    ensures
        managed(a + b) == managed(a) + managed(b),
    decreases b.len(),
{
    if b.len() == 0 {
        assert(a + b == a);
        assert(managed(a) + managed(b) == managed(a));
    } else {
        assert((a + b).drop_last() == a + b.drop_last());
        assert((a + b).last() == b.last());
        lemma_managed_add(a, b.drop_last());
        match line::parsed(b.last()) {
            Some(x) => {
                assert((managed(a) + managed(b.drop_last())).push(x) == managed(a) + managed(
                    b.drop_last(),
                ).push(x));
            },
            None => {},
        }
    }
}

proof fn lemma_managed_one(l: Seq<char>)
    ensures
        managed(seq![l]) == (match line::parsed(l) {
            Some(a) => seq![a],
            None => seq![],
        }),
{
    assert(seq![l].drop_last() == Seq::<Seq<char>>::empty());
    assert(managed(Seq::<Seq<char>>::empty()) == Seq::<Alias>::empty());
    match line::parsed(l) {
        Some(a) => {
            assert(Seq::<Alias>::empty().push(a) == seq![a]);
        },
        None => {},
    }
}

/// A carriage return at the end of a line makes no difference to what the
/// line holds.
proof fn lemma_managed_strips_cr(ls: Seq<Seq<char>>)
    ensures
        managed(ls.map_values(|l: Seq<char>| text::strip_cr(l))) == managed(ls),
    decreases ls.len(),
{
    let strip = |l: Seq<char>| text::strip_cr(l);
    if ls.len() == 0 {
        assert(ls.map_values(strip) == ls);
    } else {
        lemma_managed_strips_cr(ls.drop_last());
        assert(ls.map_values(strip).drop_last() == ls.drop_last().map_values(strip));
        line::lemma_parsed_without_cr(ls.last());
    }
}

/// Ending the last line makes no difference to what a file holds.
proof fn lemma_terminated(content: Seq<char>)
    ensures
        entries_in(terminated(content)) == entries_in(content),
        ended(terminated(content)),
    decreases content.len(),
{
    if terminated(content) != content {
        let e = text::find_from(content, '\n', 0);
        text::lemma_found(content, '\n', 0);
        if e < content.len() {
            let head = content.take(e + 1);
            let rest = content.skip(e + 1);
            assert(rest.len() > 0) by {
                if e == content.len() - 1 {
                    assert(content.last() == content[e]);
                }
            }
            assert(rest.last() == content.last());
            lemma_terminated(rest);
            assert(content == head + rest);
            assert(terminated(content) == head + terminated(rest));
            assert(head.last() == content[e]);
            lemma_lines_add(head, rest);
            lemma_lines_add(head, terminated(rest));
            lemma_managed_add(text::lines(head), text::lines(rest));
            lemma_managed_add(text::lines(head), text::lines(terminated(rest)));
        } else {
            assert(!content.contains('\n'));
            lemma_one_line(content);
            assert(text::lines(content) == seq![content]);
            lemma_managed_one(content);
            lemma_managed_one(text::strip_cr(content));
            line::lemma_parsed_without_cr(content);
        }
    }
}

proof fn lemma_managed_others(ls: Seq<Seq<char>>, name: Seq<char>)
    ensures
        managed(others(ls, name)) == managed(ls).filter(|a: Alias| a.name != name),
        ls.len() - others(ls, name).len() == managed(ls).filter(|a: Alias| a.name == name).len(),
    decreases ls.len(),
{
    reveal(Seq::filter);
    let keep = |l: Seq<char>| !holds(l, name);
    let other = |a: Alias| a.name != name;
    let same = |a: Alias| a.name == name;
    if ls.len() == 0 {
        assert(ls.filter(keep) == ls);
        assert(managed(ls).filter(other) == managed(ls));
    } else {
        let front = ls.drop_last();
        lemma_managed_others(front, name);
        match line::parsed(ls.last()) {
            Some(a) => {
                let more = managed(front).push(a);
                assert(more.drop_last() == managed(front));
                assert(more.last() == a);
                if a.name != name {
                    assert(others(ls, name) == others(front, name).push(ls.last()));
                    assert(others(ls, name).drop_last() == others(front, name));
                }
            },
            None => {
                assert(others(ls, name) == others(front, name).push(ls.last()));
                assert(others(ls, name).drop_last() == others(front, name));
            },
        }
    }
}

// ---------------------------------------------------------------------------
// Laws
// ---------------------------------------------------------------------------

proof fn lemma_formatted_line(a: Alias)
    requires
        line::valid_name(a.name),
        line::formatted(a) is Some,
        !a.action.contains('\n'),
    ensures
        !(line::formatted(a)->0).contains('\n'),
        text::strip_cr(line::formatted(a)->0) == line::formatted(a)->0,
{
    reveal_strlit("alias ");
    reveal_strlit("=");
    reveal_strlit(" #");
    reveal_strlit("command");
    reveal_strlit("folder");
    reveal_strlit("ssh");
    let q = line::quoted(a.action)->0;
    let l = line::formatted(a)->0;
    let n = a.name.len() as int;
    let head = "alias "@ + a.name + "="@;
    assert(l == head + q + (" #"@ + a.kind.marker()));
    assert(!a.name.contains('\n')) by {
        assert forall|i: int| 0 <= i < n implies a.name[i] != '\n' by {
            assert(line::in_name(a.name[i]));
        }
    }
    assert forall|i: int| 0 <= i < l.len() implies l[i] != '\n' by {
        if i < 6 {
            assert(l[i] == "alias "@[i]);
        } else if i < 6 + n {
            assert(l[i] == a.name[i - 6]);
        } else if i < 7 + n {
            assert(l[i] == "="@[0]);
        } else if i < 7 + n + q.len() {
            let k = i - 7 - n;
            assert(l[i] == q[k]);
            if 0 < k < q.len() - 1 {
                assert(q[k] == a.action[k - 1]);
            }
        } else {
            let k = i - 7 - n - q.len();
            assert(l[i] == (" #"@ + a.kind.marker())[k]);
        }
    }
    assert(l.last() == a.kind.marker().last());
}

/// What is added can be read back: once an alias with a valid name and an
/// action of one line has been added, the file holds what it held before and
/// that alias.
pub proof fn law_append_then_load(content: Seq<char>, a: Alias)
    requires
        line::valid_name(a.name),
        line::formatted(a) is Some,
        !a.action.contains('\n'),
    ensures
        entries_in(appended(content, line::formatted(a)->0)) == entries_in(content).push(a),
{
    let l = line::formatted(a)->0;
    lemma_formatted_line(a);
    line::law_format_then_parse(a);
    lemma_terminated(content);
    lemma_lines_add(terminated(content), l.push('\n'));
    lemma_one_line(l);
    lemma_managed_add(text::lines(terminated(content)), seq![l]);
    lemma_managed_one(l);
    assert(entries_in(content) + seq![a] == entries_in(content).push(a));
}

/// Adding leaves the rest of the file alone: the content before stays as it
/// is, but for the ending that its last line may lack, and one line follows.
pub proof fn law_append_keeps_content(content: Seq<char>, a: Alias)
    requires
        line::formatted(a) is Some,
    ensures
        content.is_prefix_of(appended(content, line::formatted(a)->0)),
        appended(content, line::formatted(a)->0).len() == terminated(content).len()
            + (line::formatted(a)->0).len() + 1,
{
    let c = appended(content, line::formatted(a)->0);
    assert(c.take(content.len() as int) == content);
}

/// What is removed is gone and nothing else is: the file then holds the
/// aliases with other names, in their order.
pub proof fn law_remove_then_load(content: Seq<char>, name: Seq<char>)
    ensures
        entries_in(without(content, name)) == entries_in(content).filter(
            |a: Alias| a.name != name,
        ),
{
    let kept = others(text::lines(content), name);
    lemma_others_hold_no_newline(content, name);
    lemma_managed_others(text::lines(content), name);
    lemma_lines_of_unlines(kept);
    lemma_managed_strips_cr(kept);
}

/// The number of lines that removing takes out is the number of aliases with
/// that name.
pub proof fn law_remove_counts_aliases(content: Seq<char>, name: Seq<char>)
    ensures
        text::lines(content).len() - others(text::lines(content), name).len() == entries_in(
            content,
        ).filter(|a: Alias| a.name == name).len(),
{
    lemma_managed_others(text::lines(content), name);
}

proof fn lemma_others_hold_no_newline(content: Seq<char>, name: Seq<char>)
    ensures
        forall|i: int|
            0 <= i < others(text::lines(content), name).len() ==> !(#[trigger] others(
                text::lines(content),
                name,
            )[i]).contains('\n'),
{
    let ls = text::lines(content);
    lemma_lines_hold_no_newline(content);
    assert forall|i: int| 0 <= i < others(ls, name).len() implies !(#[trigger] others(
        ls,
        name,
    )[i]).contains('\n') by {
        let k = lemma_others_are_lines(ls, name, i);
        assert(!ls[k].contains('\n'));
    }
}

proof fn lemma_others_are_lines(ls: Seq<Seq<char>>, name: Seq<char>, i: int) -> (k: int)
    requires
        0 <= i < others(ls, name).len(),
    ensures
        0 <= k < ls.len(),
        ls[k] == others(ls, name)[i],
    decreases ls.len(),
{
    reveal(Seq::filter);
    let front = ls.drop_last();
    if i < others(front, name).len() {
        let k = lemma_others_are_lines(front, name, i);
        assert(ls[k] == front[k]);
        k
    } else {
        ls.len() - 1
    }
}

/// Every other line is kept as it is, blank ones too, but for a carriage return
/// that ends it.
pub proof fn law_remove_keeps_other_lines(content: Seq<char>, name: Seq<char>)
    ensures
        text::lines(without(content, name)) == others(text::lines(content), name).map_values(
            |l: Seq<char>| text::strip_cr(l),
        ),
        (forall|i: int|
            0 <= i < others(text::lines(content), name).len() ==> text::strip_cr(
                #[trigger] others(text::lines(content), name)[i],
            ) == others(text::lines(content), name)[i]) ==> text::lines(without(content, name))
            == others(text::lines(content), name),
{
    lemma_others_hold_no_newline(content, name);
    lemma_lines_of_unlines(others(text::lines(content), name));
}

/// Removing a name that the file does not hold leaves the file as it is, where
/// its lines all end with just `\n`.
pub proof fn law_remove_missing_is_noop(content: Seq<char>, name: Seq<char>)
    requires
        unix_lines(content),
        !entry::is_named_in(entries_in(content), name),
    ensures
        without(content, name) == content,
{
    lemma_nothing_to_remove(text::lines(content), name);
    lemma_unlines_of_lines(content);
}

proof fn lemma_nothing_to_remove(ls: Seq<Seq<char>>, name: Seq<char>)
    requires
        !entry::is_named_in(managed(ls), name),
    ensures
        others(ls, name) == ls,
    decreases ls.len(),
{
    reveal(Seq::filter);
    if ls.len() > 0 {
        let front = ls.drop_last();
        match line::parsed(ls.last()) {
            Some(a) => {
                assert(managed(ls)[managed(front).len() as int] == a);
                assert forall|i: int| 0 <= i < managed(front).len() implies (#[trigger] managed(
                    front,
                )[i]).name != name by {
                    assert(managed(ls)[i] == managed(front)[i]);
                }
            },
            None => {
                assert(managed(ls) == managed(front));
            },
        }
        lemma_nothing_to_remove(front, name);
        assert(front.push(ls.last()) == ls);
    }
}

/// Removing undoes adding: of a file that does not hold the name and whose
/// lines all end with just `\n`.
pub proof fn law_remove_undoes_append(content: Seq<char>, a: Alias)
    requires
        line::valid_name(a.name),
        line::formatted(a) is Some,
        !a.action.contains('\n'),
        unix_lines(content),
        !entry::is_named_in(entries_in(content), a.name),
    ensures
        without(appended(content, line::formatted(a)->0), a.name) == content,
{
    reveal(Seq::filter);
    let l = line::formatted(a)->0;
    let ls = text::lines(content);
    lemma_formatted_line(a);
    line::law_format_then_parse(a);
    lemma_lines_add(content, l.push('\n'));
    lemma_one_line(l);
    let more = ls + seq![l];
    assert(more.drop_last() == ls);
    assert(others(more, a.name) == others(ls, a.name));
    law_remove_missing_is_noop(content, a.name);
}

/// A file is read line by line: the first line gives its alias, if it holds
/// one, and the others follow.
pub proof fn law_entries_come_line_by_line(l: Seq<char>, rest: Seq<char>)
    requires
        !l.contains('\n'),
    ensures
        line::parsed(l) matches Some(a) ==> entries_in(l + seq!['\n'] + rest) == seq![a]
            + entries_in(rest),
        line::parsed(l) is None ==> entries_in(l + seq!['\n'] + rest) == entries_in(rest),
        line::parsed(l) matches Some(a) ==> entries_in(l) == seq![a],
        line::parsed(l) is None ==> entries_in(l).len() == 0,
{
    let s = l + seq!['\n'] + rest;
    let first = text::strip_cr(l);
    text::law_lines_end_at_line_breaks(l, rest);
    assert(text::lines(s) =~= seq![first] + text::lines(rest));
    lemma_managed_add(seq![first], text::lines(rest));
    lemma_managed_one(first);
    line::lemma_parsed_without_cr(l);
    if line::parsed(l) is None {
        assert(Seq::<Alias>::empty() + entries_in(rest) =~= entries_in(rest));
    }
    text::law_last_line_needs_no_ending(l);
    if l.len() > 0 {
        lemma_managed_one(l);
    } else if line::parsed(l) is Some {
        let w = line::law_read_line_has_that_form(l);
        assert(l.len() >= 1);
    }
}

/// A name is removed line by line: the first line goes just where it holds an
/// alias of that name, and stays otherwise, with `\n` as its ending; the others
/// are dealt with the same way, and the lines that go are counted.
pub proof fn law_lines_go_one_by_one(l: Seq<char>, rest: Seq<char>, name: Seq<char>)
    requires
        !l.contains('\n'),
    ensures
        ({
            let s = l + seq!['\n'] + rest;
            let goes = line::parsed(l) matches Some(a) && a.name == name;
            let gone = text::lines(s).len() - others(text::lines(s), name).len();
            let gone_rest = text::lines(rest).len() - others(text::lines(rest), name).len();
            &&& goes ==> without(s, name) == without(rest, name) && gone == gone_rest + 1
            &&& !goes && !(l.len() > 0 && l.last() == '\r') ==> without(s, name) == l + seq!['\n']
                + without(rest, name)
            &&& !goes && l.len() > 0 && l.last() == '\r' ==> without(s, name) == l.drop_last()
                + seq!['\n'] + without(rest, name)
            &&& !goes ==> gone == gone_rest
        }),
{
    let s = l + seq!['\n'] + rest;
    let first = text::strip_cr(l);
    let keep = |x: Seq<char>| !holds(x, name);
    text::law_lines_end_at_line_breaks(l, rest);
    line::lemma_parsed_without_cr(l);
    assert(text::lines(s) =~= seq![first] + text::lines(rest));
    Seq::filter_distributes_over_add(seq![first], text::lines(rest), keep);
    reveal(Seq::filter);
    assert(seq![first].drop_last() =~= Seq::<Seq<char>>::empty());
    let kept = others(text::lines(rest), name);
    if keep(first) {
        assert(seq![first].filter(keep) =~= seq![first]);
        lemma_unlines_add(seq![first], kept);
        assert(text::unlines(Seq::<Seq<char>>::empty()) =~= Seq::<char>::empty());
        assert(text::unlines(seq![first]) =~= first + seq!['\n']);
    } else {
        assert(Seq::<Seq<char>>::empty().filter(keep) =~= Seq::<Seq<char>>::empty());
        assert(seq![first].last() == first);
        assert(seq![first].filter(keep) =~= Seq::<Seq<char>>::empty());
        assert(Seq::<Seq<char>>::empty() + kept =~= kept);
    }
}

/// The last line goes or stays in the same way where its ending is missing.
pub proof fn law_last_line_goes_too(l: Seq<char>, name: Seq<char>)
    requires
        !l.contains('\n'),
        l.len() > 0,
    ensures
        (line::parsed(l) matches Some(a) && a.name == name) ==> without(l, name).len() == 0,
        !(line::parsed(l) matches Some(a) && a.name == name) ==> without(l, name) == l + seq!['\n'],
        without(Seq::<char>::empty(), name).len() == 0,
{
    let keep = |x: Seq<char>| !holds(x, name);
    text::law_last_line_needs_no_ending(l);
    text::law_last_line_needs_no_ending(Seq::<char>::empty());
    reveal(Seq::filter);
    assert(seq![l].drop_last() =~= Seq::<Seq<char>>::empty());
    assert(text::unlines(Seq::<Seq<char>>::empty()) =~= Seq::<char>::empty());
    if keep(l) {
        assert(seq![l].filter(keep) =~= seq![l]);
        assert(text::unlines(seq![l]) =~= l + seq!['\n']);
    } else {
        assert(Seq::<Seq<char>>::empty().filter(keep) =~= Seq::<Seq<char>>::empty());
        assert(seq![l].last() == l);
        assert(seq![l].filter(keep) =~= Seq::<Seq<char>>::empty());
    }
}

/// What is added is one more line at the end; only a last line that lacks its
/// ending gets one.
pub proof fn law_added_line_comes_last(content: Seq<char>, l: Seq<char>)
    ensures
        content.len() == 0 ==> appended(content, l) == l + seq!['\n'],
        content.len() > 0 && content.last() == '\n' ==> appended(content, l) == content + l + seq![
            '\n',
        ],
        content.len() > 0 && content.last() != '\n' ==> appended(content, l) == content + seq!['\n']
            + l + seq!['\n'],
{
    assert(l.push('\n') =~= l + seq!['\n']);
    if content.len() == 0 {
        assert(appended(content, l) =~= l + seq!['\n']);
    } else if content.last() == '\n' {
        assert(appended(content, l) =~= content + l + seq!['\n']);
    } else {
        assert(appended(content, l) =~= content + seq!['\n'] + l + seq!['\n']);
    }
}

} // verus!
