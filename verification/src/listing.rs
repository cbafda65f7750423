//! Listings: which aliases are shown, in what order, and the table of them.
use vstd::prelude::*;

use crate::entry;
use crate::entry::{Alias, AliasEntry, AliasKind};
use crate::store;
use crate::text;

verus! {

// ---------------------------------------------------------------------------
// Order
// ---------------------------------------------------------------------------

/// The order of a listing: commands, then folders, then ssh connections;
/// within each group by name, upper and lower case alike; then by name.
pub open spec fn listed_before(a: Alias, b: Alias) -> bool {
    let la = text::lowercase(a.name);
    let lb = text::lowercase(b.name);
    ||| a.kind.rank() < b.kind.rank()
    ||| a.kind.rank() == b.kind.rank() && text::before(la, lb)
    ||| a.kind.rank() == b.kind.rank() && la == lb && text::before(a.name, b.name)
}

/// Whether aliases stand in the order of a listing.
pub open spec fn in_listing_order(v: Seq<Alias>) -> bool {
    forall|i: int, j: int| 0 <= i < j < v.len() ==> !listed_before(#[trigger] v[j], #[trigger] v[i])
}

/// The aliases of one kind and name, in their order.
pub open spec fn called(v: Seq<Alias>, kind: AliasKind, name: Seq<char>) -> Seq<Alias> {
    v.filter(|a: Alias| a.kind == kind && a.name == name)
}

/// Whether `v` is the listing of `of`: the same aliases in the order of a
/// listing, where aliases that this order does not part stay in their order.
pub open spec fn is_listing(v: Seq<Alias>, of: Seq<Alias>) -> bool {
    &&& in_listing_order(v)
    &&& forall|kind: AliasKind, name: Seq<char>| #[trigger]
        called(v, kind, name) == called(of, kind, name)
}

/// The order parts any two aliases that differ in kind or name.
proof fn lemma_order_parts(a: Alias, b: Alias)
    ensures
        a.kind == b.kind && a.name == b.name ==> !listed_before(a, b),
        !(a.kind == b.kind && a.name == b.name) ==> listed_before(a, b) != listed_before(b, a),
{
    text::lemma_before_total(text::lowercase(a.name), text::lowercase(b.name));
    text::lemma_before_total(a.name, b.name);
}

proof fn lemma_order_transitive(a: Alias, b: Alias, c: Alias)
    requires
        listed_before(a, b),
        listed_before(b, c),
    ensures
        listed_before(a, c),
{
    let (la, lb, lc) = (
        text::lowercase(a.name),
        text::lowercase(b.name),
        text::lowercase(c.name),
    );
    if text::before(la, lb) && text::before(lb, lc) {
        text::lemma_before_transitive(la, lb, lc);
    }
    if text::before(a.name, b.name) && text::before(b.name, c.name) {
        text::lemma_before_transitive(a.name, b.name, c.name);
    }
}

/// What does not come after `b`, which does not come after `c`, does not come
/// after `c`.
proof fn lemma_order_chains(a: Alias, b: Alias, c: Alias)
    requires
        !listed_before(b, a),
        !listed_before(c, b),
    ensures
        !listed_before(c, a),
{
    lemma_order_parts(a, b);
    lemma_order_parts(b, c);
    lemma_order_parts(a, c);
    if listed_before(c, a) {
        if listed_before(a, b) {
            lemma_order_transitive(c, a, b);
        }
        lemma_order_parts(c, b);
    }
}

fn comes_before(a: &AliasEntry, b: &AliasEntry) -> (r: bool)
    ensures
        r == listed_before(a@, b@),
{
    let ra: u8 = rank(a.kind);
    let rb: u8 = rank(b.kind);
    if ra != rb {
        return ra < rb;
    }
    let la: String = text::to_lowercase(a.name.as_str());
    let lb: String = text::to_lowercase(b.name.as_str());
    proof {
        text::lemma_before_total(la@, lb@);
    }
    if text::is_before(la.as_str(), lb.as_str()) {
        return true;
    }
    text::same_text(la.as_str(), lb.as_str()) && text::is_before(a.name.as_str(), b.name.as_str())
}

fn rank(kind: AliasKind) -> (r: u8)
    ensures
        r == kind.rank(),
{
    match kind {
        AliasKind::Command => 0,
        AliasKind::Folder => 1,
        AliasKind::Ssh => 2,
    }
}

/// `<[T]>::swap` exchanges two elements of a slice; it panics where a position
/// is out of bounds.
pub assume_specification<T>[ <[T]>::swap ](s: &mut [T], a: usize, b: usize)
    requires
        a < old(s)@.len(),
        b < old(s)@.len(),
    ensures
        final(s)@ == old(s)@.update(a as int, old(s)@[b as int]).update(
            b as int,
            old(s)@[a as int],
        ),
;

/// Exchanging two neighbours of different kind or name leaves the order
/// within each kind and name alone.
proof fn lemma_exchange(v: Seq<Alias>, i: int, kind: AliasKind, name: Seq<char>)
    requires
        0 < i < v.len(),
        !(v[i - 1].kind == v[i].kind && v[i - 1].name == v[i].name),
    ensures
        called(v.update(i - 1, v[i]).update(i, v[i - 1]), kind, name) == called(v, kind, name),
{
    let p = |a: Alias| a.kind == kind && a.name == name;
    let w = v.update(i - 1, v[i]).update(i, v[i - 1]);
    let (x, y) = (v[i - 1], v[i]);
    let head = v.take(i - 1);
    let tail = v.skip(i + 1);
    let old_pair = seq![x, y];
    let new_pair = seq![y, x];
    assert(v =~= head + old_pair + tail);
    assert(w =~= head + new_pair + tail);
    Seq::filter_distributes_over_add(head + old_pair, tail, p);
    Seq::filter_distributes_over_add(head, old_pair, p);
    Seq::filter_distributes_over_add(head + new_pair, tail, p);
    Seq::filter_distributes_over_add(head, new_pair, p);
    assert(old_pair.filter(p) == new_pair.filter(p)) by {
        reveal(Seq::filter);
        assert(old_pair.drop_last() =~= seq![x]);
        assert(new_pair.drop_last() =~= seq![y]);
        assert(seq![x].drop_last() =~= Seq::<Alias>::empty());
        assert(seq![y].drop_last() =~= Seq::<Alias>::empty());
        assert(Seq::<Alias>::empty().filter(p) =~= Seq::<Alias>::empty());
        let none = Seq::<Alias>::empty();
        assert(seq![x].filter(p) =~= if p(x) { seq![x] } else { none });
        assert(seq![y].filter(p) =~= if p(y) { seq![y] } else { none });
        assert(old_pair.filter(p) =~= new_pair.filter(p));
    }
}

/// Sorts entries for a listing. The sort is stable.
pub fn sort_for_display(entries: &mut [AliasEntry])
    ensures
        is_listing(entry::aliases(final(entries)@), entry::aliases(old(entries)@)),
{
    let len: usize = entries.len();
    let ghost of = entry::aliases(entries@);
    let mut i: usize = 0;
    while i < len
        invariant
            i <= len == entries@.len(),
            of == entry::aliases(old(entries)@),
            in_listing_order(entry::aliases(entries@).take(i as int)),
            forall|kind: AliasKind, name: Seq<char>| #[trigger]
                called(entry::aliases(entries@), kind, name) == called(of, kind, name),
        decreases len - i,
    {
        let mut j: usize = i;
        proof {
            let v = entry::aliases(entries@);
            assert forall|a: int, b: int| 0 <= a < b <= i && a != j && b != j implies !listed_before(
                #[trigger] v[b],
                #[trigger] v[a],
            ) by {
                assert(v.take(i as int)[a] == v[a]);
                assert(v.take(i as int)[b] == v[b]);
            }
        }
        while j > 0 && comes_before(&entries[j], &entries[j - 1])
            invariant
                j <= i < len == entries@.len(),
                of == entry::aliases(old(entries)@),
                forall|a: int, b: int|
                    0 <= a < b <= i && a != j && b != j ==> !listed_before(
                        #[trigger] entry::aliases(entries@)[b],
                        #[trigger] entry::aliases(entries@)[a],
                    ),
                forall|b: int|
                    j < b <= i ==> !listed_before(
                        #[trigger] entry::aliases(entries@)[b],
                        entry::aliases(entries@)[j as int],
                    ),
                forall|kind: AliasKind, name: Seq<char>| #[trigger]
                    called(entry::aliases(entries@), kind, name) == called(of, kind, name),
            decreases j,
        {
            let ghost v = entry::aliases(entries@);
            entries.swap(j - 1, j);
            let ghost w = entry::aliases(entries@);
            proof {
                let jj = j as int;
                assert(w =~= v.update(jj - 1, v[jj]).update(jj, v[jj - 1]));
                lemma_order_parts(v[jj - 1], v[jj]);
                lemma_order_parts(v[jj], v[jj - 1]);
                assert forall|kind: AliasKind, name: Seq<char>| #[trigger]
                    called(w, kind, name) == called(of, kind, name) by {
                    lemma_exchange(v, jj, kind, name);
                    assert(called(v, kind, name) == called(of, kind, name));
                }
                assert forall|a: int, b: int|
                    0 <= a < b <= i && a != jj - 1 && b != jj - 1 implies !listed_before(
                    #[trigger] w[b],
                    #[trigger] w[a],
                ) by {
                    let a0 = if a == jj { jj - 1 } else { a };
                    let b0 = if b == jj { jj - 1 } else { b };
                    assert(w[a] == v[a0] && w[b] == v[b0]);
                }
                assert forall|b: int| jj - 1 < b <= i implies !listed_before(
                    #[trigger] w[b],
                    w[jj - 1],
                ) by {
                    assert(w[jj - 1] == v[jj]);
                    if b == jj {
                        assert(w[b] == v[jj - 1]);
                    } else {
                        assert(w[b] == v[b]);
                    }
                }
            }
            j = j - 1;
        }
        proof {
            let v = entry::aliases(entries@);
            let t = v.take(i + 1);
            assert forall|a: int, b: int| 0 <= a < b < t.len() implies !listed_before(
                #[trigger] t[b],
                #[trigger] t[a],
            ) by {
                assert(t[a] == v[a] && t[b] == v[b]);
                if b == j {
                    assert(entries@[j as int]@ == v[j as int]);
                    assert(entries@[j - 1]@ == v[j - 1]);
                    if a < j - 1 {
                        lemma_order_chains(v[a], v[j - 1], v[b]);
                    }
                }
            }
        }
        i = i + 1;
    }
    assert(entry::aliases(entries@).take(len as int) =~= entry::aliases(entries@));
}

// ---------------------------------------------------------------------------
// Selection
// ---------------------------------------------------------------------------

/// What a listing is asked for: the kinds to show, all of them where none is
/// asked for, and a text to look for.
pub struct ListFilter {
    pub commands: bool,
    pub folders: bool,
    pub ssh: bool,
    pub search: Option<String>,
}

impl ListFilter {
    /// Whether aliases of this kind are shown.
    pub open spec fn shows(self, kind: AliasKind) -> bool {
        ||| !self.commands && !self.folders && !self.ssh
        ||| match kind {
            AliasKind::Command => self.commands,
            AliasKind::Folder => self.folders,
            AliasKind::Ssh => self.ssh,
        }
    }

    /// Whether this alias is shown: its kind is, and its name or its action
    /// holds the text looked for, upper and lower case alike.
    pub open spec fn selects(self, a: Alias) -> bool {
        &&& self.shows(a.kind)
        &&& match self.search {
            Some(t) => text::occurs_in(text::lowercase(a.name), text::lowercase(t@))
                || text::occurs_in(text::lowercase(a.action), text::lowercase(t@)),
            None => true,
        }
    }

    /// Whether this entry is shown.
    pub fn is_selected(&self, e: &AliasEntry) -> (r: bool)
        ensures
            r == self.selects(e@),
    {
        let asked: bool = match e.kind {
            AliasKind::Command => self.commands,
            AliasKind::Folder => self.folders,
            AliasKind::Ssh => self.ssh,
        };
        if !asked && (self.commands || self.folders || self.ssh) {
            return false;
        }
        match &self.search {
            Some(t) => {
                let needle: String = text::to_lowercase(t.as_str());
                let name: String = text::to_lowercase(e.name.as_str());
                let action: String = text::to_lowercase(e.action.as_str());
                text::contains_text(name.as_str(), needle.as_str()) || text::contains_text(
                    action.as_str(),
                    needle.as_str(),
                )
            },
            None => true,
        }
    }
}

/// The aliases that a filter selects, in their order.
pub open spec fn selection(v: Seq<Alias>, f: ListFilter) -> Seq<Alias> {
    v.filter(|a: Alias| f.selects(a))
}

/// The entries that a filter selects, in their order.
pub fn select_entries(entries: &Vec<AliasEntry>, filter: &ListFilter) -> (r: Vec<AliasEntry>)
    ensures
        entry::aliases(r@) == selection(entry::aliases(entries@), *filter),
{
    let ghost all = entry::aliases(entries@);
    let ghost p = |a: Alias| filter.selects(a);
    let mut out: Vec<AliasEntry> = Vec::new();
    let mut i: usize = 0;
    proof {
        reveal(Seq::filter);
        assert(entry::aliases(out@) =~= all.take(0).filter(p));
    }
    while i < entries.len()
        invariant
            i <= entries@.len(),
            all == entry::aliases(entries@),
            p == |a: Alias| filter.selects(a),
            entry::aliases(out@) == all.take(i as int).filter(p),
        decreases entries@.len() - i,
    {
        let ghost held = entry::aliases(out@);
        proof {
            reveal(Seq::filter);
            assert(all.take(i + 1).drop_last() =~= all.take(i as int));
            assert(all[i as int] == entries@[i as int]@);
        }
        if filter.is_selected(&entries[i]) {
            let e: AliasEntry = entries[i].duplicate();
            out.push(e);
            assert(entry::aliases(out@) =~= held.push(e@));
        }
        i = i + 1;
    }
    assert(all.take(all.len() as int) =~= all);
    out
}

/// What a listing shows.
pub enum Listing {
    /// There is nothing to show; says so.
    Nothing(String),
    /// The entries to show, in order.
    Rows(Vec<AliasEntry>),
}

/// Whether this is the listing of a file: a notice where it holds no alias, and
/// another where it holds none that is asked for; otherwise those that are, in
/// order.
pub open spec fn is_answer(r: Listing, content: Seq<char>, filter: ListFilter) -> bool {
    let all = store::entries_in(content);
    match r {
        Listing::Nothing(notice) => if all.len() == 0 {
            notice@ == "No aliases managed yet. Run `am new` to create one."@
        } else {
            selection(all, filter).len() == 0 && notice@ == "No managed alias matches."@
        },
        Listing::Rows(rows) => rows@.len() > 0 && is_listing(
            entry::aliases(rows@),
            selection(all, filter),
        ),
    }
}

/// The listing of a file. A file that holds no alias, and one that holds none
/// that is asked for, is answered with a notice.
pub fn cmd_list(content: &str, filter: &ListFilter) -> (r: Listing)
    ensures
        is_answer(r, content@, *filter),
{
    let entries: Vec<AliasEntry> = store::load_entries(content);
    if entries.len() == 0 {
        assert(entry::aliases(entries@).len() == 0);
        return Listing::Nothing("No aliases managed yet. Run `am new` to create one.".to_string());
    }
    assert(entry::aliases(entries@).len() > 0);
    let mut rows: Vec<AliasEntry> = select_entries(&entries, filter);
    if rows.len() == 0 {
        assert(entry::aliases(rows@).len() == 0);
        return Listing::Nothing("No managed alias matches.".to_string());
    }
    let ghost chosen = entry::aliases(rows@);
    sort_for_display(&mut rows);
    proof {
        law_listing_has_same_aliases(entry::aliases(rows@), chosen);
    }
    Listing::Rows(rows)
}

// ---------------------------------------------------------------------------
// Table
// ---------------------------------------------------------------------------

/// A table of `comfy_table`.
#[verifier::external_type_specification]
#[verifier::external_body]
pub struct ExTable(comfy_table::Table);

/// The contents of the cells of the header of a table; none where there is no
/// header.
pub uninterp spec fn table_header(t: comfy_table::Table) -> Seq<Seq<char>>;

/// The contents of the cells of the rows of a table.
pub uninterp spec fn table_rows(t: comfy_table::Table) -> Seq<Seq<Seq<char>>>;

/// The characters that a table is drawn with, as a preset.
pub uninterp spec fn table_style(t: comfy_table::Table) -> Seq<char>;

/// Whether a table arranges its columns by the width of the terminal.
pub uninterp spec fn table_is_dynamic(t: comfy_table::Table) -> bool;

/// `Table::new`: a table without header and rows.
#[verifier::external_body]
fn new_table() -> (r: comfy_table::Table)
    ensures
        table_header(r) == Seq::<Seq<char>>::empty(),
        table_rows(r) == Seq::<Seq<Seq<char>>>::empty(),
{
    comfy_table::Table::new()
}

/// `Table::load_preset` with the preset `UTF8_FULL_CONDENSED`: the table is
/// drawn with the characters of this preset from then on.
#[verifier::external_body]
fn load_condensed_preset(t: &mut comfy_table::Table)
    ensures
        table_style(*final(t)) == "││──╞═╪╡┆    ┬┴┌┐└┘"@,
        table_header(*final(t)) == table_header(*old(t)),
        table_rows(*final(t)) == table_rows(*old(t)),
        table_is_dynamic(*final(t)) == table_is_dynamic(*old(t)),
{
    t.load_preset(comfy_table::presets::UTF8_FULL_CONDENSED);
}

/// `Table::set_content_arrangement` with `ContentArrangement::Dynamic`: the
/// table arranges its columns by the width of the terminal from then on.
#[verifier::external_body]
fn set_dynamic_arrangement(t: &mut comfy_table::Table)
    ensures
        table_is_dynamic(*final(t)),
        table_header(*final(t)) == table_header(*old(t)),
        table_rows(*final(t)) == table_rows(*old(t)),
        table_style(*final(t)) == table_style(*old(t)),
{
    t.set_content_arrangement(comfy_table::ContentArrangement::Dynamic);
}

/// `Table::set_header`: the header holds these cells from then on.
#[verifier::external_body]
fn set_header(t: &mut comfy_table::Table, cells: Vec<&str>)
    ensures
        table_header(*final(t)) == cells@.map_values(|c: &str| c@),
        table_rows(*final(t)) == table_rows(*old(t)),
        table_style(*final(t)) == table_style(*old(t)),
        table_is_dynamic(*final(t)) == table_is_dynamic(*old(t)),
{
    t.set_header(cells);
}

/// `Table::add_row`: one more row, with these cells, after the others.
#[verifier::external_body]
fn add_row(t: &mut comfy_table::Table, cells: Vec<&str>)
    ensures
        table_rows(*final(t)) == table_rows(*old(t)).push(cells@.map_values(|c: &str| c@)),
        table_header(*final(t)) == table_header(*old(t)),
        table_style(*final(t)) == table_style(*old(t)),
        table_is_dynamic(*final(t)) == table_is_dynamic(*old(t)),
{
    t.add_row(cells);
}

/// The row of an alias in the table: its type, its name, its action.
pub open spec fn row_of(a: Alias) -> Seq<Seq<char>> {
    seq![a.kind.marker(), a.name, a.action]
}

/// Whether this is the table of some aliases: one row each, in their order,
/// below the header.
pub open spec fn is_table_of(t: comfy_table::Table, v: Seq<Alias>) -> bool {
    &&& table_header(t) == seq!["type"@, "alias"@, "action"@]
    &&& table_rows(t) == v.map_values(|a: Alias| row_of(a))
    &&& table_style(t) == "││──╞═╪╡┆    ┬┴┌┐└┘"@
    &&& table_is_dynamic(t)
}

/// The table of the entries, one row each, in their order.
pub fn build_table(entries: &[AliasEntry]) -> (r: comfy_table::Table)
    ensures
        is_table_of(r, entry::aliases(entries@)),
{
    let ghost rows = entry::aliases(entries@).map_values(|a: Alias| row_of(a));
    let mut table: comfy_table::Table = new_table();
    load_condensed_preset(&mut table);
    set_dynamic_arrangement(&mut table);
    let header: Vec<&str> = vec!["type", "alias", "action"];
    assert(header@.map_values(|c: &str| c@) =~= seq!["type"@, "alias"@, "action"@]);
    set_header(&mut table, header);
    let mut i: usize = 0;
    assert(table_rows(table) =~= rows.take(0));
    while i < entries.len()
        invariant
            i <= entries@.len(),
            rows == entry::aliases(entries@).map_values(|a: Alias| row_of(a)),
            table_header(table) == seq!["type"@, "alias"@, "action"@],
            table_rows(table) == rows.take(i as int),
            table_style(table) == "││──╞═╪╡┆    ┬┴┌┐└┘"@,
            table_is_dynamic(table),
        decreases entries@.len() - i,
    {
        let e: &AliasEntry = &entries[i];
        let cells: Vec<&str> = vec![e.kind.as_str(), e.name.as_str(), e.action.as_str()];
        assert(cells@.map_values(|c: &str| c@) =~= row_of(e@));
        add_row(&mut table, cells);
        assert(rows[i as int] == row_of(entries@[i as int]@));
        assert(rows.take(i + 1) =~= rows.take(i as int).push(rows[i as int]));
        i = i + 1;
    }
    assert(rows.take(rows.len() as int) =~= rows);
    table
}

// ---------------------------------------------------------------------------
// Laws
// ---------------------------------------------------------------------------

/// A listing shows commands first, then folders, then ssh connections, and
/// within each group goes by name, upper and lower case alike.
pub proof fn law_listing_is_grouped_and_alphabetical(v: Seq<Alias>, of: Seq<Alias>, i: int, j: int)
    requires
        is_listing(v, of),
        0 <= i < j < v.len(),
    ensures
        v[i].kind.rank() <= v[j].kind.rank(),
        v[i].kind == v[j].kind ==> !text::before(
            text::lowercase(v[j].name),
            text::lowercase(v[i].name),
        ),
{
    assert(!listed_before(v[j], v[i]));
}

proof fn lemma_called_push(v: Seq<Alias>, a: Alias, kind: AliasKind, name: Seq<char>)
    ensures
        called(v.push(a), kind, name) == (if a.kind == kind && a.name == name {
            called(v, kind, name).push(a)
        } else {
            called(v, kind, name)
        }),
{
    reveal(Seq::filter);
    assert(v.push(a).drop_last() =~= v);
}

/// How often an alias occurs shows in the aliases of its kind and name.
proof fn lemma_count(v: Seq<Alias>, a: Alias)
    ensures
        v.to_multiset().count(a) == called(v, a.kind, a.name).to_multiset().count(a),
    decreases v.len(),
{
    broadcast use vstd::seq_lib::group_to_multiset_ensures;

    if v.len() == 0 {
        reveal(Seq::filter);
        assert(called(v, a.kind, a.name) =~= v);
    } else {
        let w = v.drop_last();
        let x = v.last();
        assert(w.push(x) =~= v);
        lemma_count(w, a);
        lemma_called_push(w, x, a.kind, a.name);
        assert(v.to_multiset() =~= w.to_multiset().insert(x));
    }
}

/// A listing shows every alias that is selected, as often as it occurs, and
/// no other.
pub proof fn law_listing_has_same_aliases(v: Seq<Alias>, of: Seq<Alias>)
    requires
        is_listing(v, of),
    ensures
        v.to_multiset() == of.to_multiset(),
        v.len() == of.len(),
{
    broadcast use vstd::seq_lib::group_to_multiset_ensures;

    assert forall|a: Alias| v.to_multiset().count(a) == of.to_multiset().count(a) by {
        lemma_count(v, a);
        lemma_count(of, a);
        assert(called(v, a.kind, a.name) == called(of, a.kind, a.name));
    }
    assert(v.to_multiset() =~= of.to_multiset());
    v.to_multiset_ensures();
    of.to_multiset_ensures();
}

/// An alias of this kind and name is where the aliases called so show one.
proof fn lemma_called_is_there(v: Seq<Alias>, kind: AliasKind, name: Seq<char>) -> (i: int)
    requires
        called(v, kind, name).len() > 0,
    ensures
        0 <= i < v.len(),
        v[i].kind == kind && v[i].name == name,
    decreases v.len(),
{
    reveal(Seq::filter);
    if v.last().kind == kind && v.last().name == name {
        v.len() - 1
    } else {
        lemma_called_is_there(v.drop_last(), kind, name)
    }
}

proof fn lemma_listings_agree(v: Seq<Alias>, w: Seq<Alias>)
    requires
        in_listing_order(v),
        in_listing_order(w),
        forall|kind: AliasKind, name: Seq<char>| #[trigger]
            called(v, kind, name) == called(w, kind, name),
    ensures
        v == w,
    decreases v.len(),
{
    reveal(Seq::filter);
    if v.len() == 0 {
        if w.len() > 0 {
            let y = w.last();
            assert(called(v, y.kind, y.name) == called(w, y.kind, y.name));
        }
    } else {
        let x = v.last();
        let vx = v.drop_last();
        assert(v =~= vx.push(x));
        lemma_called_push(vx, x, x.kind, x.name);
        assert(called(v, x.kind, x.name) == called(w, x.kind, x.name));
        let i = lemma_called_is_there(w, x.kind, x.name);
        let y = w.last();
        let wy = w.drop_last();
        assert(w =~= wy.push(y));
        lemma_called_push(wy, y, y.kind, y.name);
        assert(called(v, y.kind, y.name) == called(w, y.kind, y.name));
        let j = lemma_called_is_there(v, y.kind, y.name);
        lemma_order_parts(x, y);
        lemma_order_parts(y, x);
        assert(!listed_before(y, x)) by {
            lemma_order_parts(y, w[i]);
            assert(listed_before(y, x) == listed_before(y, w[i]));
        }
        assert(!listed_before(x, y)) by {
            lemma_order_parts(x, v[j]);
            assert(listed_before(x, y) == listed_before(x, v[j]));
        }
        assert(called(v, x.kind, x.name).last() == x);
        assert(called(w, y.kind, y.name).last() == y);
        assert(x == y);
        assert forall|kind: AliasKind, name: Seq<char>| #[trigger]
            called(vx, kind, name) == called(wy, kind, name) by {
            lemma_called_push(vx, x, kind, name);
            lemma_called_push(wy, x, kind, name);
            assert(called(v, kind, name) == called(w, kind, name));
            if x.kind == kind && x.name == name {
                assert(called(v, kind, name).drop_last() =~= called(vx, kind, name));
                assert(called(w, kind, name).drop_last() =~= called(wy, kind, name));
            }
        }
        lemma_listings_agree(vx, wy);
    }
}

/// There is just one listing of the same aliases.
pub proof fn law_listing_is_unique(v: Seq<Alias>, w: Seq<Alias>, of: Seq<Alias>)
    requires
        is_listing(v, of),
        is_listing(w, of),
    ensures
        v == w,
{
    assert forall|kind: AliasKind, name: Seq<char>| #[trigger]
        called(v, kind, name) == called(w, kind, name) by {
        assert(called(v, kind, name) == called(of, kind, name));
        assert(called(w, kind, name) == called(of, kind, name));
    }
    lemma_listings_agree(v, w);
}

// ---------------------------------------------------------------------------
// Laws: what is shown
// ---------------------------------------------------------------------------

/// A kind is shown where it is asked for, or where no kind is.
pub proof fn law_kinds_are_shown_as_asked(f: ListFilter, kind: AliasKind)
    ensures
        !f.commands && !f.folders && !f.ssh ==> f.shows(kind),
        f.commands || f.folders || f.ssh ==> (f.shows(AliasKind::Command) == f.commands && f.shows(
            AliasKind::Folder,
        ) == f.folders && f.shows(AliasKind::Ssh) == f.ssh),
{
}

/// An alias of a kind that is shown is selected where the text looked for
/// stands anywhere in its name or in its action, upper and lower case alike,
/// and where none is looked for.
pub proof fn law_search_finds_any_part(f: ListFilter, a: Alias, x: Seq<char>, y: Seq<char>)
    requires
        !f.commands && !f.folders && !f.ssh || match a.kind {
            AliasKind::Command => f.commands,
            AliasKind::Folder => f.folders,
            AliasKind::Ssh => f.ssh,
        },
        f.search matches Some(t) ==> text::lowercase(a.name) == x + text::lowercase(t@) + y
            || text::lowercase(a.action) == x + text::lowercase(t@) + y,
    ensures
        f.selects(a),
{
    if let Some(t) = f.search {
        text::law_part_is_found(x, text::lowercase(t@), y);
    }
}

/// Nothing else is selected: the kind of what is selected is shown, and the
/// text looked for stands in its name or its action.
pub proof fn law_search_finds_nothing_else(f: ListFilter, a: Alias) -> (r: (Seq<char>, Seq<char>))
    requires
        f.selects(a),
    ensures
        !f.commands && !f.folders && !f.ssh || match a.kind {
            AliasKind::Command => f.commands,
            AliasKind::Folder => f.folders,
            AliasKind::Ssh => f.ssh,
        },
        f.search matches Some(t) ==> text::lowercase(a.name) == r.0 + text::lowercase(t@) + r.1
            || text::lowercase(a.action) == r.0 + text::lowercase(t@) + r.1,
{
    match f.search {
        Some(t) => if text::occurs_in(text::lowercase(a.name), text::lowercase(t@)) {
            text::law_found_is_a_part(text::lowercase(a.name), text::lowercase(t@))
        } else {
            text::law_found_is_a_part(text::lowercase(a.action), text::lowercase(t@))
        },
        None => (Seq::empty(), Seq::empty()),
    }
}

/// Aliases are selected one by one, in their order.
pub proof fn law_aliases_are_selected_one_by_one(v: Seq<Alias>, a: Alias, f: ListFilter)
    ensures
        selection(Seq::<Alias>::empty(), f).len() == 0,
        f.selects(a) ==> selection(v.push(a), f) == selection(v, f).push(a),
        !f.selects(a) ==> selection(v.push(a), f) == selection(v, f),
{
    reveal(Seq::filter);
    assert(v.push(a).drop_last() =~= v);
}

proof fn lemma_selected(v: Seq<Alias>, a: Alias, f: ListFilter)
    ensures
        selection(v, f).contains(a) <==> v.contains(a) && f.selects(a),
    decreases v.len(),
{
    reveal(Seq::filter);
    if v.len() > 0 {
        let w = v.drop_last();
        let x = v.last();
        assert(v =~= w.push(x));
        lemma_selected(w, a, f);
        law_aliases_are_selected_one_by_one(w, x, f);
        let s = selection(w, f);
        if w.contains(a) {
            let i = choose|i: int| 0 <= i < w.len() && w[i] == a;
            assert(v[i] == a);
        }
        if v.contains(a) && a != x {
            let i = choose|i: int| 0 <= i < v.len() && v[i] == a;
            assert(w[i] == a);
        }
        assert(v[v.len() - 1] == x);
        if s.contains(a) {
            let i = choose|i: int| 0 <= i < s.len() && s[i] == a;
            assert(s.push(x)[i] == a);
        }
        assert(s.push(x)[s.len() as int] == x);
        if s.push(x).contains(a) && a != x {
            let i = choose|i: int| 0 <= i < s.push(x).len() && s.push(x)[i] == a;
            assert(s[i] == a);
        }
    }
}

proof fn lemma_listing_contains(v: Seq<Alias>, of: Seq<Alias>, a: Alias)
    requires
        is_listing(v, of),
    ensures
        v.contains(a) <==> of.contains(a),
{
    law_listing_has_same_aliases(v, of);
    v.to_multiset_ensures();
    of.to_multiset_ensures();
    assert(v.to_multiset().count(a) == of.to_multiset().count(a));
}

/// `am list` shows every alias of the file that is asked for: one of a kind
/// that is shown, with the text looked for anywhere in its name or its action.
pub proof fn law_list_shows_what_is_asked_for(
    r: Listing,
    content: Seq<char>,
    f: ListFilter,
    a: Alias,
    x: Seq<char>,
    y: Seq<char>,
)
    requires
        is_answer(r, content, f),
        store::entries_in(content).contains(a),
        !f.commands && !f.folders && !f.ssh || match a.kind {
            AliasKind::Command => f.commands,
            AliasKind::Folder => f.folders,
            AliasKind::Ssh => f.ssh,
        },
        f.search matches Some(t) ==> text::lowercase(a.name) == x + text::lowercase(t@) + y
            || text::lowercase(a.action) == x + text::lowercase(t@) + y,
    ensures
        r matches Listing::Rows(rows) && exists|k: int|
            0 <= k < rows@.len() && #[trigger] rows@[k]@ == a,
{
    let all = store::entries_in(content);
    law_search_finds_any_part(f, a, x, y);
    lemma_selected(all, a, f);
    let i = choose|i: int| 0 <= i < all.len() && all[i] == a;
    let s = selection(all, f);
    let j = choose|j: int| 0 <= j < s.len() && s[j] == a;
    assert(s.len() > 0);
    if let Listing::Rows(rows) = r {
        let v = entry::aliases(rows@);
        lemma_listing_contains(v, s, a);
        let k = choose|k: int| 0 <= k < v.len() && v[k] == a;
        assert(rows@[k]@ == v[k]);
    }
}

/// `am list` shows nothing else, and says so where there is nothing to show.
pub proof fn law_list_shows_nothing_else(
    r: Listing,
    content: Seq<char>,
    f: ListFilter,
    k: int,
) -> (parts: (Seq<char>, Seq<char>))
    requires
        is_answer(r, content, f),
    ensures
        r matches Listing::Rows(rows) ==> rows@.len() > 0 && (0 <= k < rows@.len() ==> {
            let a = rows@[k]@;
            &&& store::entries_in(content).contains(a)
            &&& !f.commands && !f.folders && !f.ssh || match a.kind {
                AliasKind::Command => f.commands,
                AliasKind::Folder => f.folders,
                AliasKind::Ssh => f.ssh,
            }
            &&& f.search matches Some(t) ==> text::lowercase(a.name) == parts.0 + text::lowercase(
                t@,
            ) + parts.1 || text::lowercase(a.action) == parts.0 + text::lowercase(t@) + parts.1
        }),
        r matches Listing::Nothing(notice) ==> notice@ == (if store::entries_in(content).len() == 0 {
            "No aliases managed yet. Run `am new` to create one."@
        } else {
            "No managed alias matches."@
        }),
{
    if let Listing::Rows(rows) = r {
        if 0 <= k < rows@.len() {
            let v = entry::aliases(rows@);
            let a = rows@[k]@;
            assert(v[k] == a);
            lemma_listing_contains(v, selection(store::entries_in(content), f), a);
            lemma_selected(store::entries_in(content), a, f);
            law_search_finds_nothing_else(f, a)
        } else {
            (Seq::empty(), Seq::empty())
        }
    } else {
        (Seq::empty(), Seq::empty())
    }
}

/// The order of what `am list` shows: commands before folders before ssh
/// connections; within a kind by name, upper and lower case alike, and names
/// that differ in case alone by code point. Aliases of one kind and name stay in the
/// order of the file, and each is shown as often as it occurs.
pub proof fn law_list_is_in_order(
    r: Listing,
    content: Seq<char>,
    f: ListFilter,
    i: int,
    j: int,
    kind: AliasKind,
    name: Seq<char>,
)
    requires
        is_answer(r, content, f),
    ensures
        r matches Listing::Rows(rows) ==> (0 <= i < j < rows@.len() ==> {
            let a = rows@[i]@;
            let b = rows@[j]@;
            &&& b.kind is Command ==> a.kind is Command
            &&& a.kind is Ssh ==> b.kind is Ssh
            &&& a.kind == b.kind ==> !text::before(text::lowercase(b.name), text::lowercase(a.name))
            &&& a.kind == b.kind && text::lowercase(a.name) == text::lowercase(b.name)
                ==> !text::before(b.name, a.name)
        }),
        r matches Listing::Rows(rows) ==> entry::aliases(rows@).filter(
            |a: Alias| a.kind == kind && a.name == name,
        ) == store::entries_in(content).filter(|a: Alias| f.selects(a)).filter(
            |a: Alias| a.kind == kind && a.name == name,
        ),
{
    if let Listing::Rows(rows) = r {
        let v = entry::aliases(rows@);
        if 0 <= i < j < rows@.len() {
            assert(v[i] == rows@[i]@ && v[j] == rows@[j]@);
            assert(!listed_before(v[j], v[i]));
        }
        assert(called(v, kind, name) == called(
            selection(store::entries_in(content), f),
            kind,
            name,
        ));
    }
}

/// A row of the table shows all of the kind, the name and the action.
pub proof fn law_rows_show_the_alias(a: Alias)
    ensures
        row_of(a).len() == 3,
        row_of(a)[0] == (match a.kind {
            AliasKind::Command => "command"@,
            AliasKind::Folder => "folder"@,
            AliasKind::Ssh => "ssh"@,
        }),
        row_of(a)[1] == a.name,
        row_of(a)[2] == a.action,
{
}

/// The table has a header and then one row for each alias, in their order, with
/// all of its kind, its name and its action.
pub proof fn law_table_shows_every_alias(t: comfy_table::Table, v: Seq<Alias>, i: int)
    requires
        is_table_of(t, v),
        0 <= i < v.len(),
    ensures
        table_header(t) == seq!["type"@, "alias"@, "action"@],
        table_rows(t).len() == v.len(),
        table_rows(t)[i].len() == 3,
        table_rows(t)[i][0] == (match v[i].kind {
            AliasKind::Command => "command"@,
            AliasKind::Folder => "folder"@,
            AliasKind::Ssh => "ssh"@,
        }),
        table_rows(t)[i][1] == v[i].name,
        table_rows(t)[i][2] == v[i].action,
{
}

} // verus!
