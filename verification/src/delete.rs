//! Deleting an alias: which one, and that it is meant.
use vstd::prelude::*;

use crate::cli;
use crate::entry;
use crate::entry::{Alias, AliasEntry, AliasKind};
use crate::error::AmError;
use crate::listing;
use crate::paths;
use crate::store;
use crate::store::Update;
use crate::text;

verus! {

/// What has to be done next to delete an alias.
pub enum Deletion {
    /// Nothing is deleted; says why.
    Nothing(String),
    /// One of these has to be picked.
    Pick(Vec<AliasEntry>),
    /// Deleting this one has to be confirmed.
    Confirm(AliasEntry),
    /// This one is to be deleted.
    Remove(AliasEntry),
}

/// The first of the aliases that is called `name`.
pub open spec fn first_named(v: Seq<Alias>, name: Seq<char>) -> Option<Alias>
    decreases v.len(),
{
    if v.len() == 0 {
        None
    } else if v[0].name == name {
        Some(v[0])
    } else {
        first_named(v.drop_first(), name)
    }
}

/// Whether this is what comes next once the alias to delete is known: it is
/// deleted where the request says so, and confirmed first otherwise, which
/// takes somebody to ask.
pub open spec fn asks_first(
    r: Result<Deletion, AmError>,
    target: Alias,
    yes: bool,
    interactive: bool,
) -> bool {
    match r {
        Ok(Deletion::Remove(e)) => yes && e@ == target,
        Ok(Deletion::Confirm(e)) => !yes && interactive && e@ == target,
        Err(AmError::NeedsConfirmation) => !yes && !interactive,
        _ => false,
    }
}

fn ask_first(target: AliasEntry, yes: bool, interactive: bool) -> (r: Result<Deletion, AmError>)
    ensures
        asks_first(r, target@, yes, interactive),
{
    if yes {
        Ok(Deletion::Remove(target))
    } else if interactive {
        Ok(Deletion::Confirm(target))
    } else {
        Err(AmError::NeedsConfirmation)
    }
}

fn find_named(entries: &Vec<AliasEntry>, name: &str) -> (r: Option<AliasEntry>)
    ensures
        match r {
            Some(e) => first_named(entry::aliases(entries@), name@) == Some(e@),
            None => first_named(entry::aliases(entries@), name@) is None,
        },
{
    let ghost all = entry::aliases(entries@);
    let mut i: usize = 0;
    assert(all.skip(0) == all);
    while i < entries.len()
        invariant
            i <= entries@.len(),
            all == entry::aliases(entries@),
            first_named(all, name@) == first_named(all.skip(i as int), name@),
        decreases entries@.len() - i,
    {
        assert(all.skip(i as int)[0] == entries@[i as int]@);
        if text::same_text(entries[i].name.as_str(), name) {
            return Some(entries[i].duplicate());
        }
        assert(all.skip(i as int).drop_first() == all.skip(i + 1));
        i = i + 1;
    }
    None
}

/// Whether this is what a request to delete leads to.
pub open spec fn leads_to(
    r: Result<Deletion, AmError>,
    content: Seq<char>,
    name: Option<Seq<char>>,
    yes: bool,
    interactive: bool,
) -> bool {
    let all = store::entries_in(content);
    match name {
        Some(n) => match first_named(all, n) {
            Some(target) => asks_first(r, target, yes, interactive),
            None => r matches Err(AmError::NotManaged(m)) && m@ == n,
        },
        None => if !interactive {
            r == Err::<Deletion, AmError>(AmError::NotInteractive)
        } else if all.len() == 0 {
            r matches Ok(Deletion::Nothing(notice)) && notice@
                == "No managed aliases to delete. Run `am new` to create one."@
        } else {
            r matches Ok(Deletion::Pick(entries)) && listing::is_listing(
                entry::aliases(entries@),
                all,
            )
        },
    }
}

/// What a request to delete leads to. A name has to be that of a managed
/// alias. Without a name there has to be somebody who picks one from the
/// listing.
pub fn cmd_delete(content: &str, name: Option<&str>, yes: bool, interactive: bool) -> (r: Result<
    Deletion,
    AmError,
>)
    ensures
        leads_to(r, content@, paths::optional_text(name), yes, interactive),
{
    let mut entries: Vec<AliasEntry> = store::load_entries(content);
    assert(entry::aliases(entries@).len() == entries@.len());
    match name {
        Some(n) => match find_named(&entries, n) {
            Some(target) => ask_first(target, yes, interactive),
            None => Err(AmError::NotManaged(n.to_string())),
        },
        None => {
            if let Err(e) = cli::ensure_interactive(interactive) {
                return Err(e);
            }
            if entries.len() == 0 {
                return Ok(
                    Deletion::Nothing(
                        "No managed aliases to delete. Run `am new` to create one.".to_string(),
                    ),
                );
            }
            listing::sort_for_display(&mut entries);
            Ok(Deletion::Pick(entries))
        },
    }
}

/// How an alias is offered to be picked.
pub open spec fn label_of(a: Alias) -> Seq<char> {
    a.name + "  ("@ + a.kind.marker() + ")  "@ + a.action
}

/// How an entry is offered to be picked.
pub fn label(e: &AliasEntry) -> (r: String)
    ensures
        r@ == label_of(e@),
{
    let mut out: String = String::new();
    out.push_str(e.name.as_str());
    out.push_str("  (");
    out.push_str(e.kind.as_str());
    out.push_str(")  ");
    out.push_str(e.action.as_str());
    assert(out@ == label_of(e@));
    out
}

/// Whether this is what picking one of the aliases leads to, or picking none.
pub open spec fn follows_pick(
    r: Result<Deletion, AmError>,
    v: Seq<Alias>,
    index: Option<usize>,
    yes: bool,
    interactive: bool,
) -> bool {
    match index {
        Some(i) => asks_first(r, v[i as int], yes, interactive),
        None => r matches Ok(Deletion::Nothing(notice)) && notice@ == "Cancelled."@,
    }
}

/// What picking one of the entries leads to, or picking none.
pub fn picked(
    entries: &Vec<AliasEntry>,
    index: Option<usize>,
    yes: bool,
    interactive: bool,
) -> (r: Result<Deletion, AmError>)
    requires
        index matches Some(i) ==> i < entries@.len(),
    ensures
        follows_pick(r, entry::aliases(entries@), index, yes, interactive),
{
    match index {
        Some(i) => {
            assert(entry::aliases(entries@)[i as int] == entries@[i as int]@);
            ask_first(entries[i].duplicate(), yes, interactive)
        },
        None => Ok(Deletion::Nothing("Cancelled.".to_string())),
    }
}

pub const PICK_PROMPT: &'static str = "Which alias do you want to delete?";

/// The answer that stands where the user just presses Enter.
pub const DEFAULT_ANSWER: bool = false;

/// Whether an answer says that the alias is to be deleted. No answer is a no.
pub open spec fn consents(answer: Option<bool>) -> bool {
    answer == Some(true)
}

/// What is asked before an alias is deleted.
pub open spec fn question_of(a: Alias) -> Seq<char> {
    "Do you want to delete "@ + a.kind.marker() + " '"@ + a.name + "'?"@
}

/// What is asked before an entry is deleted.
pub fn question(e: &AliasEntry) -> (r: String)
    ensures
        r@ == question_of(e@),
{
    let mut out: String = String::new();
    out.push_str("Do you want to delete ");
    out.push_str(e.kind.as_str());
    out.push_str(" '");
    out.push_str(e.name.as_str());
    out.push_str("'?");
    assert(out@ == question_of(e@));
    out
}

/// Whether this is what the answer leads to.
pub open spec fn follows_answer(r: Deletion, target: AliasEntry, answer: Option<bool>) -> bool {
    if consents(answer) {
        r == Deletion::Remove(target)
    } else {
        r matches Deletion::Nothing(notice) && notice@ == "Not deleted."@
    }
}

/// What the answer to that leads to. No answer is a no.
pub fn confirmed(target: AliasEntry, answer: Option<bool>) -> (r: Deletion)
    ensures
        follows_answer(r, target, answer),
{
    match answer {
        Some(true) => Deletion::Remove(target),
        _ => Deletion::Nothing("Not deleted.".to_string()),
    }
}

/// What is said of an alias that has been deleted.
pub open spec fn deleted_notices(name: Seq<char>) -> Seq<Seq<char>> {
    seq![
        "Deleted alias '"@ + name + "' from ~/"@ + paths::ALIAS_FILE_NAME@ + "."@,
        "Note: if '"@ + name + "' is active in an open shell, run `unalias "@ + name
            + "` there or start a new shell."@,
    ]
}

/// Whether this is what deleting the aliases of a name does to the file.
pub open spec fn is_removal(r: Result<Update, AmError>, content: Seq<char>, name: Seq<char>) -> bool {
    match r {
        Ok(u) => entry::is_named_in(store::entries_in(content), name) && u.content@
            == store::without(content, name) && text::texts(u.notices@) == deleted_notices(name),
        Err(e) => !entry::is_named_in(store::entries_in(content), name) && (e matches
            AmError::NotManaged(m) && m@ == name),
    }
}

/// Deletes the aliases called `name` from the file of aliases. Fails only where
/// there are none.
pub fn remove(content: &str, name: &str) -> (r: Result<Update, AmError>)
    ensures
        is_removal(r, content@, name@),
{
    let (updated, removed): (String, usize) = store::remove_entry_lines(content, name);
    proof {
        store::law_remove_counts_aliases(content@, name@);
        lemma_named(store::entries_in(content@), name@);
    }
    if removed == 0 {
        return Err(AmError::NotManaged(name.to_string()));
    }
    let mut first: String = String::new();
    first.push_str("Deleted alias '");
    first.push_str(name);
    first.push_str("' from ~/");
    first.push_str(paths::ALIAS_FILE_NAME);
    first.push_str(".");
    assert(first@ == deleted_notices(name@)[0]);
    let mut note: String = String::new();
    note.push_str("Note: if '");
    note.push_str(name);
    note.push_str("' is active in an open shell, run `unalias ");
    note.push_str(name);
    note.push_str("` there or start a new shell.");
    assert(note@ == deleted_notices(name@)[1]);
    let notices: Vec<String> = vec![first, note];
    assert(text::texts(notices@) =~= deleted_notices(name@));
    Ok(Update { content: updated, notices })
}

// ---------------------------------------------------------------------------
// Laws
// ---------------------------------------------------------------------------

proof fn lemma_named(v: Seq<Alias>, name: Seq<char>)
    ensures
        v.filter(|a: Alias| a.name == name).len() > 0 <==> entry::is_named_in(v, name),
    decreases v.len(),
{
    reveal(Seq::filter);
    if v.len() > 0 {
        let w = v.drop_last();
        lemma_named(w, name);
        if entry::is_named_in(w, name) {
            let i = choose|i: int| 0 <= i < w.len() && (#[trigger] w[i]).name == name;
            assert(v[i].name == name);
        }
        if entry::is_named_in(v, name) && v.last().name != name {
            let i = choose|i: int| 0 <= i < v.len() && (#[trigger] v[i]).name == name;
            assert(w[i].name == name);
        }
    }
}

/// A stray Enter never deletes anything: only an answer other than the default
/// does.
pub proof fn law_enter_never_deletes(answer: Option<bool>)
    requires
        consents(answer),
    ensures
        answer is Some,
        answer != Some(DEFAULT_ANSWER),
{
}

/// A name is found just where an alias has it, and what is found has it.
pub proof fn law_named_alias_is_found(v: Seq<Alias>, name: Seq<char>)
    ensures
        first_named(v, name) is Some <==> entry::is_named_in(v, name),
        first_named(v, name) matches Some(a) ==> a.name == name && v.contains(a),
    decreases v.len(),
{
    if v.len() > 0 && v[0].name != name {
        let w = v.drop_first();
        law_named_alias_is_found(w, name);
        if let Some(a) = first_named(w, name) {
            let i = choose|i: int| 0 <= i < w.len() && w[i] == a;
            assert(v[i + 1] == a);
        }
        if entry::is_named_in(v, name) {
            let i = choose|i: int| 0 <= i < v.len() && (#[trigger] v[i]).name == name;
            assert(w[i - 1].name == name);
        }
    }
}

/// A deleted alias is gone, and every other alias stays.
pub proof fn law_deleted_alias_is_gone(content: Seq<char>, name: Seq<char>, other: Alias)
    requires
        other.name != name,
    ensures
        !entry::is_named_in(store::entries_in(store::without(content, name)), name),
        store::entries_in(store::without(content, name)).contains(other)
            <==> store::entries_in(content).contains(other),
{
    let all = store::entries_in(content);
    store::law_remove_then_load(content, name);
    lemma_filtered(all, name, other);
}

proof fn lemma_filtered(v: Seq<Alias>, name: Seq<char>, other: Alias)
    requires
        other.name != name,
    ensures
        !entry::is_named_in(v.filter(|a: Alias| a.name != name), name),
        v.filter(|a: Alias| a.name != name).contains(other) <==> v.contains(other),
    decreases v.len(),
{
    reveal(Seq::filter);
    let p = |a: Alias| a.name != name;
    if v.len() > 0 {
        let w = v.drop_last();
        let f = w.filter(p);
        lemma_filtered(w, name, other);
        if v.contains(other) && v.last() != other {
            let i = choose|i: int| 0 <= i < v.len() && v[i] == other;
            assert(w[i] == other);
        }
        if w.contains(other) {
            let i = choose|i: int| 0 <= i < w.len() && w[i] == other;
            assert(v[i] == other);
        }
        if v.last().name != name {
            assert(v.filter(p) == f.push(v.last()));
            assert(v.filter(p).last() == v.last());
            if f.contains(other) {
                let i = choose|i: int| 0 <= i < f.len() && f[i] == other;
                assert(v.filter(p)[i] == other);
            }
            if v.filter(p).contains(other) && v.last() != other {
                let i = choose|i: int| 0 <= i < v.filter(p).len() && v.filter(p)[i] == other;
                assert(f[i] == other);
            }
            if entry::is_named_in(v.filter(p), name) {
                let i = choose|i: int|
                    0 <= i < v.filter(p).len() && (#[trigger] v.filter(p)[i]).name == name;
                assert(f[i].name == name);
            }
        }
    }
}

/// Whatever the alias is, a request without `--yes` never leads straight to a
/// removal: neither by name nor by picking.
pub proof fn law_nothing_goes_unasked(
    r: Result<Deletion, AmError>,
    content: Seq<char>,
    name: Option<Seq<char>>,
    v: Seq<Alias>,
    index: Option<usize>,
    interactive: bool,
)
    requires
        leads_to(r, content, name, false, interactive) || follows_pick(
            r,
            v,
            index,
            false,
            interactive,
        ),
    ensures
        !(r matches Ok(Deletion::Remove(_))),
{
}

/// A request by name is about the first alias of that name, whatever its kind
/// and its action are: it is removed at once with `--yes`, asked about where
/// there is somebody to ask, and refused otherwise.
pub proof fn law_named_alias_is_asked_about(
    r: Result<Deletion, AmError>,
    content: Seq<char>,
    x: Seq<Alias>,
    target: Alias,
    y: Seq<Alias>,
    yes: bool,
    interactive: bool,
)
    requires
        leads_to(r, content, Some(target.name), yes, interactive),
        store::entries_in(content) == x + seq![target] + y,
        forall|k: int| 0 <= k < x.len() ==> (#[trigger] x[k]).name != target.name,
    ensures
        yes ==> (r matches Ok(Deletion::Remove(e)) && e@ == target),
        !yes && interactive ==> (r matches Ok(Deletion::Confirm(e)) && e@ == target),
        !yes && !interactive ==> r == Err::<Deletion, AmError>(AmError::NeedsConfirmation),
{
    law_first_of_the_name_is_found(x, target, y);
}

/// The first alias of a name is the one that is found.
pub proof fn law_first_of_the_name_is_found(x: Seq<Alias>, target: Alias, y: Seq<Alias>)
    requires
        forall|k: int| 0 <= k < x.len() ==> (#[trigger] x[k]).name != target.name,
    ensures
        first_named(x + seq![target] + y, target.name) == Some(target),
    decreases x.len(),
{
    let v = x + seq![target] + y;
    if x.len() == 0 {
        assert(v[0] == target);
    } else {
        let w = x.drop_first();
        assert(v[0] == x[0]);
        assert(v.drop_first() =~= w + seq![target] + y);
        assert forall|k: int| 0 <= k < w.len() implies (#[trigger] w[k]).name != target.name by {
            assert(w[k] == x[k + 1]);
        }
        law_first_of_the_name_is_found(w, target, y);
    }
}

/// A name that no alias has is refused, whatever else is asked.
pub proof fn law_unknown_name_is_refused(
    r: Result<Deletion, AmError>,
    content: Seq<char>,
    name: Seq<char>,
    yes: bool,
    interactive: bool,
)
    requires
        leads_to(r, content, Some(name), yes, interactive),
        forall|k: int|
            0 <= k < store::entries_in(content).len() ==> (#[trigger] store::entries_in(
                content,
            )[k]).name != name,
    ensures
        r matches Err(AmError::NotManaged(m)) && m@ == name,
{
    law_named_alias_is_found(store::entries_in(content), name);
}

/// Without a name every alias of the file is offered, where there is somebody
/// to pick and something to pick from.
pub proof fn law_every_alias_is_offered(
    r: Result<Deletion, AmError>,
    content: Seq<char>,
    yes: bool,
    interactive: bool,
)
    requires
        leads_to(r, content, None, yes, interactive),
    ensures
        !interactive ==> r == Err::<Deletion, AmError>(AmError::NotInteractive),
        interactive && store::entries_in(content).len() > 0 ==> (r matches Ok(
            Deletion::Pick(entries),
        ) && entries@.len() == store::entries_in(content).len() && entry::aliases(
            entries@,
        ).to_multiset() == store::entries_in(content).to_multiset()),
        interactive && store::entries_in(content).len() == 0 ==> r matches Ok(Deletion::Nothing(_)),
{
    if let Ok(Deletion::Pick(entries)) = r {
        listing::law_listing_has_same_aliases(entry::aliases(entries@), store::entries_in(content));
    }
}

/// What was picked is what is asked about, whatever it is; picking nothing
/// deletes nothing.
pub proof fn law_picked_alias_is_asked_about(
    r: Result<Deletion, AmError>,
    v: Seq<Alias>,
    index: Option<usize>,
    yes: bool,
    interactive: bool,
)
    requires
        follows_pick(r, v, index, yes, interactive),
    ensures
        index matches Some(i) ==> {
            &&& yes ==> (r matches Ok(Deletion::Remove(e)) && e@ == v[i as int])
            &&& !yes && interactive ==> (r matches Ok(Deletion::Confirm(e)) && e@ == v[i as int])
            &&& !yes && !interactive ==> r == Err::<Deletion, AmError>(AmError::NeedsConfirmation)
        },
        index is None ==> r matches Ok(Deletion::Nothing(_)),
{
}

/// Only a yes removes, and it removes what was asked about.
pub proof fn law_only_a_yes_removes(r: Deletion, target: AliasEntry, answer: Option<bool>)
    requires
        follows_answer(r, target, answer),
    ensures
        answer == Some(true) <==> r is Remove,
        r matches Deletion::Remove(e) ==> e == target,
        answer != Some(true) ==> (r matches Deletion::Nothing(notice) && notice@
            == "Not deleted."@),
{
}

/// What is asked names the kind and all of the name of the alias; what is
/// offered shows all of its name, its kind and its action.
pub proof fn law_questions_name_the_alias(a: Alias)
    ensures
        ({
            let word = match a.kind {
                AliasKind::Command => "command"@,
                AliasKind::Folder => "folder"@,
                AliasKind::Ssh => "ssh"@,
            };
            &&& question_of(a) == "Do you want to delete "@ + word + " '"@ + a.name + "'?"@
            &&& label_of(a) == a.name + "  ("@ + word + ")  "@ + a.action
        }),
{
}

/// Deleting takes every alias of the name out of the file and keeps the others
/// in their order; a name that no alias has is refused. All of the name is in
/// what is said.
pub proof fn law_removal_takes_the_name_out(
    r: Result<Update, AmError>,
    content: Seq<char>,
    name: Seq<char>,
)
    requires
        is_removal(r, content, name),
    ensures
        r is Ok <==> exists|k: int|
            0 <= k < store::entries_in(content).len() && (#[trigger] store::entries_in(
                content,
            )[k]).name == name,
        r matches Ok(u) ==> store::entries_in(u.content@) == store::entries_in(content).filter(
            |a: Alias| a.name != name,
        ),
        r matches Ok(u) ==> u.notices@.len() == 2 && u.notices@[0]@ == "Deleted alias '"@ + name
            + "' from ~/.alias-management."@ && u.notices@[1]@ == "Note: if '"@ + name
            + "' is active in an open shell, run `unalias "@ + name
            + "` there or start a new shell."@,
        r matches Err(e) ==> (e matches AmError::NotManaged(m) && m@ == name),
{
    if let Ok(u) = r {
        store::law_remove_then_load(content, name);
        reveal_strlit("' from ~/");
        reveal_strlit(".alias-management");
        reveal_strlit(".");
        reveal_strlit("' from ~/.alias-management.");
        let head = "Deleted alias '"@ + name;
        assert("' from ~/"@ + paths::ALIAS_FILE_NAME@ + "."@ =~= "' from ~/.alias-management."@);
        assert(head + "' from ~/"@ + paths::ALIAS_FILE_NAME@ + "."@ =~= head + ("' from ~/"@
            + paths::ALIAS_FILE_NAME@ + "."@));
        assert(text::texts(u.notices@).len() == u.notices@.len());
        assert(deleted_notices(name).len() == 2);
        assert(text::texts(u.notices@)[0] == u.notices@[0]@);
        assert(text::texts(u.notices@)[1] == u.notices@[1]@);
    }
}

/// The aliases are offered in the order of a listing.
pub proof fn law_aliases_are_offered_in_order(
    r: Result<Deletion, AmError>,
    content: Seq<char>,
    yes: bool,
    interactive: bool,
    i: int,
    j: int,
)
    requires
        leads_to(r, content, None, yes, interactive),
    ensures
        r matches Ok(Deletion::Pick(entries)) ==> (0 <= i < j < entries@.len() ==> {
            let a = entries@[i]@;
            let b = entries@[j]@;
            &&& b.kind is Command ==> a.kind is Command
            &&& a.kind is Ssh ==> b.kind is Ssh
            &&& a.kind == b.kind ==> !text::before(text::lowercase(b.name), text::lowercase(a.name))
            &&& a.kind == b.kind && text::lowercase(a.name) == text::lowercase(b.name)
                ==> !text::before(b.name, a.name)
        }),
{
    if let Ok(Deletion::Pick(entries)) = r {
        let v = entry::aliases(entries@);
        if 0 <= i < j < v.len() {
            assert(v[i] == entries@[i]@ && v[j] == entries@[j]@);
            assert(!listing::listed_before(v[j], v[i]));
        }
    }
}

} // verus!
