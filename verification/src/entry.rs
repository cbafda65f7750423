//! The managed aliases: their kinds and their entries.
use vstd::prelude::*;

use crate::text;

verus! {

/// What an alias is for. Listings show commands first, then folders, then ssh
/// connections.
#[derive(Debug, Clone, Copy, PartialEq, Eq, PartialOrd, Ord, Structural)]
pub enum AliasKind {
    Command,
    Folder,
    Ssh,
}

impl AliasKind {
    /// The word that marks an alias of this kind.
    pub open spec fn marker(self) -> Seq<char> {
        match self {
            AliasKind::Command => "command"@,
            AliasKind::Folder => "folder"@,
            AliasKind::Ssh => "ssh"@,
        }
    }

    /// The place of this kind in a listing.
    pub open spec fn rank(self) -> int {
        match self {
            AliasKind::Command => 0,
            AliasKind::Folder => 1,
            AliasKind::Ssh => 2,
        }
    }

    /// The word that marks an alias of this kind.
    pub fn as_str(self) -> (r: &'static str)
        ensures
            r@ == self.marker(),
    {
        match self {
            AliasKind::Command => "command",
            AliasKind::Folder => "folder",
            AliasKind::Ssh => "ssh",
        }
    }

    /// The kind that `s` marks, if it is the marker of one.
    pub fn from_marker(s: &str) -> (r: Option<Self>)
        ensures
            r matches Some(kind) ==> s@ == kind.marker(),
            r is None ==> forall|kind: AliasKind| s@ != #[trigger] kind.marker(),
    {
        if text::same_text(s, "command") {
            Some(AliasKind::Command)
        } else if text::same_text(s, "folder") {
            Some(AliasKind::Folder)
        } else if text::same_text(s, "ssh") {
            Some(AliasKind::Ssh)
        } else {
            None
        }
    }
}

/// Each kind is told by its marker: `as_str` and `from_marker` undo each other.
pub proof fn law_markers_are_distinct(a: AliasKind, b: AliasKind)
    ensures
        a.marker() == b.marker() <==> a == b,
{
    reveal_strlit("command");
    reveal_strlit("folder");
    reveal_strlit("ssh");
    if a != b {
        assert(a.marker().len() != b.marker().len());
    }
}

/// A managed alias as a value.
#[verifier::ext_equal]
pub struct Alias {
    pub name: Seq<char>,
    pub action: Seq<char>,
    pub kind: AliasKind,
}

/// A managed alias.
#[derive(Debug, Clone, PartialEq, Eq)]
pub struct AliasEntry {
    pub name: String,
    pub action: String,
    pub kind: AliasKind,
}

impl View for AliasEntry {
    type V = Alias;

    open spec fn view(&self) -> Alias {
        Alias { name: self.name@, action: self.action@, kind: self.kind }
    }
}

impl AliasEntry {
    /// Another entry with the same contents.
    pub fn duplicate(&self) -> (r: AliasEntry)
        ensures
            r@ == self@,
    {
        AliasEntry { name: self.name.clone(), action: self.action.clone(), kind: self.kind }
    }
}

/// The aliases in a list of entries.
pub open spec fn aliases(v: Seq<AliasEntry>) -> Seq<Alias> {
    v.map_values(|e: AliasEntry| e@)
}

/// Whether one of the aliases is called `name`.
pub open spec fn is_named_in(v: Seq<Alias>, name: Seq<char>) -> bool {
    exists|i: int| 0 <= i < v.len() && (#[trigger] v[i]).name == name
}

/// An alias carries all of its entry: the whole name, the whole action and the
/// kind. A list of entries carries the aliases one for one.
pub proof fn law_aliases_carry_their_entries(v: Seq<AliasEntry>, i: int)
    requires
        0 <= i < v.len(),
    ensures
        aliases(v).len() == v.len(),
        aliases(v)[i].name == v[i].name@,
        aliases(v)[i].action == v[i].action@,
        aliases(v)[i].kind == v[i].kind,
        aliases(v)[i] == v[i]@,
{
}

/// The words that mark the kinds.
pub proof fn law_markers_are_these_words(kind: AliasKind)
    ensures
        kind is Command <==> kind.marker() == "command"@,
        kind is Folder <==> kind.marker() == "folder"@,
        kind is Ssh <==> kind.marker() == "ssh"@,
{
    law_markers_are_distinct(kind, AliasKind::Command);
    law_markers_are_distinct(kind, AliasKind::Folder);
    law_markers_are_distinct(kind, AliasKind::Ssh);
}

/// A name is taken just where one of the aliases has it.
pub proof fn law_names_are_taken_one_by_one(v: Seq<Alias>, a: Alias, name: Seq<char>)
    ensures
        !is_named_in(Seq::<Alias>::empty(), name),
        is_named_in(v.push(a), name) <==> a.name == name || is_named_in(v, name),
{
    if is_named_in(v, name) {
        let i = choose|i: int| 0 <= i < v.len() && (#[trigger] v[i]).name == name;
        assert(v.push(a)[i].name == name);
    }
    if a.name == name {
        assert(v.push(a)[v.len() as int].name == name);
    }
    if is_named_in(v.push(a), name) && a.name != name {
        let i = choose|i: int| 0 <= i < v.push(a).len() && (#[trigger] v.push(a)[i]).name == name;
        assert(v[i].name == name);
    }
}

} // verus!
