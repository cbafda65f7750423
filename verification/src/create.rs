//! Creating an alias: what a request gives up front, what has to be found out
//! next, and what is stored in the end.
use vstd::prelude::*;

use crate::cli;
use crate::entry;
use crate::entry::{Alias, AliasEntry, AliasKind};
use crate::error::AmError;
use crate::line;
use crate::paths;
use crate::store;
use crate::store::Update;
use crate::text;
use crate::validate;

verus! {

// ---------------------------------------------------------------------------
// Drafts
// ---------------------------------------------------------------------------

/// What is known of the folder of an alias.
#[derive(Debug, Clone, Copy, PartialEq, Eq, Structural)]
pub enum FolderCheck {
    /// Nobody has looked at it yet.
    Open,
    /// It is not a directory.
    Absent,
    /// It is the one to use.
    Settled,
}

/// An alias as far as it is known. `S` stands for a text: `String` in a value,
/// `Seq<char>` in its view.
pub struct Draft<S> {
    pub kind: Option<AliasKind>,
    pub name: Option<S>,
    /// The name was given up front.
    pub given: bool,
    /// The name has been looked up in the shell.
    pub cleared: bool,
    pub command: Option<S>,
    pub folder: Option<S>,
    pub check: FolderCheck,
    pub user: Option<S>,
    pub host: Option<S>,
}

/// The text of an optional string.
pub open spec fn opt(s: Option<String>) -> Option<Seq<char>> {
    match s {
        Some(t) => Some(t@),
        None => None,
    }
}

impl View for Draft<String> {
    type V = Draft<Seq<char>>;

    open spec fn view(&self) -> Draft<Seq<char>> {
        Draft {
            kind: self.kind,
            name: opt(self.name),
            given: self.given,
            cleared: self.cleared,
            command: opt(self.command),
            folder: opt(self.folder),
            check: self.check,
            user: opt(self.user),
            host: opt(self.host),
        }
    }
}

/// What has to be found out next, or done.
pub enum Step<S> {
    AskKind,
    AskName,
    /// Whether the name resolves to something in the shell.
    LookUp(S),
    AskCommand,
    AskFolder,
    /// Whether the path is a directory.
    Inspect(S),
    /// Whether to go on with a path that is not a directory.
    Confirm(S),
    AskUser,
    AskHost,
    /// Everything is known.
    Finish,
}

impl View for Step<String> {
    type V = Step<Seq<char>>;

    open spec fn view(&self) -> Step<Seq<char>> {
        match self {
            Step::AskKind => Step::AskKind,
            Step::AskName => Step::AskName,
            Step::LookUp(name) => Step::LookUp(name@),
            Step::AskCommand => Step::AskCommand,
            Step::AskFolder => Step::AskFolder,
            Step::Inspect(path) => Step::Inspect(path@),
            Step::Confirm(path) => Step::Confirm(path@),
            Step::AskUser => Step::AskUser,
            Step::AskHost => Step::AskHost,
            Step::Finish => Step::Finish,
        }
    }
}

/// What has to be found out next: the kind, then the name, then the rest.
pub open spec fn step_of(d: Draft<Seq<char>>) -> Step<Seq<char>> {
    match (d.kind, d.name) {
        (None, _) => Step::AskKind,
        (Some(_), None) => Step::AskName,
        (Some(kind), Some(name)) => if !d.cleared {
            Step::LookUp(name)
        } else {
            match kind {
                AliasKind::Command => if d.command is None {
                    Step::AskCommand
                } else {
                    Step::Finish
                },
                AliasKind::Folder => match (d.folder, d.check) {
                    (None, _) => Step::AskFolder,
                    (Some(path), FolderCheck::Open) => Step::Inspect(path),
                    (Some(path), FolderCheck::Absent) => Step::Confirm(path),
                    (Some(path), FolderCheck::Settled) => Step::Finish,
                },
                AliasKind::Ssh => if d.user is None {
                    Step::AskUser
                } else if d.host is None {
                    Step::AskHost
                } else {
                    Step::Finish
                },
            }
        },
    }
}

/// The alias that a draft with everything known describes. There is none where
/// the path of the folder cannot be stored.
pub open spec fn alias_of(d: Draft<Seq<char>>, home: Seq<char>) -> Option<Alias> {
    match (d.kind, d.name) {
        (Some(AliasKind::Command), Some(name)) => Some(
            Alias { name, action: d.command->0, kind: AliasKind::Command },
        ),
        (Some(AliasKind::Folder), Some(name)) => match paths::folder_command(d.folder->0, home) {
            Some(action) => Some(Alias { name, action, kind: AliasKind::Folder }),
            None => None,
        },
        (Some(AliasKind::Ssh), Some(name)) => Some(
            Alias {
                name,
                action: validate::ssh_command(d.user->0, d.host->0),
                kind: AliasKind::Ssh,
            },
        ),
        _ => None,
    }
}

pub(crate) fn duplicate(s: &String) -> (r: String)
    ensures
        r@ == s@,
{
    s.as_str().to_string()
}

impl Draft<String> {
    /// What has to be found out next.
    pub fn next_step(&self) -> (r: Step<String>)
        ensures
            r@ == step_of(self@),
    {
        let kind: AliasKind = match self.kind {
            Some(kind) => kind,
            None => {
                return Step::AskKind;
            },
        };
        let name: &String = match &self.name {
            Some(name) => name,
            None => {
                return Step::AskName;
            },
        };
        if !self.cleared {
            return Step::LookUp(duplicate(name));
        }
        match kind {
            AliasKind::Command => match &self.command {
                Some(_) => Step::Finish,
                None => Step::AskCommand,
            },
            AliasKind::Folder => match &self.folder {
                None => Step::AskFolder,
                Some(path) => match self.check {
                    FolderCheck::Open => Step::Inspect(duplicate(path)),
                    FolderCheck::Absent => Step::Confirm(duplicate(path)),
                    FolderCheck::Settled => Step::Finish,
                },
            },
            AliasKind::Ssh => if self.user.is_none() {
                Step::AskUser
            } else if self.host.is_none() {
                Step::AskHost
            } else {
                Step::Finish
            },
        }
    }

    /// The entry that a draft with everything known describes.
    pub fn finish(&self, home: &str) -> (r: Result<AliasEntry, AmError>)
        requires
            step_of(self@) is Finish,
        ensures
            match r {
                Ok(e) => alias_of(self@, home@) == Some(e@),
                Err(e) => alias_of(self@, home@) is None && e == AmError::UnsafePath,
            },
    {
        let name: String = match &self.name {
            Some(name) => duplicate(name),
            None => String::new(),
        };
        match (self.kind, &self.command, &self.folder, &self.user, &self.host) {
            (Some(AliasKind::Command), Some(command), _, _, _) => Ok(
                AliasEntry { name, action: duplicate(command), kind: AliasKind::Command },
            ),
            (Some(AliasKind::Folder), _, Some(path), _, _) => {
                match paths::folder_action(path.as_str(), home) {
                    Ok(action) => Ok(AliasEntry { name, action, kind: AliasKind::Folder }),
                    Err(e) => Err(e),
                }
            },
            (Some(AliasKind::Ssh), _, _, Some(user), Some(host)) => Ok(
                AliasEntry {
                    name,
                    action: validate::ssh_action(user.as_str(), host.as_str()),
                    kind: AliasKind::Ssh,
                },
            ),
            _ => Err(AmError::UnsafePath),
        }
    }
}

// ---------------------------------------------------------------------------
// Requests
// ---------------------------------------------------------------------------

/// The argument at a place, if there is one.
pub open spec fn arg(args: Seq<Seq<char>>, i: int) -> Option<Seq<char>> {
    if 0 <= i < args.len() {
        Some(args[i])
    } else {
        None
    }
}

/// The same text without white space around it.
pub open spec fn neat(s: Option<Seq<char>>) -> Option<Seq<char>> {
    match s {
        Some(t) => Some(text::trimmed(t)),
        None => None,
    }
}

/// The user and the host that two arguments give. A first argument alone may
/// hold both, with `@` between them.
pub open spec fn login(user: Option<Seq<char>>, host: Option<Seq<char>>) -> (
    Option<Seq<char>>,
    Option<Seq<char>>,
) {
    match (user, host) {
        (Some(u), None) => if u.contains('@') {
            let at = text::find_from(u, '@', 0);
            (Some(u.take(at)), Some(u.skip(at + 1)))
        } else {
            (user, host)
        },
        _ => (user, host),
    }
}

/// What a request gives up front: the kind, then the name and the parts of an
/// alias of this kind, in their order. The folder is the current directory.
pub open spec fn drafted(
    kind: Option<AliasKind>,
    args: Seq<Seq<char>>,
    cwd: Seq<char>,
) -> Draft<Seq<char>> {
    let name = if kind is Some {
        neat(arg(args, 0))
    } else {
        None
    };
    let (user, host) = if kind == Some(AliasKind::Ssh) {
        login(arg(args, 1), arg(args, 2))
    } else {
        (None, None)
    };
    Draft {
        kind,
        name,
        given: name is Some,
        cleared: false,
        command: if kind == Some(AliasKind::Command) {
            neat(arg(args, 1))
        } else {
            None
        },
        folder: if kind == Some(AliasKind::Folder) {
            Some(cwd)
        } else {
            None
        },
        check: if kind == Some(AliasKind::Folder) {
            FolderCheck::Settled
        } else {
            FolderCheck::Open
        },
        user,
        host,
    }
}

/// Whether there is nothing left to ask.
pub open spec fn complete(d: Draft<Seq<char>>) -> bool {
    step_of(Draft { cleared: true, ..d }) is Finish
}

/// What is wrong with a part that was given, if it was.
pub open spec fn problem_of(
    part: Option<Seq<char>>,
    check: spec_fn(Seq<char>) -> Option<Seq<char>>,
) -> Option<Seq<char>> {
    match part {
        Some(t) => check(t),
        None => None,
    }
}

/// The first complaint about a draft, in the order of its parts.
pub open spec fn draft_problem(d: Draft<Seq<char>>, existing: Seq<Alias>) -> Option<Seq<char>> {
    let name = problem_of(d.name, |t: Seq<char>| validate::name_problem(t, existing));
    let command = problem_of(d.command, |t: Seq<char>| validate::action_problem(t));
    let user = problem_of(d.user, |t: Seq<char>| validate::user_problem(t));
    let host = problem_of(d.host, |t: Seq<char>| validate::host_problem(t));
    if name is Some {
        name
    } else if command is Some {
        command
    } else if user is Some {
        user
    } else {
        host
    }
}

fn arg_at(args: &Vec<String>, i: usize) -> (r: Option<String>)
    ensures
        opt(r) == arg(text::texts(args@), i as int),
{
    if i < args.len() {
        assert(text::texts(args@)[i as int] == args@[i as int]@);
        Some(duplicate(&args[i]))
    } else {
        None
    }
}

fn neat_arg_at(args: &Vec<String>, i: usize) -> (r: Option<String>)
    ensures
        opt(r) == neat(arg(text::texts(args@), i as int)),
{
    match arg_at(args, i) {
        Some(t) => Some(text::trim(t.as_str())),
        None => None,
    }
}

fn split_login(user: Option<String>, host: Option<String>) -> (r: (Option<String>, Option<String>))
    ensures
        (opt(r.0), opt(r.1)) == login(opt(user), opt(host)),
{
    if host.is_some() {
        return (user, host);
    }
    match user {
        Some(u) => {
            let v: Vec<char> = text::to_chars(u.as_str());
            let len: usize = v.len();
            let at: usize = text::find_char(&v, '@', 0);
            proof {
                text::lemma_found(v@, '@', 0);
            }
            if at < len {
                assert(u@[at as int] == '@');
                assert(u@.take(at as int) == u@.subrange(0, at as int));
                assert(u@.skip(at + 1) == u@.subrange(at + 1, u@.len() as int));
                (Some(text::substring(&v, 0, at)), Some(text::substring(&v, at + 1, len)))
            } else {
                (Some(u), host)
            }
        },
        None => (user, host),
    }
}

/// Whether this is what a request for a new alias begins with.
pub open spec fn begins(
    r: Result<Draft<String>, AmError>,
    kind: Option<AliasKind>,
    args: Seq<Seq<char>>,
    existing: Seq<Alias>,
    cwd: Seq<char>,
    interactive: bool,
) -> bool {
    let d = drafted(kind, args, cwd);
    let problem = draft_problem(d, existing);
    match r {
        Ok(draft) => draft@ == d && (interactive || complete(d)) && problem is None,
        Err(AmError::NotInteractive) => !interactive && !complete(d),
        Err(AmError::Invalid(why)) => (interactive || complete(d)) && problem == Some(why@),
        Err(_) => false,
    }
}

/// Begins a new alias with what the request gives up front. Where something is
/// left to ask, there has to be somebody to ask; what is given has to be
/// valid.
pub fn cmd_new(
    kind: Option<AliasKind>,
    args: &Vec<String>,
    existing: &Vec<AliasEntry>,
    cwd: &str,
    interactive: bool,
) -> (r: Result<Draft<String>, AmError>)
    ensures
        begins(
            r,
            kind,
            text::texts(args@),
            entry::aliases(existing@),
            cwd@,
            interactive,
        ),
{
    let ghost d = drafted(kind, text::texts(args@), cwd@);
    let name: Option<String> = if kind.is_some() {
        neat_arg_at(args, 0)
    } else {
        None
    };
    let is_folder: bool = kind == Some(AliasKind::Folder);
    let command: Option<String> = if kind == Some(AliasKind::Command) {
        neat_arg_at(args, 1)
    } else {
        None
    };
    let (user, host): (Option<String>, Option<String>) = if kind == Some(AliasKind::Ssh) {
        split_login(arg_at(args, 1), arg_at(args, 2))
    } else {
        (None, None)
    };
    let draft: Draft<String> = Draft {
        kind,
        given: name.is_some(),
        name,
        cleared: false,
        command,
        folder: if is_folder {
            Some(cwd.to_string())
        } else {
            None
        },
        check: if is_folder {
            FolderCheck::Settled
        } else {
            FolderCheck::Open
        },
        user,
        host,
    };
    assert(draft@ == d);
    if !draft.is_complete() {
        if let Err(e) = cli::ensure_interactive(interactive) {
            return Err(e);
        }
    }
    match draft.problem(existing) {
        Some(why) => Err(AmError::Invalid(why)),
        None => Ok(draft),
    }
}

impl Draft<String> {
    /// Whether there is nothing left to ask.
    pub fn is_complete(&self) -> (r: bool)
        ensures
            r == complete(self@),
    {
        if self.name.is_none() {
            return false;
        }
        match self.kind {
            None => false,
            Some(AliasKind::Command) => self.command.is_some(),
            Some(AliasKind::Folder) => self.folder.is_some() && self.check == FolderCheck::Settled,
            Some(AliasKind::Ssh) => self.user.is_some() && self.host.is_some(),
        }
    }

    /// The first complaint about what is known.
    fn problem(&self, existing: &Vec<AliasEntry>) -> (r: Option<String>)
        ensures
            opt(r) == draft_problem(self@, entry::aliases(existing@)),
    {
        if let Some(t) = &self.name {
            if let Err(why) = validate::validate_alias_name(t.as_str(), existing) {
                return Some(why);
            }
        }
        if let Some(t) = &self.command {
            if let Err(why) = validate::validate_action(t.as_str()) {
                return Some(why);
            }
        }
        if let Some(t) = &self.user {
            if let Err(why) = validate::validate_ssh_user(t.as_str()) {
                return Some(why);
            }
        }
        if let Some(t) = &self.host {
            if let Err(why) = validate::validate_ssh_host(t.as_str()) {
                return Some(why);
            }
        }
        None
    }
}

// ---------------------------------------------------------------------------
// Saving
// ---------------------------------------------------------------------------

/// What is said of an alias that has been saved.
pub open spec fn saved_notices(l: Seq<char>) -> Seq<Seq<char>> {
    seq![
        "Saved: "@ + l,
        "It is live in this shell already if the am wrapper is installed; new shells always pick it up."@,
    ]
}

/// Whether this is what saving an alias does to the file.
pub open spec fn is_saved(r: Result<Update, AmError>, content: Seq<char>, a: Alias) -> bool {
    match r {
        Ok(u) => line::formatted(a) matches Some(l) && u.content@ == store::appended(content, l)
            && text::texts(u.notices@) == saved_notices(l),
        Err(e) => line::formatted(a) is None && e == AmError::BothQuotes,
    }
}

/// Adds a new entry to the file of aliases. Fails only where the action of the
/// entry cannot be quoted.
pub fn save(content: &str, entry: &AliasEntry) -> (r: Result<Update, AmError>)
    ensures
        is_saved(r, content@, entry@),
{
    let l: String = match line::format_alias_line(entry) {
        Ok(l) => l,
        Err(e) => {
            return Err(e);
        },
    };
    let updated: String = match store::append_entry(content, entry) {
        Ok(c) => c,
        Err(e) => {
            return Err(e);
        },
    };
    let mut first: String = String::new();
    first.push_str("Saved: ");
    first.push_str(l.as_str());
    assert(first@ == "Saved: "@ + l@);
    let notices: Vec<String> = vec![
        first,
        "It is live in this shell already if the am wrapper is installed; new shells always pick it up.".to_string(),
    ];
    assert(text::texts(notices@) =~= saved_notices(l@));
    Ok(Update { content: updated, notices })
}

// ---------------------------------------------------------------------------
// Laws
// ---------------------------------------------------------------------------

/// Whether everything known of a draft may be stored, and its name is new.
pub open spec fn sound(d: Draft<Seq<char>>, existing: Seq<Alias>) -> bool {
    &&& d.name matches Some(name) ==> line::valid_name(name) && !entry::is_named_in(existing, name)
    &&& d.command matches Some(c) ==> validate::action_problem(c) is None && text::trimmed(c) == c
    &&& d.user matches Some(u) ==> validate::user_problem(u) is None
    &&& d.host matches Some(h) ==> validate::host_problem(h) is None
}

/// A request that is not refused begins with a sound draft.
pub proof fn law_request_is_sound(
    kind: Option<AliasKind>,
    args: Seq<Seq<char>>,
    cwd: Seq<char>,
    existing: Seq<Alias>,
)
    requires
        draft_problem(drafted(kind, args, cwd), existing) is None,
    ensures
        sound(drafted(kind, args, cwd), existing),
{
    if args.len() > 0 {
        text::law_trim_settles(args[0]);
    }
    if args.len() > 1 {
        text::law_trim_settles(args[1]);
    }
}

/// `USER@HOST` means the same as `USER HOST`.
pub proof fn law_user_at_host(
    name: Seq<char>,
    user: Seq<char>,
    host: Seq<char>,
    cwd: Seq<char>,
)
    requires
        !user.contains('@'),
    ensures
        drafted(Some(AliasKind::Ssh), seq![name, user + seq!['@'] + host], cwd) == drafted(
            Some(AliasKind::Ssh),
            seq![name, user, host],
            cwd,
        ),
{
    let u = user + seq!['@'] + host;
    assert(u[user.len() as int] == '@');
    assert forall|k: int| 0 <= k < user.len() implies u[k] != '@' by {
        assert(user.contains(user[k]));
    }
    text::lemma_find_from(u, '@', 0, user.len() as int);
    assert(u.take(user.len() as int) =~= user);
    assert(u.skip(user.len() as int + 1) =~= host);
}

/// The alias that a sound draft ends in can be stored: its name is valid and
/// new, and once it has been saved the file holds what it held and that alias.
/// (The action of a folder may hold a line break; it is not stored on one line
/// then.)
pub proof fn law_new_alias_is_stored(d: Draft<Seq<char>>, content: Seq<char>, home: Seq<char>)
    requires
        sound(d, store::entries_in(content)),
        step_of(d) is Finish,
        alias_of(d, home) is Some,
        !(alias_of(d, home)->0).action.contains('\n'),
    ensures
        ({
            let a = alias_of(d, home)->0;
            &&& !entry::is_named_in(store::entries_in(content), a.name)
            &&& line::formatted(a) is Some
            &&& store::entries_in(store::appended(content, line::formatted(a)->0))
                == store::entries_in(content).push(a)
        }),
{
    let a = alias_of(d, home)->0;
    match a.kind {
        AliasKind::Command => {
            validate::law_valid_command_is_storable(d.command->0);
        },
        AliasKind::Folder => {
            paths::law_folder_action_is_storable(d.folder->0, home);
        },
        AliasKind::Ssh => {
            validate::law_valid_ssh_is_storable(d.user->0, d.host->0);
        },
    }
    store::law_append_then_load(content, a);
}

/// Every argument of a request goes where it belongs: the first is the name,
/// white space around it aside; after it come the command, or the user and the
/// host. The folder is the current directory.
pub proof fn law_arguments_are_used(
    kind: Option<AliasKind>,
    args: Seq<Seq<char>>,
    cwd: Seq<char>,
)
    ensures
        ({
            let d = drafted(kind, args, cwd);
            &&& d.kind == kind
            &&& !d.cleared
            &&& kind is None || args.len() == 0 ==> d.name is None && !d.given
            &&& kind is Some && args.len() > 0 ==> d.name == Some(text::trimmed(args[0])) && d.given
            &&& kind == Some(AliasKind::Command) && args.len() > 1 ==> d.command == Some(
                text::trimmed(args[1]),
            )
            &&& !(kind == Some(AliasKind::Command) && args.len() > 1) ==> d.command is None
            &&& kind == Some(AliasKind::Folder) ==> d.folder == Some(cwd) && d.check
                == FolderCheck::Settled
            &&& kind != Some(AliasKind::Folder) ==> d.folder is None && d.check
                == FolderCheck::Open
            &&& kind == Some(AliasKind::Ssh) && args.len() > 2 ==> d.user == Some(args[1]) && d.host
                == Some(args[2])
            &&& kind == Some(AliasKind::Ssh) && args.len() == 2 && !args[1].contains('@') ==> d.user
                == Some(args[1]) && d.host is None
            &&& !(kind == Some(AliasKind::Ssh) && args.len() > 1) ==> d.user is None && d.host
                is None
        }),
{
}

/// The alias that is made has all of the name and all of the other parts, and
/// the kind that was chosen.
pub proof fn law_alias_is_made_of_its_parts(d: Draft<Seq<char>>, name: Seq<char>, home: Seq<char>)
    requires
        d.name == Some(name),
    ensures
        d.kind == Some(AliasKind::Command) && d.command is Some ==> alias_of(d, home) == Some(
            Alias { name, action: d.command->0, kind: AliasKind::Command },
        ),
        d.kind == Some(AliasKind::Folder) && d.folder is Some ==> match paths::folder_command(
            d.folder->0,
            home,
        ) {
            Some(action) => alias_of(d, home) == Some(
                (Alias { name, action, kind: AliasKind::Folder }),
            ),
            None => alias_of(d, home) is None,
        },
        d.kind == Some(AliasKind::Ssh) && d.user is Some && d.host is Some ==> alias_of(d, home)
            == Some(
            Alias {
                name,
                action: "ssh "@ + text::trimmed(d.user->0) + "@"@ + text::trimmed(d.host->0),
                kind: AliasKind::Ssh,
            },
        ),
{
}

/// What is missing is found out in order, and only what is missing: the kind,
/// the name, whether the name is free, and then what an alias of that kind
/// needs.
pub proof fn law_missing_parts_are_found_out(d: Draft<Seq<char>>)
    ensures
        d.kind is None <==> step_of(d) is AskKind,
        d.kind is Some && d.name is None <==> step_of(d) is AskName,
        d.kind is Some && d.name is Some && !d.cleared ==> step_of(d) == Step::LookUp(d.name->0),
        step_of(d) is LookUp ==> d.kind is Some && d.name is Some && !d.cleared,
        d.kind is Some && d.name is Some && d.cleared ==> match d.kind->0 {
            AliasKind::Command => {
                &&& step_of(d) is AskCommand <==> d.command is None
                &&& step_of(d) is Finish <==> d.command is Some
            },
            AliasKind::Folder => {
                &&& step_of(d) is AskFolder <==> d.folder is None
                &&& d.folder is Some && d.check == FolderCheck::Open ==> step_of(d)
                    == Step::Inspect(d.folder->0)
                &&& d.folder is Some && d.check == FolderCheck::Absent ==> step_of(d)
                    == Step::Confirm(d.folder->0)
                &&& step_of(d) is Finish <==> d.folder is Some && d.check == FolderCheck::Settled
            },
            AliasKind::Ssh => {
                &&& step_of(d) is AskUser <==> d.user is None
                &&& step_of(d) is AskHost <==> d.user is Some && d.host is None
                &&& step_of(d) is Finish <==> d.user is Some && d.host is Some
            },
        },
{
}

/// A request is begun, or refused, by what it gives: it needs somebody to ask
/// just where a part is missing, and each part that is given has to pass its
/// check.
pub proof fn law_requests_are_begun_or_refused(
    r: Result<Draft<String>, AmError>,
    kind: Option<AliasKind>,
    args: Seq<Seq<char>>,
    existing: Seq<Alias>,
    cwd: Seq<char>,
    interactive: bool,
)
    requires
        begins(r, kind, args, existing, cwd, interactive),
    ensures
        ({
            let d = drafted(kind, args, cwd);
            let whole = d.name is Some && match kind {
                Some(AliasKind::Command) => d.command is Some,
                Some(AliasKind::Folder) => true,
                Some(AliasKind::Ssh) => d.user is Some && d.host is Some,
                None => false,
            };
            let fine = {
                &&& d.name is Some ==> validate::name_problem(d.name->0, existing) is None
                &&& d.command is Some ==> validate::action_problem(d.command->0) is None
                &&& d.user is Some ==> validate::user_problem(d.user->0) is None
                &&& d.host is Some ==> validate::host_problem(d.host->0) is None
            };
            &&& (interactive || whole) && fine ==> (r matches Ok(draft) && draft@ == d)
            &&& !interactive && !whole <==> r == Err::<Draft<String>, AmError>(
                AmError::NotInteractive,
            )
            &&& (interactive || whole) && !fine <==> r matches Err(AmError::Invalid(_))
        }),
{
}

/// The complaint about a request is that about its name, if there is one; then
/// that about its command, its user, its host.
pub proof fn law_first_complaint_is_made(d: Draft<Seq<char>>, existing: Seq<Alias>)
    ensures
        ({
            let name = if d.name is Some {
                validate::name_problem(d.name->0, existing)
            } else {
                None
            };
            let command = if d.command is Some {
                validate::action_problem(d.command->0)
            } else {
                None
            };
            let user = if d.user is Some {
                validate::user_problem(d.user->0)
            } else {
                None
            };
            let host = if d.host is Some {
                validate::host_problem(d.host->0)
            } else {
                None
            };
            let p = draft_problem(d, existing);
            &&& name is Some ==> p == name
            &&& name is None && command is Some ==> p == command
            &&& name is None && command is None && user is Some ==> p == user
            &&& name is None && command is None && user is None ==> p == host
        }),
{
}

/// Saving puts the alias at the end of the file, where it is read back, and
/// says what line was added. It fails just where the action holds both quotes.
pub proof fn law_saving_adds_the_alias(r: Result<Update, AmError>, content: Seq<char>, a: Alias)
    requires
        is_saved(r, content, a),
        line::valid_name(a.name),
        !a.action.contains('\n'),
    ensures
        r is Ok <==> !(a.action.contains('"') && a.action.contains('\'')),
        r matches Ok(u) ==> {
            &&& store::entries_in(u.content@) == store::entries_in(content).push(a)
            &&& content.is_prefix_of(u.content@)
            &&& u.notices@.len() == 2
            &&& u.notices@[0]@ == "Saved: "@ + line::formatted(a)->0
            &&& u.notices@[1]@
                == "It is live in this shell already if the am wrapper is installed; new shells always pick it up."@
        },
        r matches Err(e) ==> e == AmError::BothQuotes,
{
    line::law_quotes_enclose_the_action(a.action);
    if let Ok(u) = r {
        store::law_append_then_load(content, a);
        store::law_append_keeps_content(content, a);
        assert(text::texts(u.notices@).len() == u.notices@.len());
        assert(text::texts(u.notices@)[0] == u.notices@[0]@);
        assert(text::texts(u.notices@)[1] == u.notices@[1]@);
    }
}

/// A draft and a step carry all of their strings.
pub proof fn law_drafts_carry_their_strings(d: Draft<String>, t: String)
    ensures
        d@.kind == d.kind,
        d@.given == d.given,
        d@.cleared == d.cleared,
        d@.check == d.check,
        d.name matches Some(n) ==> d@.name == Some(n@),
        d.name is None ==> d@.name is None,
        d.command matches Some(n) ==> d@.command == Some(n@),
        d.command is None ==> d@.command is None,
        d.folder matches Some(n) ==> d@.folder == Some(n@),
        d.folder is None ==> d@.folder is None,
        d.user matches Some(n) ==> d@.user == Some(n@),
        d.user is None ==> d@.user is None,
        d.host matches Some(n) ==> d@.host == Some(n@),
        d.host is None ==> d@.host is None,
        Step::LookUp(t)@ == Step::LookUp(t@),
        Step::Inspect(t)@ == Step::Inspect(t@),
        Step::Confirm(t)@ == Step::Confirm(t@),
{
}

} // verus!
