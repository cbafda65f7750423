//! The dialog that creates an alias: what is asked, and what each answer leads
//! to.
use vstd::prelude::*;

use crate::chars;
use crate::create;
use crate::create::{Draft, FolderCheck, Step};
use crate::entry;
use crate::entry::{Alias, AliasEntry, AliasKind};
use crate::paths;
use crate::text;
use crate::validate;

verus! {

// ---------------------------------------------------------------------------
// Questions
// ---------------------------------------------------------------------------

/// What the user is asked at a step, if anything.
pub open spec fn prompt_of(step: Step<Seq<char>>) -> Option<Seq<char>> {
    match step {
        Step::AskKind => Some(
            "Create an alias for a command, a folder or an ssh connection?"@,
        ),
        Step::AskName => Some("Alias name"@),
        Step::AskCommand => Some("Command to run"@),
        Step::AskFolder => Some("Folder path"@),
        Step::Confirm(path) => Some(
            "'"@ + path
                + "' does not exist (or is not a directory). Create the alias anyway?"@,
        ),
        Step::AskUser => Some("SSH user"@),
        Step::AskHost => Some("Host"@),
        _ => None,
    }
}

impl Step<String> {
    /// What the user is asked at this step, if anything.
    pub fn prompt(&self) -> (r: Option<String>)
        ensures
            create::opt(r) == prompt_of(self@),
    {
        match self {
            Step::AskKind => Some(
                "Create an alias for a command, a folder or an ssh connection?".to_string(),
            ),
            Step::AskName => Some("Alias name".to_string()),
            Step::AskCommand => Some("Command to run".to_string()),
            Step::AskFolder => Some("Folder path".to_string()),
            Step::Confirm(path) => {
                let mut out: String = String::new();
                out.push_str("'");
                out.push_str(path.as_str());
                out.push_str(
                    "' does not exist (or is not a directory). Create the alias anyway?",
                );
                assert(Some(out@) == prompt_of(self@));
                Some(out)
            },
            Step::AskUser => Some("SSH user".to_string()),
            Step::AskHost => Some("Host".to_string()),
            _ => None,
        }
    }
}

/// What is handed to bash to look a name up: a script that is the same for
/// every name, the name of the script, and the name as its first parameter.
pub open spec fn lookup_words(name: Seq<char>) -> Seq<Seq<char>> {
    seq!["-lic"@, "command -v -- \"$1\""@, "am-syscheck"@, name]
}

/// What is handed to bash to look a name up. The name is a parameter of the
/// script, never part of it.
pub fn lookup_args(name: &str) -> (r: Vec<String>)
    ensures
        text::texts(r@) == lookup_words(name@),
{
    let out: Vec<String> = vec![
        "-lic".to_string(),
        "command -v -- \"$1\"".to_string(),
        "am-syscheck".to_string(),
        name.to_string(),
    ];
    assert(text::texts(out@) =~= lookup_words(name@));
    out
}

/// What the shell says a name resolves to: the first line of its answer, or
/// nothing where it found none.
pub open spec fn resolved(stdout: Seq<char>) -> Seq<char> {
    let ls = text::lines(stdout);
    if ls.len() == 0 {
        seq![]
    } else {
        text::trimmed(ls[0])
    }
}

/// Whether a name already resolves to anything in a login shell, by what the
/// shell answered: what it resolves to, or `None` when it is free.
pub fn alias_exists_in_system(success: bool, stdout: &str) -> (r: Option<String>)
    ensures
        create::opt(r) == (if success {
            Some(resolved(stdout@))
        } else {
            None
        }),
{
    if !success {
        return None;
    }
    let ls: Vec<String> = text::split_lines(stdout);
    assert(text::texts(ls@).len() == ls@.len());
    if ls.len() == 0 {
        return Some(String::new());
    }
    assert(text::texts(ls@)[0] == ls@[0]@);
    Some(text::trim(ls[0].as_str()))
}

// ---------------------------------------------------------------------------
// Answers
// ---------------------------------------------------------------------------

/// An answer to what was to be found out.
pub enum Reply<S> {
    /// The place of the kind that was picked among the three.
    Picked(usize),
    /// What was typed in.
    Typed(S),
    /// The name resolves to nothing.
    Free,
    /// The name resolves to this.
    Taken(S),
    /// The name could not be looked up; says why.
    Unknown(S),
    /// Whether the path is a directory.
    Directory(bool),
    /// Whether to go on.
    Confirmed(bool),
    /// The user has had enough.
    Cancelled,
}

impl View for Reply<String> {
    type V = Reply<Seq<char>>;

    open spec fn view(&self) -> Reply<Seq<char>> {
        match self {
            Reply::Picked(i) => Reply::Picked(*i),
            Reply::Typed(t) => Reply::Typed(t@),
            Reply::Free => Reply::Free,
            Reply::Taken(t) => Reply::Taken(t@),
            Reply::Unknown(t) => Reply::Unknown(t@),
            Reply::Directory(b) => Reply::Directory(*b),
            Reply::Confirmed(b) => Reply::Confirmed(*b),
            Reply::Cancelled => Reply::Cancelled,
        }
    }
}

/// The answer that stands where the user just presses Enter, if there is one:
/// a command, the current directory, and not to go on.
pub open spec fn default_of(step: Step<Seq<char>>, cwd: Seq<char>) -> Option<Reply<Seq<char>>> {
    match step {
        Step::AskKind => Some(Reply::Picked(0)),
        Step::AskFolder => Some(Reply::Typed(cwd)),
        Step::Confirm(_) => Some(Reply::Confirmed(false)),
        _ => None,
    }
}

impl Step<String> {
    /// The answer that stands where the user just presses Enter, if there is
    /// one.
    pub fn default_reply(&self, cwd: &str) -> (r: Option<Reply<String>>)
        ensures
            match r {
                Some(reply) => default_of(self@, cwd@) == Some(reply@),
                None => default_of(self@, cwd@) is None,
            },
    {
        match self {
            Step::AskKind => Some(Reply::Picked(0)),
            Step::AskFolder => Some(Reply::Typed(cwd.to_string())),
            Step::Confirm(_) => Some(Reply::Confirmed(false)),
            _ => None,
        }
    }
}

/// What an answer leads to.
pub enum Turn<S> {
    /// Go on with this draft, once this has been said.
    Continue { draft: Draft<S>, notice: Option<S> },
    /// Stop with this said.
    Stop(S),
    /// Fail with this said.
    Refuse(S),
}

impl View for Turn<String> {
    type V = Turn<Seq<char>>;

    open spec fn view(&self) -> Turn<Seq<char>> {
        match self {
            Turn::Continue { draft, notice } => Turn::Continue {
                draft: draft@,
                notice: create::opt(*notice),
            },
            Turn::Stop(notice) => Turn::Stop(notice@),
            Turn::Refuse(notice) => Turn::Refuse(notice@),
        }
    }
}

/// The kind at a place among the three.
pub open spec fn kind_at(i: usize) -> AliasKind {
    if i == 0 {
        AliasKind::Command
    } else if i == 1 {
        AliasKind::Folder
    } else {
        AliasKind::Ssh
    }
}

/// The kinds that are offered, each at its place.
pub fn kinds() -> (r: Vec<AliasKind>)
    ensures
        r@.len() == 3,
        forall|i: usize| i < 3 ==> r@[i as int] == #[trigger] kind_at(i),
{
    vec![AliasKind::Command, AliasKind::Folder, AliasKind::Ssh]
}

/// The notice that `name` resolves to `found` already.
pub open spec fn taken_notice(name: Seq<char>, found: Seq<char>) -> Seq<char> {
    "An alias or command named '"@ + name + "' already exists: "@ + found
        + ". Pick another name."@
}

/// The warning that a name could not be looked up.
pub open spec fn unknown_notice(why: Seq<char>) -> Seq<char> {
    "warning: could not run the system-wide alias check ("@ + why + "); continuing"@
}

/// Go on with `d`, or with what is there and the complaint if there is one.
pub open spec fn unless(
    problem: Option<Seq<char>>,
    now: Draft<Seq<char>>,
    d: Draft<Seq<char>>,
) -> Turn<Seq<char>> {
    if problem is Some {
        Turn::Continue { draft: now, notice: problem }
    } else {
        Turn::Continue { draft: d, notice: None }
    }
}

/// What an answer leads to. A name that is taken is asked for again, unless it
/// was given up front; a name that could not be looked up is used; a path that
/// is not a directory is used only where that is confirmed. An answer to
/// something else changes nothing.
pub open spec fn answered(
    d: Draft<Seq<char>>,
    reply: Reply<Seq<char>>,
    existing: Seq<Alias>,
    home: Option<Seq<char>>,
    cwd: Seq<char>,
) -> Turn<Seq<char>> {
    match (create::step_of(d), reply) {
        (_, Reply::Cancelled) => Turn::Stop("Cancelled."@),
        (Step::AskKind, Reply::Picked(i)) => Turn::Continue {
            draft: Draft { kind: Some(kind_at(i)), ..d },
            notice: None,
        },
        (Step::AskName, Reply::Typed(t)) => unless(
            validate::name_problem(t, existing),
            d,
            Draft { name: Some(text::trimmed(t)), given: false, cleared: false, ..d },
        ),
        (Step::LookUp(_), Reply::Free) => Turn::Continue {
            draft: Draft { cleared: true, ..d },
            notice: None,
        },
        (Step::LookUp(name), Reply::Taken(found)) => if d.given {
            Turn::Refuse(taken_notice(name, found))
        } else {
            Turn::Continue {
                draft: Draft { name: None, ..d },
                notice: Some(taken_notice(name, found)),
            }
        },
        (Step::LookUp(_), Reply::Unknown(why)) => Turn::Continue {
            draft: Draft { cleared: true, ..d },
            notice: Some(unknown_notice(why)),
        },
        (Step::AskCommand, Reply::Typed(t)) => unless(
            validate::action_problem(t),
            d,
            Draft { command: Some(text::trimmed(t)), ..d },
        ),
        (Step::AskFolder, Reply::Typed(t)) => Turn::Continue {
            draft: Draft {
                folder: Some(paths::expanded(t, home, cwd)),
                check: FolderCheck::Open,
                ..d
            },
            notice: None,
        },
        (Step::Inspect(_), Reply::Directory(true)) => Turn::Continue {
            draft: Draft { check: FolderCheck::Settled, ..d },
            notice: None,
        },
        (Step::Inspect(_), Reply::Directory(false)) => Turn::Continue {
            draft: Draft { check: FolderCheck::Absent, ..d },
            notice: None,
        },
        (Step::Confirm(_), Reply::Confirmed(true)) => Turn::Continue {
            draft: Draft { check: FolderCheck::Settled, ..d },
            notice: None,
        },
        (Step::Confirm(_), Reply::Confirmed(false)) => Turn::Continue {
            draft: Draft { folder: None, check: FolderCheck::Open, ..d },
            notice: None,
        },
        (Step::AskUser, Reply::Typed(t)) => unless(
            validate::user_problem(t),
            d,
            Draft { user: Some(t), ..d },
        ),
        (Step::AskHost, Reply::Typed(t)) => unless(
            validate::host_problem(t),
            d,
            Draft { host: Some(t), ..d },
        ),
        _ => Turn::Continue { draft: d, notice: None },
    }
}

fn taken(name: &str, found: &str) -> (r: String)
    ensures
        r@ == taken_notice(name@, found@),
{
    let mut out: String = String::new();
    out.push_str("An alias or command named '");
    out.push_str(name);
    out.push_str("' already exists: ");
    out.push_str(found);
    out.push_str(". Pick another name.");
    assert(out@ == taken_notice(name@, found@));
    out
}

fn not_looked_up(why: &str) -> (r: String)
    ensures
        r@ == unknown_notice(why@),
{
    let mut out: String = String::new();
    out.push_str("warning: could not run the system-wide alias check (");
    out.push_str(why);
    out.push_str("); continuing");
    assert(out@ == unknown_notice(why@));
    out
}

impl Draft<String> {
    /// What an answer to the next step leads to.
    pub fn answer(
        self,
        reply: Reply<String>,
        existing: &Vec<AliasEntry>,
        home: Option<&str>,
        cwd: &str,
    ) -> (r: Turn<String>)
        ensures
            r@ == answered(
                self@,
                reply@,
                entry::aliases(existing@),
                paths::optional_text(home),
                cwd@,
            ),
    {
        let step: Step<String> = self.next_step();
        let mut draft: Draft<String> = self;
        let mut notice: Option<String> = None;
        match (step, reply) {
            (_, Reply::Cancelled) => {
                return Turn::Stop("Cancelled.".to_string());
            },
            (Step::AskKind, Reply::Picked(i)) => {
                draft.kind = Some(
                    match i {
                        0 => AliasKind::Command,
                        1 => AliasKind::Folder,
                        _ => AliasKind::Ssh,
                    },
                );
            },
            (Step::AskName, Reply::Typed(t)) => {
                match validate::validate_alias_name(t.as_str(), existing) {
                    Err(why) => {
                        notice = Some(why);
                    },
                    Ok(()) => {
                        draft.name = Some(text::trim(t.as_str()));
                        draft.given = false;
                        draft.cleared = false;
                    },
                }
            },
            (Step::LookUp(_), Reply::Free) => {
                draft.cleared = true;
            },
            (Step::LookUp(name), Reply::Taken(found)) => {
                let said: String = taken(name.as_str(), found.as_str());
                if draft.given {
                    return Turn::Refuse(said);
                }
                draft.name = None;
                notice = Some(said);
            },
            (Step::LookUp(_), Reply::Unknown(why)) => {
                draft.cleared = true;
                notice = Some(not_looked_up(why.as_str()));
            },
            (Step::AskCommand, Reply::Typed(t)) => {
                match validate::validate_action(t.as_str()) {
                    Err(why) => {
                        notice = Some(why);
                    },
                    Ok(()) => {
                        draft.command = Some(text::trim(t.as_str()));
                    },
                }
            },
            (Step::AskFolder, Reply::Typed(t)) => {
                draft.folder = Some(paths::expand_input_path(t.as_str(), home, cwd));
                draft.check = FolderCheck::Open;
            },
            (Step::Inspect(_), Reply::Directory(found)) => {
                draft.check = if found {
                    FolderCheck::Settled
                } else {
                    FolderCheck::Absent
                };
            },
            (Step::Confirm(_), Reply::Confirmed(proceed)) => {
                if proceed {
                    draft.check = FolderCheck::Settled;
                } else {
                    draft.folder = None;
                    draft.check = FolderCheck::Open;
                }
            },
            (Step::AskUser, Reply::Typed(t)) => {
                match validate::validate_ssh_user(t.as_str()) {
                    Err(why) => {
                        notice = Some(why);
                    },
                    Ok(()) => {
                        draft.user = Some(t);
                    },
                }
            },
            (Step::AskHost, Reply::Typed(t)) => {
                match validate::validate_ssh_host(t.as_str()) {
                    Err(why) => {
                        notice = Some(why);
                    },
                    Ok(()) => {
                        draft.host = Some(t);
                    },
                }
            },
            _ => {},
        }
        Turn::Continue { draft, notice }
    }
}

// ---------------------------------------------------------------------------
// Laws
// ---------------------------------------------------------------------------

/// Whatever is answered, a sound draft stays sound.
pub proof fn law_answers_keep_draft_sound(
    d: Draft<Seq<char>>,
    reply: Reply<Seq<char>>,
    existing: Seq<Alias>,
    home: Option<Seq<char>>,
    cwd: Seq<char>,
)
    requires
        create::sound(d, existing),
    ensures
        answered(d, reply, existing, home, cwd) matches Turn::Continue { draft, .. } ==> create::sound(
            draft,
            existing,
        ),
{
    if let Reply::Typed(t) = reply {
        text::law_trim_settles(t);
    }
}

/// A name is used only once it has been looked up, and only where the shell
/// did not know it or could not be asked.
pub proof fn law_name_is_looked_up(
    d: Draft<Seq<char>>,
    reply: Reply<Seq<char>>,
    existing: Seq<Alias>,
    home: Option<Seq<char>>,
    cwd: Seq<char>,
)
    ensures
        create::step_of(d) is Finish ==> d.cleared,
        answered(d, reply, existing, home, cwd) matches Turn::Continue { draft, .. } ==> (
        draft.cleared ==> draft.name == d.name && (d.cleared || create::step_of(d) is LookUp && (
        reply is Free || reply is Unknown))),
{
}

/// A path is used only where it is a directory, or where it was confirmed that
/// it need not be one.
pub proof fn law_folder_is_checked(
    d: Draft<Seq<char>>,
    reply: Reply<Seq<char>>,
    existing: Seq<Alias>,
    home: Option<Seq<char>>,
    cwd: Seq<char>,
)
    ensures
        create::step_of(d) is Finish && d.kind == Some(AliasKind::Folder) ==> d.check
            == FolderCheck::Settled,
        answered(d, reply, existing, home, cwd) matches Turn::Continue { draft, .. } ==> (
        draft.check == FolderCheck::Settled ==> draft.folder == d.folder && (d.check
            == FolderCheck::Settled || create::step_of(d) is Inspect && reply
            == Reply::<Seq<char>>::Directory(true) || create::step_of(d) is Confirm && reply
            == Reply::<Seq<char>>::Confirmed(true))),
{
}

/// Pressing Enter takes the directory that the user stands in for the folder,
/// where its path is absolute and has no white space around it, and never goes
/// on with a path that is not a directory.
pub proof fn law_enter_is_safe(
    d: Draft<Seq<char>>,
    existing: Seq<Alias>,
    home: Option<Seq<char>>,
    cwd: Seq<char>,
)
    ensures
        create::step_of(d) is AskFolder && cwd.len() > 0 && cwd[0] == '/' && text::trimmed(cwd)
            == cwd ==> (answered(
            d,
            default_of(create::step_of(d), cwd)->0,
            existing,
            home,
            cwd,
        ) matches Turn::Continue { draft, .. } && draft.folder == Some(cwd)),
        create::step_of(d) is Confirm ==> (answered(
            d,
            default_of(create::step_of(d), cwd)->0,
            existing,
            home,
            cwd,
        ) matches Turn::Continue { draft, .. } && draft.folder is None),
{
}

/// What is known is not asked again: only a name that was not given and is
/// taken, and a path that was not confirmed, are asked for once more.
pub proof fn law_known_parts_stay(
    d: Draft<Seq<char>>,
    reply: Reply<Seq<char>>,
    existing: Seq<Alias>,
    home: Option<Seq<char>>,
    cwd: Seq<char>,
)
    ensures
        answered(d, reply, existing, home, cwd) matches Turn::Continue { draft, .. } ==> {
            &&& d.kind is Some ==> draft.kind == d.kind
            &&& d.command is Some ==> draft.command == d.command
            &&& d.user is Some ==> draft.user == d.user
            &&& d.host is Some ==> draft.host == d.host
            &&& d.name is Some && draft.name != d.name ==> !d.given && reply is Taken
            &&& d.folder is Some && draft.folder != d.folder ==> d.check == FolderCheck::Absent
        },
{
}

/// A request with nothing left to ask is never answered with a question: the
/// name is looked up, and then the alias is saved or refused.
pub proof fn law_complete_request_asks_nothing(
    d: Draft<Seq<char>>,
    reply: Reply<Seq<char>>,
    existing: Seq<Alias>,
    home: Option<Seq<char>>,
    cwd: Seq<char>,
)
    requires
        create::complete(d),
        d.given,
    ensures
        create::step_of(d) is LookUp || create::step_of(d) is Finish,
        prompt_of(create::step_of(d)) is None,
        answered(d, reply, existing, home, cwd) matches Turn::Continue { draft, .. } ==> {
            &&& create::complete(draft)
            &&& draft.given
        },
{
}

/// Every answer is used as it is given, and changes nothing else: a pick is the
/// kind at that place; what is typed is the name, the command, the user or the
/// host, where it passes its check, and is complained about otherwise.
pub proof fn law_answers_are_used(
    d: Draft<Seq<char>>,
    i: usize,
    t: Seq<char>,
    existing: Seq<Alias>,
    home: Option<Seq<char>>,
    cwd: Seq<char>,
)
    ensures
        ({
            let pick = answered(d, Reply::Picked(i), existing, home, cwd);
            let typed = answered(d, Reply::Typed(t), existing, home, cwd);
            let none = None::<Seq<char>>;
            let name = validate::name_problem(t, existing);
            let command = validate::action_problem(t);
            let user = validate::user_problem(t);
            let host = validate::host_problem(t);
            let step = create::step_of(d);
            &&& step is AskKind && i == 0 ==> pick == Turn::Continue {
                draft: Draft { kind: Some(AliasKind::Command), ..d },
                notice: none,
            }
            &&& step is AskKind && i == 1 ==> pick == Turn::Continue {
                draft: Draft { kind: Some(AliasKind::Folder), ..d },
                notice: none,
            }
            &&& step is AskKind && i >= 2 ==> pick == Turn::Continue {
                draft: Draft { kind: Some(AliasKind::Ssh), ..d },
                notice: none,
            }
            &&& step is AskName && name is None ==> typed == Turn::Continue {
                draft: Draft { name: Some(text::trimmed(t)), given: false, cleared: false, ..d },
                notice: none,
            }
            &&& step is AskName && name is Some ==> typed == Turn::Continue {
                draft: d,
                notice: name,
            }
            &&& step is AskCommand && command is None ==> typed == Turn::Continue {
                draft: Draft { command: Some(text::trimmed(t)), ..d },
                notice: none,
            }
            &&& step is AskCommand && command is Some ==> typed == Turn::Continue {
                draft: d,
                notice: command,
            }
            &&& step is AskUser && user is None ==> typed == Turn::Continue {
                draft: Draft { user: Some(t), ..d },
                notice: none,
            }
            &&& step is AskUser && user is Some ==> typed == Turn::Continue {
                draft: d,
                notice: user,
            }
            &&& step is AskHost && host is None ==> typed == Turn::Continue {
                draft: Draft { host: Some(t), ..d },
                notice: none,
            }
            &&& step is AskHost && host is Some ==> typed == Turn::Continue {
                draft: d,
                notice: host,
            }
        }),
{
}

/// What the shell says of a name decides: a free one is used; a taken one is
/// given up, with all that the shell found in the notice, and ends a request
/// that gave it; one that could not be looked up is used with a warning.
pub proof fn law_shell_decides_about_the_name(
    d: Draft<Seq<char>>,
    name: Seq<char>,
    found: Seq<char>,
    existing: Seq<Alias>,
    home: Option<Seq<char>>,
    cwd: Seq<char>,
)
    requires
        d.kind is Some,
        d.name == Some(name),
        !d.cleared,
    ensures
        ({
            let free = answered(d, Reply::Free, existing, home, cwd);
            let taken = answered(d, Reply::Taken(found), existing, home, cwd);
            let unknown = answered(d, Reply::Unknown(found), existing, home, cwd);
            let notice = "An alias or command named '"@ + name + "' already exists: "@ + found
                + ". Pick another name."@;
            &&& free == Turn::Continue { draft: Draft { cleared: true, ..d }, notice: None }
            &&& d.given ==> taken == Turn::<Seq<char>>::Refuse(notice)
            &&& !d.given ==> taken == Turn::Continue {
                draft: Draft { name: None, ..d },
                notice: Some(notice),
            }
            &&& unknown == Turn::Continue {
                draft: Draft { cleared: true, ..d },
                notice: Some(
                    "warning: could not run the system-wide alias check ("@ + found
                        + "); continuing"@,
                ),
            }
        }),
{
}

/// A path that is typed is taken from the current or the home directory; a
/// directory is used at once, and anything else only where that is confirmed.
pub proof fn law_typed_path_is_checked(
    d: Draft<Seq<char>>,
    t: Seq<char>,
    existing: Seq<Alias>,
    home: Option<Seq<char>>,
    cwd: Seq<char>,
)
    requires
        create::step_of(d) is AskFolder,
    ensures
        ({
            let path = paths::expanded(t, home, cwd);
            let entered = Draft { folder: Some(path), check: FolderCheck::Open, ..d };
            let absent = Draft { check: FolderCheck::Absent, ..entered };
            let settled = Draft { check: FolderCheck::Settled, ..entered };
            &&& answered(d, Reply::Typed(t), existing, home, cwd) == Turn::Continue {
                draft: entered,
                notice: None,
            }
            &&& create::step_of(entered) == Step::Inspect(path)
            &&& answered(entered, Reply::Directory(true), existing, home, cwd) == Turn::Continue {
                draft: settled,
                notice: None,
            }
            &&& answered(entered, Reply::Directory(false), existing, home, cwd) == Turn::Continue {
                draft: absent,
                notice: None,
            }
            &&& create::step_of(absent) == Step::Confirm(path)
            &&& answered(absent, Reply::Confirmed(true), existing, home, cwd) == Turn::Continue {
                draft: settled,
                notice: None,
            }
            &&& create::step_of(settled) is Finish
            &&& answered(absent, Reply::Confirmed(false), existing, home, cwd)
                matches Turn::Continue { draft, .. } && create::step_of(draft) is AskFolder
                && draft.name == d.name
        }),
{
}

/// Cancelling stops at every step.
pub proof fn law_cancelling_stops(
    d: Draft<Seq<char>>,
    existing: Seq<Alias>,
    home: Option<Seq<char>>,
    cwd: Seq<char>,
)
    ensures
        answered(d, Reply::Cancelled, existing, home, cwd) == Turn::<Seq<char>>::Stop(
            "Cancelled."@,
        ),
{
}

/// What the shell resolved a name to is the first line of what it printed,
/// white space around it aside, however many lines follow.
pub proof fn law_first_line_of_the_answer_counts(l: Seq<char>, rest: Seq<char>)
    requires
        !l.contains('\n'),
    ensures
        resolved(l + seq!['\n'] + rest) == text::trimmed(l),
        l.len() > 0 ==> resolved(l) == text::trimmed(l),
        resolved(Seq::<char>::empty()).len() == 0,
{
    text::law_lines_end_at_line_breaks(l, rest);
    text::law_last_line_needs_no_ending(l);
    text::law_last_line_needs_no_ending(Seq::<char>::empty());
    if l.len() > 0 && l.last() == '\r' {
        let m = l.drop_last();
        let (a, b) = text::law_trimmed_is_a_part(m);
        let c = b.push('\r');
        assert forall|i: int| 0 <= i < c.len() implies chars::is_space(#[trigger] c[i]) by {
            if i < b.len() {
                assert(c[i] == b[i]);
            }
        }
        assert(l =~= m.push('\r'));
        assert((a + text::trimmed(m) + b).push('\r') =~= a + text::trimmed(m) + c);
        text::law_trim_cuts_white_space(a, text::trimmed(m), c);
    }
}

/// The name is handed to bash as the last argument, all of it, and in no other:
/// the script is the same for every name.
pub proof fn law_name_is_an_argument(name: Seq<char>, other: Seq<char>)
    ensures
        lookup_words(name).len() == 4,
        lookup_words(name)[3] == name,
        lookup_words(name).take(3) == lookup_words(other).take(3),
        lookup_words(name)[0] == "-lic"@,
        lookup_words(name)[1] == "command -v -- \"$1\""@,
{
    assert(lookup_words(name).take(3) =~= lookup_words(other).take(3));
}

// ---------------------------------------------------------------------------
// Laws: whole dialogs
// ---------------------------------------------------------------------------

/// A dialog for a command ends in the alias that was typed: its name and its
/// command, white space around them aside.
pub proof fn law_command_dialog(
    name: Seq<char>,
    command: Seq<char>,
    existing: Seq<Alias>,
    home: Option<Seq<char>>,
    cwd: Seq<char>,
    at_home: Seq<char>,
)
    requires
        validate::name_problem(name, existing) is None,
        validate::action_problem(command) is None,
    ensures
        ({
            let asked = create::drafted(None, Seq::empty(), cwd);
            let kind = answered(asked, Reply::Picked(0), existing, home, cwd);
            let named = answered(kind->draft, Reply::Typed(name), existing, home, cwd);
            let free = answered(named->draft, Reply::Free, existing, home, cwd);
            let end = answered(free->draft, Reply::Typed(command), existing, home, cwd);
            let given = create::drafted(Some(AliasKind::Command), seq![name, command], cwd);
            let short = answered(given, Reply::Free, existing, home, cwd);
            let a = Alias {
                name: text::trimmed(name),
                action: text::trimmed(command),
                kind: AliasKind::Command,
            };
            &&& end is Continue && create::step_of(end->draft) is Finish
            &&& create::alias_of(end->draft, at_home) == Some(a)
            &&& short is Continue && create::step_of(short->draft) is Finish
            &&& create::alias_of(short->draft, at_home) == Some(a)
        }),
{
}

/// A dialog for an ssh connection ends in the alias that was typed, which
/// connects that user to that host. So does a request that gives them, as two
/// arguments or as one with `@` between them.
pub proof fn law_ssh_dialog(
    name: Seq<char>,
    user: Seq<char>,
    host: Seq<char>,
    existing: Seq<Alias>,
    home: Option<Seq<char>>,
    cwd: Seq<char>,
    at_home: Seq<char>,
)
    requires
        validate::name_problem(name, existing) is None,
        validate::user_problem(user) is None,
        validate::host_problem(host) is None,
    ensures
        ({
            let asked = create::drafted(None, Seq::empty(), cwd);
            let kind = answered(asked, Reply::Picked(2), existing, home, cwd);
            let named = answered(kind->draft, Reply::Typed(name), existing, home, cwd);
            let free = answered(named->draft, Reply::Free, existing, home, cwd);
            let known = answered(free->draft, Reply::Typed(user), existing, home, cwd);
            let end = answered(known->draft, Reply::Typed(host), existing, home, cwd);
            let given = create::drafted(Some(AliasKind::Ssh), seq![name, user, host], cwd);
            let short = answered(given, Reply::Free, existing, home, cwd);
            let one = create::drafted(
                Some(AliasKind::Ssh),
                seq![name, user + seq!['@'] + host],
                cwd,
            );
            let shortest = answered(one, Reply::Free, existing, home, cwd);
            let a = Alias {
                name: text::trimmed(name),
                action: "ssh "@ + text::trimmed(user) + "@"@ + text::trimmed(host),
                kind: AliasKind::Ssh,
            };
            &&& end is Continue && create::step_of(end->draft) is Finish
            &&& create::alias_of(end->draft, at_home) == Some(a)
            &&& short is Continue && create::step_of(short->draft) is Finish
            &&& create::alias_of(short->draft, at_home) == Some(a)
            &&& shortest is Continue && create::step_of(shortest->draft) is Finish
            &&& create::alias_of(shortest->draft, at_home) == Some(a)
        }),
{
    lemma_valid_user_has_no_at(user);
    create::law_user_at_host(name, user, host, cwd);
}

proof fn lemma_valid_user_has_no_at(user: Seq<char>)
    requires
        validate::user_problem(user) is None,
    ensures
        !user.contains('@'),
{
    let (a, b) = text::law_trimmed_is_a_part(user);
    let t = text::trimmed(user);
    if user.contains('@') {
        let i = choose|i: int| 0 <= i < user.len() && user[i] == '@';
        if i < a.len() {
            assert(user[i] == a[i]);
        } else if i < a.len() + t.len() {
            assert(user[i] == t[i - a.len()]);
            assert(validate::in_user(t[i - a.len()]));
        } else {
            assert(user[i] == b[i - a.len() - t.len()]);
        }
    }
}

/// A dialog for a folder ends in the alias that goes to the path that was
/// typed, as it stands from the current directory. A request that gives the
/// name alone ends in the alias that goes to the current directory.
pub proof fn law_folder_dialog(
    name: Seq<char>,
    typed: Seq<char>,
    existing: Seq<Alias>,
    home: Option<Seq<char>>,
    cwd: Seq<char>,
    at_home: Seq<char>,
)
    requires
        validate::name_problem(name, existing) is None,
    ensures
        ({
            let asked = create::drafted(None, Seq::empty(), cwd);
            let kind = answered(asked, Reply::Picked(1), existing, home, cwd);
            let named = answered(kind->draft, Reply::Typed(name), existing, home, cwd);
            let free = answered(named->draft, Reply::Free, existing, home, cwd);
            let entered = answered(free->draft, Reply::Typed(typed), existing, home, cwd);
            let end = answered(entered->draft, Reply::Directory(true), existing, home, cwd);
            let given = create::drafted(Some(AliasKind::Folder), seq![name], cwd);
            let short = answered(given, Reply::Free, existing, home, cwd);
            let there = paths::folder_command(paths::expanded(typed, home, cwd), at_home);
            let here = paths::folder_command(cwd, at_home);
            &&& end is Continue && create::step_of(end->draft) is Finish
            &&& there matches Some(action) ==> create::alias_of(end->draft, at_home) == Some(
                (Alias { name: text::trimmed(name), action, kind: AliasKind::Folder }),
            )
            &&& there is None ==> create::alias_of(end->draft, at_home) is None
            &&& short is Continue && create::step_of(short->draft) is Finish
            &&& here matches Some(action) ==> create::alias_of(short->draft, at_home) == Some(
                (Alias { name: text::trimmed(name), action, kind: AliasKind::Folder }),
            )
            &&& here is None ==> create::alias_of(short->draft, at_home) is None
        }),
{
}

/// What is asked about a path that is not a directory shows all of the path;
/// looking up and inspecting ask nothing.
pub proof fn law_question_shows_the_path(path: Seq<char>)
    ensures
        prompt_of(Step::Confirm(path)) == Some(
            "'"@ + path + "' does not exist (or is not a directory). Create the alias anyway?"@,
        ),
        prompt_of(Step::Inspect(path)) is None,
        prompt_of(Step::LookUp(path)) is None,
{
}

/// A reply and a turn carry all of their strings.
pub proof fn law_replies_carry_their_strings(t: String, d: Draft<String>, i: usize, b: bool)
    ensures
        Reply::Typed(t)@ == Reply::Typed(t@),
        Reply::Taken(t)@ == Reply::Taken(t@),
        Reply::Unknown(t)@ == Reply::Unknown(t@),
        Reply::<String>::Picked(i)@ == Reply::<Seq<char>>::Picked(i),
        Reply::<String>::Directory(b)@ == Reply::<Seq<char>>::Directory(b),
        Reply::<String>::Confirmed(b)@ == Reply::<Seq<char>>::Confirmed(b),
        Reply::<String>::Free@ == Reply::<Seq<char>>::Free,
        Reply::<String>::Cancelled@ == Reply::<Seq<char>>::Cancelled,
        (Turn::Continue { draft: d, notice: Some(t) })@ == (Turn::Continue {
            draft: d@,
            notice: Some(t@),
        }),
        (Turn::Continue { draft: d, notice: None })@ == (Turn::Continue {
            draft: d@,
            notice: None,
        }),
        Turn::Stop(t)@ == Turn::Stop(t@),
        Turn::Refuse(t)@ == Turn::Refuse(t@),
{
}

/// An answer that does not fit the step changes nothing.
pub proof fn law_other_answers_change_nothing(
    d: Draft<Seq<char>>,
    reply: Reply<Seq<char>>,
    existing: Seq<Alias>,
    home: Option<Seq<char>>,
    cwd: Seq<char>,
)
    requires
        !(reply is Cancelled),
        match create::step_of(d) {
            Step::AskKind => !(reply is Picked),
            Step::LookUp(_) => !(reply is Free || reply is Taken || reply is Unknown),
            Step::Inspect(_) => !(reply is Directory),
            Step::Confirm(_) => !(reply is Confirmed),
            Step::Finish => true,
            _ => !(reply is Typed),
        },
    ensures
        answered(d, reply, existing, home, cwd) == (Turn::Continue { draft: d, notice: None }),
{
}

} // verus!
