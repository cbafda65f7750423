//! Creating aliases: requests, questions and answers.
use am::create::{cmd_new, save, Draft, FolderCheck, Step};
use am::dialog::{alias_exists_in_system, kinds, lookup_args, Reply, Turn};
use am::entry::{AliasEntry, AliasKind};
use am::error::AmError;
use am::store::load_entries;

fn entry(name: &str, action: &str, kind: AliasKind) -> AliasEntry {
    AliasEntry {
        name: name.into(),
        action: action.into(),
        kind,
    }
}

fn existing() -> Vec<AliasEntry> {
    vec![entry("gp", "git pull", AliasKind::Command)]
}

fn strings(args: &[&str]) -> Vec<String> {
    args.iter().map(|a| a.to_string()).collect()
}

fn begin(kind: Option<AliasKind>, args: &[&str], interactive: bool) -> Result<Draft<String>, AmError> {
    cmd_new(kind, &strings(args), &existing(), "/h/u/here", interactive)
}

fn describe(step: &Step<String>) -> String {
    match step {
        Step::AskKind => "kind".to_string(),
        Step::AskName => "name".to_string(),
        Step::LookUp(n) => format!("look up {n}"),
        Step::AskCommand => "command".to_string(),
        Step::AskFolder => "folder".to_string(),
        Step::Inspect(p) => format!("inspect {p}"),
        Step::Confirm(p) => format!("confirm {p}"),
        Step::AskUser => "user".to_string(),
        Step::AskHost => "host".to_string(),
        Step::Finish => "finish".to_string(),
    }
}

/// Goes through a dialog; gives the steps, the notices, and the draft at the
/// end or how it stopped.
fn go(
    draft: Draft<String>,
    replies: Vec<Reply<String>>,
) -> (Vec<String>, Vec<String>, Result<Draft<String>, String>) {
    let mut steps = vec![describe(&draft.next_step())];
    let mut notices = Vec::new();
    let mut draft = draft;
    for reply in replies {
        match draft.answer(reply, &existing(), Some("/h/u"), "/h/u/here") {
            Turn::Continue { draft: next, notice } => {
                notices.extend(notice);
                steps.push(describe(&next.next_step()));
                draft = next;
            }
            Turn::Stop(notice) => return (steps, notices, Err(format!("stop: {notice}"))),
            Turn::Refuse(notice) => return (steps, notices, Err(format!("refuse: {notice}"))),
        }
    }
    (steps, notices, Ok(draft))
}

fn typed(text: &str) -> Reply<String> {
    Reply::Typed(text.to_string())
}

fn fail(r: Result<Draft<String>, AmError>) -> AmError {
    match r {
        Ok(_) => panic!("should be refused"),
        Err(e) => e,
    }
}

fn finished(draft: Result<Draft<String>, String>) -> AliasEntry {
    match draft {
        Ok(d) => d.finish("/h/u").unwrap(),
        Err(e) => panic!("{e}"),
    }
}

#[test]
fn everything_is_asked_for_a_command() {
    let (steps, notices, end) = go(
        begin(None, &[], true).unwrap(),
        vec![
            Reply::Picked(0),
            typed(" gs "),
            Reply::Free,
            typed("  git status "),
        ],
    );
    assert_eq!(steps, vec!["kind", "name", "look up gs", "command", "finish"]);
    assert!(notices.is_empty());
    assert_eq!(
        finished(end),
        entry("gs", "git status", AliasKind::Command)
    );
}

#[test]
fn everything_is_asked_for_a_folder() {
    let (steps, notices, end) = go(
        begin(None, &[], true).unwrap(),
        vec![
            Reply::Picked(1),
            typed("p"),
            Reply::Free,
            typed("~/gone"),
            Reply::Directory(false),
            Reply::Confirmed(false),
            typed("sub"),
            Reply::Directory(false),
            Reply::Confirmed(true),
        ],
    );
    assert_eq!(
        steps,
        vec![
            "kind",
            "name",
            "look up p",
            "folder",
            "inspect /h/u/gone",
            "confirm /h/u/gone",
            "folder",
            "inspect /h/u/here/sub",
            "confirm /h/u/here/sub",
            "finish",
        ]
    );
    assert!(notices.is_empty());
    assert_eq!(
        finished(end),
        entry("p", "cd ~/here/sub", AliasKind::Folder)
    );
}

#[test]
fn everything_is_asked_for_ssh() {
    let (steps, notices, end) = go(
        begin(None, &[], true).unwrap(),
        vec![
            Reply::Picked(2),
            typed("srv"),
            Reply::Free,
            typed("-bad"),
            typed(" forge "),
            typed("a/b"),
            typed("127.0.0.1"),
        ],
    );
    assert_eq!(
        steps,
        vec!["kind", "name", "look up srv", "user", "user", "host", "host", "finish"]
    );
    assert_eq!(notices.len(), 2);
    assert!(notices[0].starts_with("the ssh user must start"));
    assert!(notices[1].starts_with("the host may only contain"));
    assert_eq!(
        finished(end),
        entry("srv", "ssh forge@127.0.0.1", AliasKind::Ssh)
    );
}

#[test]
fn an_existing_folder_needs_no_confirmation() {
    let (steps, _, end) = go(
        begin(None, &[], true).unwrap(),
        vec![
            Reply::Picked(1),
            typed("p"),
            Reply::Free,
            typed("/home/u/My Dir"),
            Reply::Directory(true),
        ],
    );
    assert_eq!(steps.last().unwrap(), "finish");
    assert_eq!(
        finished(end),
        entry("p", "cd \"/home/u/My Dir\"", AliasKind::Folder)
    );
}

#[test]
fn a_taken_name_is_asked_for_again() {
    let (steps, notices, _) = go(
        begin(Some(AliasKind::Command), &[], true).unwrap(),
        vec![
            typed("gp"),
            typed("ls"),
            Reply::Taken("/bin/ls".to_string()),
            typed("l"),
            Reply::Unknown("no bash".to_string()),
        ],
    );
    assert_eq!(
        steps,
        vec!["name", "name", "look up ls", "name", "look up l", "command"]
    );
    assert_eq!(
        notices,
        vec![
            "'gp' is already managed by am; delete it first with: am delete gp",
            "An alias or command named 'ls' already exists: /bin/ls. Pick another name.",
            "warning: could not run the system-wide alias check (no bash); continuing",
        ]
    );
}

#[test]
fn a_taken_name_that_was_given_is_refused() {
    let (steps, _, end) = go(
        begin(Some(AliasKind::Command), &["ls", "x"], false).unwrap(),
        vec![Reply::Taken("/bin/ls".to_string())],
    );
    assert_eq!(steps, vec!["look up ls"]);
    assert_eq!(
        end.err().unwrap(),
        "refuse: An alias or command named 'ls' already exists: /bin/ls. Pick another name."
    );
}

#[test]
fn cancelling_stops() {
    let (_, _, end) = go(begin(None, &[], true).unwrap(), vec![Reply::Cancelled]);
    assert_eq!(end.err().unwrap(), "stop: Cancelled.");
    let (_, _, end) = go(
        begin(None, &[], true).unwrap(),
        vec![Reply::Picked(1), typed("p"), Reply::Free, Reply::Cancelled],
    );
    assert_eq!(end.err().unwrap(), "stop: Cancelled.");
}

#[test]
fn an_answer_to_something_else_changes_nothing() {
    let (steps, notices, _) = go(
        begin(None, &[], true).unwrap(),
        vec![typed("x"), Reply::Free, Reply::Directory(true)],
    );
    assert_eq!(steps, vec!["kind", "kind", "kind", "kind"]);
    assert!(notices.is_empty());
}

#[test]
fn only_what_is_missing_is_asked() {
    let cases: Vec<(AliasKind, Vec<&str>, Vec<&str>)> = vec![
        (AliasKind::Folder, vec![], vec!["name"]),
        (AliasKind::Folder, vec!["here"], vec!["look up here", "finish"]),
        (AliasKind::Command, vec![], vec!["name"]),
        (AliasKind::Command, vec!["gs"], vec!["look up gs", "command"]),
        (AliasKind::Command, vec!["gs", "git status"], vec!["look up gs", "finish"]),
        (AliasKind::Ssh, vec![], vec!["name"]),
        (AliasKind::Ssh, vec!["srv"], vec!["look up srv", "user"]),
        (AliasKind::Ssh, vec!["srv", "forge"], vec!["look up srv", "host"]),
        (AliasKind::Ssh, vec!["srv", "forge", "127.0.0.1"], vec!["look up srv", "finish"]),
        (AliasKind::Ssh, vec!["srv", "forge@127.0.0.1"], vec!["look up srv", "finish"]),
    ];
    for (kind, args, expected) in cases {
        let draft = begin(Some(kind), &args, true).unwrap();
        let replies = if args.is_empty() { vec![] } else { vec![Reply::Free] };
        let (steps, _, _) = go(draft, replies);
        assert_eq!(steps, expected, "{args:?}");
    }
}

#[test]
fn complete_requests_need_no_terminal() {
    let cases: Vec<(AliasKind, Vec<&str>, &str)> = vec![
        (AliasKind::Folder, vec!["here"], "cd ~/here"),
        (AliasKind::Command, vec!["gs", " git status "], "git status"),
        (AliasKind::Ssh, vec!["srv", "forge", "127.0.0.1"], "ssh forge@127.0.0.1"),
        (AliasKind::Ssh, vec!["srv", "forge@127.0.0.1"], "ssh forge@127.0.0.1"),
    ];
    for (kind, args, action) in cases {
        let draft = begin(Some(kind), &args, false).unwrap();
        assert!(draft.is_complete());
        let (_, _, end) = go(draft, vec![Reply::Free]);
        assert_eq!(finished(end), entry(args[0], action, kind));
    }
}

#[test]
fn incomplete_requests_need_a_terminal() {
    assert_eq!(fail(begin(None, &[], false)), AmError::NotInteractive);
    assert_eq!(
        fail(begin(Some(AliasKind::Folder), &[], false)),
        AmError::NotInteractive
    );
    assert_eq!(
        fail(begin(Some(AliasKind::Command), &["gs"], false)),
        AmError::NotInteractive
    );
    assert_eq!(
        fail(begin(Some(AliasKind::Ssh), &["srv", "forge"], false)),
        AmError::NotInteractive
    );
    assert_eq!(
        AmError::NotInteractive.message(),
        "this command needs an interactive terminal"
    );
}

#[test]
fn what_is_given_is_checked() {
    let cases: Vec<(AliasKind, Vec<&str>, &str)> = vec![
        (AliasKind::Command, vec!["gp", "x"], "'gp' is already managed by am; delete it first with: am delete gp"),
        (AliasKind::Command, vec!["a b"], "alias names must start with a letter, digit or '_' and contain only letters, digits, '_', '.', '-'"),
        (AliasKind::Command, vec![" "], "the alias name cannot be empty"),
        (AliasKind::Command, vec!["x", " "], "the action cannot be empty"),
        (AliasKind::Ssh, vec!["x", "-u", "h"], "the ssh user must start with a letter, digit or '_' and may only contain letters, digits, '.', '_' and '-'"),
        (AliasKind::Ssh, vec!["x", "u@h", "h"], "the ssh user must start with a letter, digit or '_' and may only contain letters, digits, '.', '_' and '-'"),
        (AliasKind::Ssh, vec!["x", "u@"], "the host cannot be empty"),
        (AliasKind::Ssh, vec!["x", "u@h@i"], "the host may only contain letters, digits, '.', ':', '_' and '-' (a hostname, IPv4 or IPv6 address)"),
    ];
    for (kind, args, why) in cases {
        let e = fail(begin(Some(kind), &args, true));
        assert_eq!(e, AmError::Invalid(why.to_string()));
        assert_eq!(e.message(), why);
    }
}

#[test]
fn a_request_fills_the_draft() {
    let d = begin(Some(AliasKind::Folder), &["x"], true).unwrap();
    assert_eq!(d.folder.as_deref(), Some("/h/u/here"));
    assert_eq!(d.check, FolderCheck::Settled);
    assert!(d.given && !d.cleared);
    let d = begin(Some(AliasKind::Ssh), &["x", "u@h"], true).unwrap();
    assert_eq!((d.user.as_deref(), d.host.as_deref()), (Some("u"), Some("h")));
    let d = begin(None, &["x"], true).unwrap();
    assert!(d.name.is_none() && !d.given);
}

#[test]
fn a_folder_that_cannot_be_stored_is_refused_at_the_end() {
    let draft = cmd_new(
        Some(AliasKind::Folder),
        &strings(&["x"]),
        &existing(),
        "/a $b",
        false,
    )
    .unwrap();
    let (_, _, end) = go(draft, vec![Reply::Free]);
    assert_eq!(
        end.ok().unwrap().finish("/h"),
        Err(AmError::UnsafePath)
    );
}

#[test]
fn prompts() {
    let texts: Vec<Option<String>> = vec![
        Step::AskKind.prompt(),
        Step::AskName.prompt(),
        Step::AskCommand.prompt(),
        Step::AskFolder.prompt(),
        Step::Confirm("/x".to_string()).prompt(),
        Step::AskUser.prompt(),
        Step::AskHost.prompt(),
        Step::LookUp("x".to_string()).prompt(),
        Step::Inspect("/x".to_string()).prompt(),
        Step::Finish.prompt(),
    ];
    assert_eq!(
        texts,
        vec![
            Some("Create an alias for a command, a folder or an ssh connection?".to_string()),
            Some("Alias name".to_string()),
            Some("Command to run".to_string()),
            Some("Folder path".to_string()),
            Some("'/x' does not exist (or is not a directory). Create the alias anyway?".to_string()),
            Some("SSH user".to_string()),
            Some("Host".to_string()),
            None,
            None,
            None,
        ]
    );
}

#[test]
fn kinds_are_offered_in_the_order_they_are_picked() {
    let offered = kinds();
    assert_eq!(
        offered,
        vec![AliasKind::Command, AliasKind::Folder, AliasKind::Ssh]
    );
    for (i, kind) in offered.iter().enumerate() {
        let (_, _, end) = go(begin(None, &[], true).unwrap(), vec![Reply::Picked(i)]);
        assert_eq!(end.ok().unwrap().kind, Some(*kind));
    }
}

#[test]
fn enter_stands_for_the_default() {
    assert!(matches!(
        Step::<String>::AskKind.default_reply("/c"),
        Some(Reply::Picked(0))
    ));
    assert!(matches!(
        Step::Confirm("/x".to_string()).default_reply("/c"),
        Some(Reply::Confirmed(false))
    ));
    match Step::<String>::AskFolder.default_reply("/c") {
        Some(Reply::Typed(t)) => assert_eq!(t, "/c"),
        _ => panic!("the current directory is the default"),
    }
    assert!(Step::<String>::AskName.default_reply("/c").is_none());
    assert!(Step::<String>::AskHost.default_reply("/c").is_none());
    let (steps, _, _) = go(
        begin(Some(AliasKind::Folder), &[], true).unwrap(),
        vec![typed("p"), Reply::Free],
    );
    assert_eq!(steps.last().unwrap(), "finish");
}

#[test]
fn the_name_is_a_parameter_of_the_script() {
    assert_eq!(
        lookup_args("gp"),
        vec!["-lic", "command -v -- \"$1\"", "am-syscheck", "gp"]
    );
    assert_eq!(lookup_args("x")[..3], lookup_args("y")[..3]);
}

#[test]
fn what_the_shell_answers_about_a_name() {
    assert_eq!(alias_exists_in_system(false, "/bin/ls\n"), None);
    assert_eq!(
        alias_exists_in_system(true, " /bin/ls \nmore\n"),
        Some("/bin/ls".to_string())
    );
    assert_eq!(alias_exists_in_system(true, ""), Some(String::new()));
}

#[test]
fn saving_appends_and_says_so() {
    let e = entry("gc", "git commit -m \"wip\"", AliasKind::Command);
    let u = save("# c", &e).unwrap();
    assert_eq!(u.content, "# c\nalias gc='git commit -m \"wip\"' #command\n");
    assert_eq!(
        u.notices,
        vec![
            "Saved: alias gc='git commit -m \"wip\"' #command",
            "It is live in this shell already if the am wrapper is installed; new shells always pick it up.",
        ]
    );
    assert_eq!(load_entries(&u.content), vec![e]);
    assert!(save("# c", &entry("x", "\"'", AliasKind::Command)).is_err());
}
