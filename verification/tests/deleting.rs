//! Deleting aliases.
use am::delete::{
    cmd_delete, confirmed, label, picked, question, remove, Deletion, DEFAULT_ANSWER, PICK_PROMPT,
};
use am::entry::{AliasEntry, AliasKind};
use am::error::AmError;

fn entry(name: &str, action: &str, kind: AliasKind) -> AliasEntry {
    AliasEntry {
        name: name.into(),
        action: action.into(),
        kind,
    }
}

const CONTENT: &str = "alias p=\"cd ~/x\" #folder\n\
    alias gp=\"git pull\" #command\n\
    alias gp=\"git push\" #ssh\n";

fn show(r: Result<Deletion, AmError>) -> String {
    match r {
        Ok(Deletion::Nothing(notice)) => format!("nothing: {notice}"),
        Ok(Deletion::Pick(entries)) => {
            let labels: Vec<String> = entries.iter().map(label).collect();
            format!("pick: {}", labels.join(" | "))
        }
        Ok(Deletion::Confirm(e)) => format!("confirm: {}", label(&e)),
        Ok(Deletion::Remove(e)) => format!("remove: {}", label(&e)),
        Err(e) => format!("error: {}", e.message()),
    }
}

#[test]
fn delete_by_name_asks_first() {
    assert_eq!(
        show(cmd_delete(CONTENT, Some("gp"), false, true)),
        "confirm: gp  (command)  git pull"
    );
    assert_eq!(
        show(cmd_delete(CONTENT, Some("gp"), true, false)),
        "remove: gp  (command)  git pull"
    );
    assert_eq!(
        show(cmd_delete(CONTENT, Some("gp"), false, false)),
        "error: deleting needs confirmation; re-run with --yes to skip the prompt in scripts"
    );
}

#[test]
fn delete_of_an_unknown_name_fails() {
    assert_eq!(
        show(cmd_delete(CONTENT, Some("zz"), true, true)),
        "error: 'zz' is not managed by am (run `am list` to see managed aliases)"
    );
    assert_eq!(
        show(cmd_delete(CONTENT, Some(" gp"), true, true)),
        "error: ' gp' is not managed by am (run `am list` to see managed aliases)"
    );
}

#[test]
fn delete_without_a_name_offers_a_list() {
    assert_eq!(
        show(cmd_delete(CONTENT, None, false, true)),
        "pick: gp  (command)  git pull | p  (folder)  cd ~/x | gp  (ssh)  git push"
    );
    assert_eq!(
        show(cmd_delete("# c\n", None, false, true)),
        "nothing: No managed aliases to delete. Run `am new` to create one."
    );
    assert_eq!(
        show(cmd_delete("# c\n", None, true, false)),
        "error: this command needs an interactive terminal"
    );
}

#[test]
fn picking_leads_to_the_same_question() {
    let entries = vec![
        entry("a", "1", AliasKind::Command),
        entry("b", "2", AliasKind::Ssh),
    ];
    assert_eq!(show(picked(&entries, Some(1), false, true)), "confirm: b  (ssh)  2");
    assert_eq!(show(picked(&entries, Some(0), true, true)), "remove: a  (command)  1");
    assert_eq!(
        show(picked(&entries, Some(0), false, false)),
        "error: deleting needs confirmation; re-run with --yes to skip the prompt in scripts"
    );
    assert_eq!(show(picked(&entries, None, true, true)), "nothing: Cancelled.");
}

#[test]
fn only_a_yes_deletes() {
    let e = entry("gp", "git pull", AliasKind::Command);
    assert_eq!(question(&e), "Do you want to delete command 'gp'?");
    assert_eq!(show(Ok(confirmed(e.clone(), Some(true)))), "remove: gp  (command)  git pull");
    assert_eq!(show(Ok(confirmed(e.clone(), Some(false)))), "nothing: Not deleted.");
    assert_eq!(
        show(Ok(confirmed(e.clone(), Some(DEFAULT_ANSWER)))),
        "nothing: Not deleted."
    );
    assert_eq!(show(Ok(confirmed(e, None))), "nothing: Not deleted.");
    assert_eq!(PICK_PROMPT, "Which alias do you want to delete?");
}

#[test]
fn removing_takes_out_the_name_and_says_so() {
    let u = remove(CONTENT, "gp").unwrap();
    assert_eq!(u.content, "alias p=\"cd ~/x\" #folder\n");
    assert_eq!(
        u.notices,
        vec![
            "Deleted alias 'gp' from ~/.alias-management.",
            "Note: if 'gp' is active in an open shell, run `unalias gp` there or start a new shell.",
        ]
    );
    match remove(CONTENT, "zz") {
        Err(e) => assert_eq!(e, AmError::NotManaged("zz".to_string())),
        Ok(_) => panic!("zz is not there"),
    }
}
