//! The alias file as a whole: loading, adding, removing.
use am::entry::{AliasEntry, AliasKind};
use am::error::AmError;
use am::store::{append_entry, load_entries, remove_entry_lines};

fn entry(name: &str, action: &str, kind: AliasKind) -> AliasEntry {
    AliasEntry {
        name: name.into(),
        action: action.into(),
        kind,
    }
}

// -- removal --

#[test]
fn remove_only_target_lines() {
    let content = "# header comment\n\
                   alias a=\"echo a\" #command\n\
                   alias gp=\"git pull\" #command\n\
                   alias p=\"cd ~/x\" #folder\n\
                   \n\
                   export FOO=1\n";
    let (out, removed) = remove_entry_lines(content, "gp");
    assert_eq!(removed, 1);
    assert_eq!(
        out,
        "# header comment\n\
         alias a=\"echo a\" #command\n\
         alias p=\"cd ~/x\" #folder\n\
         \n\
         export FOO=1\n"
    );
}

#[test]
fn remove_missing_name_is_noop() {
    let content = "# c\nalias gp=\"git pull\" #command\n";
    let (out, removed) = remove_entry_lines(content, "zz");
    assert_eq!(removed, 0);
    assert_eq!(out, content);
}

#[test]
fn remove_ignores_untyped_alias_with_same_name() {
    let content = "alias gp=\"x\"\nalias gp=\"git pull\" #command\n";
    let (out, removed) = remove_entry_lines(content, "gp");
    assert_eq!(removed, 1);
    assert_eq!(out, "alias gp=\"x\"\n");
}

#[test]
fn remove_takes_out_every_line_of_the_name() {
    let content = "alias a='1' #command\nalias b='2' #ssh\n alias a=\"3\" # folder\n";
    let (out, removed) = remove_entry_lines(content, "a");
    assert_eq!(removed, 2);
    assert_eq!(out, "alias b='2' #ssh\n");
    assert_eq!(load_entries(&out), vec![entry("b", "2", AliasKind::Ssh)]);
}

#[test]
fn remove_ends_the_last_line_and_drops_carriage_returns() {
    assert_eq!(remove_entry_lines("x\r\ny", "a"), ("x\ny\n".to_string(), 0));
    assert_eq!(remove_entry_lines("", "a"), (String::new(), 0));
    assert_eq!(remove_entry_lines("x\r\r\n", "a"), ("x\r\n".to_string(), 0));
    assert_eq!(
        remove_entry_lines("alias a='1' #ssh", "a"),
        (String::new(), 1)
    );
}

#[test]
fn remove_keeps_blank_lines() {
    assert_eq!(
        remove_entry_lines("alias gp=\"git pull\" #command\n\n", "gp"),
        ("\n".to_string(), 1)
    );
    assert_eq!(
        remove_entry_lines("\nalias gp=\"git pull\" #command\n", "gp"),
        ("\n".to_string(), 1)
    );
    assert_eq!(remove_entry_lines("\n", "a"), ("\n".to_string(), 0));
    assert_eq!(remove_entry_lines("\n\n", "a"), ("\n\n".to_string(), 0));
}

// -- loading --

#[test]
fn load_reads_managed_lines_in_order() {
    let content = "# c\nalias b=\"2\" #folder\r\nalias x=\"y\"\n\nalias a='1' #command";
    assert_eq!(
        load_entries(content),
        vec![
            entry("b", "2", AliasKind::Folder),
            entry("a", "1", AliasKind::Command)
        ]
    );
    assert_eq!(load_entries(""), vec![]);
}

// -- adding --

#[test]
fn append_ends_an_open_last_line() {
    let gp = entry("gp", "git pull", AliasKind::Command);
    let line = "alias gp=\"git pull\" #command\n";
    assert_eq!(append_entry("", &gp).unwrap(), line);
    assert_eq!(append_entry("# c\n", &gp).unwrap(), format!("# c\n{line}"));
    assert_eq!(append_entry("# c", &gp).unwrap(), format!("# c\n{line}"));
}

#[test]
fn append_refuses_what_cannot_be_quoted() {
    let bad = entry("x", "\"'", AliasKind::Command);
    assert_eq!(append_entry("# c\n", &bad), Err(AmError::BothQuotes));
}

#[test]
fn what_is_added_can_be_loaded() {
    let mut content = String::from("# c");
    let mut all = Vec::new();
    for e in [
        entry("gp", "git pull", AliasKind::Command),
        entry("p", "cd \"/a b\"", AliasKind::Folder),
        entry("s", "ssh u@h", AliasKind::Ssh),
    ] {
        content = append_entry(&content, &e).unwrap();
        assert!(content.starts_with("# c\n"));
        all.push(e);
        assert_eq!(load_entries(&content), all);
    }
}

#[test]
fn removing_undoes_adding() {
    let content = "# c\nalias a='1' #command\n";
    let e = entry("gp", "git pull", AliasKind::Command);
    let added = append_entry(content, &e).unwrap();
    assert_eq!(remove_entry_lines(&added, "gp"), (content.to_string(), 1));
}
