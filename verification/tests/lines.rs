//! Lines of the alias file: reading and writing them.
use am::entry::{AliasEntry, AliasKind};
use am::error::AmError;
use am::line::{format_alias_line, is_valid_alias_name, parse_alias_line, quote_action};

fn entry(name: &str, action: &str, kind: AliasKind) -> AliasEntry {
    AliasEntry {
        name: name.into(),
        action: action.into(),
        kind,
    }
}

// -- parsing --

#[test]
fn parse_spec_examples() {
    assert_eq!(
        parse_alias_line(r#"alias gp="git pull" #command"#),
        Some(entry("gp", "git pull", AliasKind::Command))
    );
    assert_eq!(
        parse_alias_line(r#"alias p="cd ~/folder/personal" #folder"#),
        Some(entry("p", "cd ~/folder/personal", AliasKind::Folder))
    );
    assert_eq!(
        parse_alias_line(r#"alias srv="ssh forge@127.0.0.1" #ssh"#),
        Some(entry("srv", "ssh forge@127.0.0.1", AliasKind::Ssh))
    );
}

#[test]
fn parse_single_quoted_action() {
    assert_eq!(
        parse_alias_line(r#"alias p='cd "/home/u/My Dir"' #folder"#),
        Some(entry("p", r#"cd "/home/u/My Dir""#, AliasKind::Folder))
    );
}

#[test]
fn parse_tolerates_whitespace_variants() {
    assert_eq!(
        parse_alias_line(r#"  alias gp="git pull"   #  command  "#),
        Some(entry("gp", "git pull", AliasKind::Command))
    );
    assert_eq!(
        parse_alias_line(r#"alias gp="git pull" # folder"#),
        Some(entry("gp", "git pull", AliasKind::Folder))
    );
}

#[test]
fn parse_rejects_missing_type_comment() {
    assert_eq!(parse_alias_line(r#"alias gp="git pull""#), None);
}

#[test]
fn parse_rejects_unknown_type() {
    assert_eq!(parse_alias_line(r#"alias gp="git pull" #dir"#), None);
}

#[test]
fn parse_rejects_bad_name_or_spacing() {
    assert_eq!(parse_alias_line(r#"alias -x="y" #command"#), None);
    assert_eq!(parse_alias_line(r#"alias a b="y" #command"#), None);
    assert_eq!(parse_alias_line(r#"alias gp ="y" #command"#), None);
}

#[test]
fn parse_rejects_mismatched_quotes() {
    assert_eq!(parse_alias_line(r#"alias x="y' #command"#), None);
}

#[test]
fn parse_accepts_empty_action_and_no_space_before_marker() {
    assert_eq!(
        parse_alias_line("alias x=\"\"#ssh"),
        Some(entry("x", "", AliasKind::Ssh))
    );
    assert_eq!(
        parse_alias_line("alias x='a # b' #command"),
        Some(entry("x", "a # b", AliasKind::Command))
    );
}

#[test]
fn parse_accepts_unicode_white_space_and_rejects_trailing_text() {
    assert_eq!(
        parse_alias_line("\u{3000}alias\u{a0}x=\"y\"\t#\u{2003}folder\r"),
        Some(entry("x", "y", AliasKind::Folder))
    );
    assert_eq!(parse_alias_line("alias x=\"y\" #folder z"), None);
    assert_eq!(parse_alias_line("alias x=\"y\" #folders"), None);
    assert_eq!(parse_alias_line("aliasx=\"y\" #folder"), None);
    assert_eq!(parse_alias_line("alias =\"y\" #folder"), None);
    assert_eq!(parse_alias_line(""), None);
}

#[test]
fn a_line_may_hold_a_line_break_inside_the_quotes() {
    assert_eq!(
        parse_alias_line("alias x=\"a\nb\" #command"),
        Some(entry("x", "a\nb", AliasKind::Command))
    );
}

// -- names --

#[test]
fn name_validation_charset() {
    for good in ["gp", "p2", "my_alias", "a.b-c", "_x", "9lives"] {
        assert!(is_valid_alias_name(good), "{good} should be valid");
    }
    for bad in [
        "", "-x", ".x", "a b", "rm;id", "$(x)", "a'b", "a\"b", "a\\b", "a$b",
    ] {
        assert!(!is_valid_alias_name(bad), "{bad} should be invalid");
    }
}

// -- formatting --

#[test]
fn format_prefers_double_quotes() {
    assert_eq!(
        format_alias_line(&entry("gp", "git pull", AliasKind::Command)).unwrap(),
        r#"alias gp="git pull" #command"#
    );
}

#[test]
fn format_falls_back_to_single_quotes() {
    assert_eq!(
        format_alias_line(&entry("gc", r#"git commit -m "wip""#, AliasKind::Command)).unwrap(),
        r#"alias gc='git commit -m "wip"' #command"#
    );
}

#[test]
fn format_rejects_both_quote_types() {
    assert!(format_alias_line(&entry("x", r#"echo "a" 'b'"#, AliasKind::Command)).is_err());
}

#[test]
fn quoting_says_why_it_fails() {
    assert_eq!(quote_action("git pull").unwrap(), "\"git pull\"");
    assert_eq!(quote_action("it's").unwrap(), "\"it's\"");
    assert_eq!(quote_action("say \"x\"").unwrap(), "'say \"x\"'");
    assert_eq!(quote_action(""), Ok("\"\"".to_string()));
    let e = quote_action("\"'").unwrap_err();
    assert_eq!(e, AmError::BothQuotes);
    assert_eq!(
        e.message(),
        "the action contains both single and double quotes and cannot be stored safely as a bash alias"
    );
}

#[test]
fn roundtrip_format_then_parse() {
    let cases = vec![
        entry("gp", "git pull", AliasKind::Command),
        entry("gc", r#"git commit -m "wip""#, AliasKind::Command),
        entry("p", "cd ~/folder/personal", AliasKind::Folder),
        entry("s", r#"cd "/home/u/My Dir""#, AliasKind::Folder),
        entry("srv", "ssh forge@127.0.0.1", AliasKind::Ssh),
    ];
    for original in cases {
        let line = format_alias_line(&original).unwrap();
        assert_eq!(parse_alias_line(&line), Some(original));
    }
}

#[test]
fn what_is_read_can_be_written_again() {
    let read = parse_alias_line("  alias a.b='x \"y\" z'#ssh  ").unwrap();
    let line = format_alias_line(&read).unwrap();
    assert_eq!(line, "alias a.b='x \"y\" z' #ssh");
    assert_eq!(parse_alias_line(&line), Some(read));
}

// -- kinds --

#[test]
fn markers_tell_the_kinds_apart() {
    for kind in [AliasKind::Command, AliasKind::Folder, AliasKind::Ssh] {
        assert_eq!(AliasKind::from_marker(kind.as_str()), Some(kind));
    }
    assert_eq!(AliasKind::Command.as_str(), "command");
    assert_eq!(AliasKind::Folder.as_str(), "folder");
    assert_eq!(AliasKind::Ssh.as_str(), "ssh");
    assert_eq!(AliasKind::from_marker("Command"), None);
    assert_eq!(AliasKind::from_marker(""), None);
    assert!(AliasKind::Command < AliasKind::Folder && AliasKind::Folder < AliasKind::Ssh);
}
