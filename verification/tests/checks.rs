//! What may be entered.
use am::entry::{AliasEntry, AliasKind};
use am::line::format_alias_line;
use am::validate::{
    ssh_action, validate_action, validate_alias_name, validate_ssh_host, validate_ssh_user,
};

fn entry(name: &str, action: &str, kind: AliasKind) -> AliasEntry {
    AliasEntry {
        name: name.into(),
        action: action.into(),
        kind,
    }
}

// -- action validation --

#[test]
fn action_validation() {
    assert!(validate_action("git pull").is_ok());
    assert!(validate_action(r#"git commit -m "wip""#).is_ok());
    assert!(validate_action("").is_err());
    assert!(validate_action("   ").is_err());
    assert!(validate_action("a\nb").is_err());
    assert!(validate_action(r#"echo "a" 'b'"#).is_err());
}

#[test]
fn action_complaints() {
    assert_eq!(
        validate_action(" \t "),
        Err("the action cannot be empty".to_string())
    );
    assert_eq!(
        validate_action("a\u{7f}b"),
        Err("the action cannot contain newlines or control characters".to_string())
    );
    assert_eq!(
        validate_action("\"'"),
        Err("the action contains both ' and \" and cannot be stored as a bash alias".to_string())
    );
    assert_eq!(validate_action("\tgit pull\n"), Ok(()));
    assert_eq!(validate_action("it's"), Ok(()));
}

// -- names --

#[test]
fn name_complaints() {
    let existing = vec![entry("gp", "git pull", AliasKind::Command)];
    assert_eq!(
        validate_alias_name("  ", &existing),
        Err("the alias name cannot be empty".to_string())
    );
    assert_eq!(
        validate_alias_name("a b", &existing),
        Err(
            "alias names must start with a letter, digit or '_' and contain only letters, digits, '_', '.', '-'"
                .to_string()
        )
    );
    assert_eq!(
        validate_alias_name(" gp ", &existing),
        Err("'gp' is already managed by am; delete it first with: am delete gp".to_string())
    );
    assert_eq!(validate_alias_name(" gs ", &existing), Ok(()));
    assert_eq!(validate_alias_name("GP", &existing), Ok(()));
}

// -- ssh helpers --

#[test]
fn ssh_action_builds_user_at_host() {
    assert_eq!(ssh_action("forge", "127.0.0.1"), "ssh forge@127.0.0.1");
    assert_eq!(
        ssh_action("  forge  ", "  example.com  "),
        "ssh forge@example.com"
    );
    assert_eq!(
        format_alias_line(&entry(
            "srv",
            &ssh_action("forge", "127.0.0.1"),
            AliasKind::Ssh
        ))
        .unwrap(),
        r#"alias srv="ssh forge@127.0.0.1" #ssh"#
    );
}

#[test]
fn ssh_user_validation() {
    for good in ["forge", "deploy_user", "user.name", "a-b", "_svc", "u2"] {
        assert!(validate_ssh_user(good).is_ok(), "{good} should be valid");
    }
    for bad in [
        "", "   ", "for ge", "forge@x", "-forge", "f$", "a'b", "a\"b",
    ] {
        assert!(validate_ssh_user(bad).is_err(), "{bad} should be invalid");
    }
}

#[test]
fn ssh_host_validation() {
    for good in [
        "127.0.0.1",
        "example.com",
        "my-host_1",
        "2001:db8::1",
        "host",
    ] {
        assert!(validate_ssh_host(good).is_ok(), "{good} should be valid");
    }
    for bad in ["", "   ", "host name", "host/path", "$(x)", "a@b", "h'st"] {
        assert!(validate_ssh_host(bad).is_err(), "{bad} should be invalid");
    }
}

#[test]
fn ssh_complaints() {
    assert_eq!(
        validate_ssh_user(" "),
        Err("the ssh user cannot be empty".to_string())
    );
    assert_eq!(
        validate_ssh_user(".a"),
        Err(
            "the ssh user must start with a letter, digit or '_' and may only contain letters, digits, '.', '_' and '-'"
                .to_string()
        )
    );
    assert_eq!(
        validate_ssh_host(""),
        Err("the host cannot be empty".to_string())
    );
    assert_eq!(
        validate_ssh_host("a/b"),
        Err(
            "the host may only contain letters, digits, '.', ':', '_' and '-' (a hostname, IPv4 or IPv6 address)"
                .to_string()
        )
    );
    assert_eq!(validate_ssh_host(" -h "), Ok(()));
}
