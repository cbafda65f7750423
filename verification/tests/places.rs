//! Paths: the home directory, input paths, and the actions of folder aliases.
use am::entry::{AliasEntry, AliasKind};
use am::error::AmError;
use am::line::format_alias_line;
use am::paths::{
    alias_file_path, contract_home, expand_input_path, folder_action, join, profile_path,
    strip_base,
};
use am::store::{append_entry, load_entries};
use std::path::Path;

fn entry(name: &str, action: &str, kind: AliasKind) -> AliasEntry {
    AliasEntry {
        name: name.into(),
        action: action.into(),
        kind,
    }
}

#[test]
fn contract_home_variants() {
    let home = "/root";
    assert_eq!(contract_home("/root/x", home), "~/x");
    assert_eq!(contract_home("/root", home), "~");
    assert_eq!(contract_home("/rootx", home), "/rootx");
    assert_eq!(contract_home("/other/y", home), "/other/y");
}

#[test]
fn expand_input_path_tilde_and_relative() {
    let home = Some("/h");
    let cwd = "/c";
    assert_eq!(expand_input_path("~/x", home, cwd), "/h/x");
    assert_eq!(expand_input_path("sub", home, cwd), "/c/sub");
    assert_eq!(expand_input_path("/abs", home, cwd), "/abs");
    assert_eq!(expand_input_path("  ~/x  ", home, cwd), "/h/x");
}

#[test]
fn expand_input_path_leaves_other_tildes_alone() {
    assert_eq!(expand_input_path("~", Some("/h"), "/c"), "/h");
    assert_eq!(expand_input_path("~user/x", Some("/h"), "/c"), "/c/~user/x");
    assert_eq!(expand_input_path("a/~/x", Some("/h"), "/c"), "/c/a/~/x");
    assert_eq!(expand_input_path("~/x", None, "/c"), "/c/~/x");
    assert_eq!(expand_input_path("", Some("/h"), "/c"), "/c/");
}

#[test]
fn folder_action_plain_and_spaced() {
    let home = "/root";
    assert_eq!(
        folder_action("/root/proj/p", home).unwrap(),
        "cd ~/proj/p"
    );
    assert_eq!(
        folder_action("/home/u/My Dir", home).unwrap(),
        r#"cd "/home/u/My Dir""#
    );
    let spaced = entry(
        "p",
        &folder_action("/home/u/My Dir", home).unwrap(),
        AliasKind::Folder,
    );
    assert_eq!(
        format_alias_line(&spaced).unwrap(),
        r#"alias p='cd "/home/u/My Dir"' #folder"#
    );
    assert!(folder_action("/home/u/it's", home).is_err());
    assert!(folder_action("/home/u/a$b c", home).is_err());
}

#[test]
fn folder_action_uses_the_full_path_in_quotes() {
    assert_eq!(
        folder_action("/root/My Dir", "/root").unwrap(),
        r#"cd "/root/My Dir""#
    );
    assert_eq!(folder_action("/root", "/root").unwrap(), "cd ~");
    assert_eq!(
        folder_action("/a_./~+@%=:,-b", "/root").unwrap(),
        "cd /a_./~+@%=:,-b"
    );
    assert_eq!(folder_action("/ho$me/x", "/ho$me").unwrap(), "cd ~/x");
    for bad in ["/a\"b", "/a'b", "/a$b", "/a`b", "/a\\b"] {
        let e = folder_action(bad, "/root").unwrap_err();
        assert_eq!(e, AmError::UnsafePath);
        assert_eq!(
            e.message(),
            "the folder path contains characters (quotes, $, ` or \\) that cannot be stored safely as a bash alias"
        );
    }
}

#[test]
fn a_line_break_in_the_home_directory_does_no_harm() {
    let action = folder_action("/h\nm/x", "/h\nm").unwrap();
    assert_eq!(action, "cd ~/x");
    let e = entry("p", &action, AliasKind::Folder);
    let content = append_entry("", &e).unwrap();
    assert_eq!(load_entries(&content), vec![e]);
}

#[test]
fn a_line_break_in_a_quoted_path_is_not_stored_on_one_line() {
    let action = folder_action("/a\nb", "/h").unwrap();
    assert_eq!(action, "cd \"/a\nb\"");
    let content = append_entry("", &entry("p", &action, AliasKind::Folder)).unwrap();
    assert_eq!(load_entries(&content), vec![]);
}

#[test]
fn paths_of_the_two_files() {
    assert_eq!(alias_file_path("/h"), "/h/.alias-management");
    assert_eq!(profile_path("/h"), "/h/.bash_profile");
    assert_eq!(alias_file_path("/"), "/.alias-management");
}

const PATHS: [&str; 24] = [
    "", "/", "//", ".", "./", "./a", "a", "a/", "a/.", "a/./b", "a//b", "/a", "/a/", "/a/b",
    "/a/b/", "/a/./b/.", "/a//b", "/ab", "..", "/..", "a/..", "/a/.b", "~", "~/x",
];

#[test]
fn strip_base_agrees_with_std() {
    for p in PATHS {
        for b in PATHS {
            let expected = Path::new(p)
                .strip_prefix(Path::new(b))
                .ok()
                .map(|r| r.to_str().unwrap().to_string());
            assert_eq!(strip_base(p, b), expected, "{p:?} below {b:?}");
        }
    }
}

#[test]
fn join_agrees_with_std() {
    for p in PATHS {
        for b in PATHS {
            let expected = Path::new(p).join(b);
            assert_eq!(join(p, b), expected.to_str().unwrap(), "{b:?} in {p:?}");
        }
    }
}

#[test]
fn contracted_paths_expand_again() {
    for p in ["/h/u", "/h/u/x", "/h/u/x/y z", "/h/u//x/./y/"] {
        let short = contract_home(p, "/h/u");
        let long = expand_input_path(&short, Some("/h/u"), "/c");
        assert_eq!(Path::new(&long), Path::new(p));
    }
    let short = contract_home("/x", "h");
    assert_eq!(expand_input_path(&short, Some("h"), "/c"), "/x");
}
