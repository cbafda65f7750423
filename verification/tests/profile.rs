//! The shell-integration block and the first-run setup.
use am::profile::{
    ensure_setup, with_profile_block, Found, ALIAS_FILE_HEADER, PROFILE_BLOCK,
    PROFILE_CREATE_PREAMBLE, PROFILE_MARKER_BEGIN,
};

#[test]
fn profile_block_appended_once() {
    let out = with_profile_block("").unwrap();
    assert!(out.starts_with(PROFILE_MARKER_BEGIN));
    assert_eq!(out.matches(PROFILE_MARKER_BEGIN).count(), 1);

    let out = with_profile_block("export PATH=$PATH:/x").unwrap();
    assert!(out.starts_with("export PATH=$PATH:/x\n\n# >>>"));
    assert_eq!(out.matches(PROFILE_MARKER_BEGIN).count(), 1);
    assert!(out.ends_with('\n'));
}

#[test]
fn profile_block_idempotent() {
    let installed = with_profile_block("").unwrap();
    assert!(with_profile_block(&installed).is_none());
}

#[test]
fn profile_block_shape() {
    assert!(PROFILE_BLOCK.starts_with(PROFILE_MARKER_BEGIN));
    assert!(PROFILE_BLOCK
        .trim_end()
        .ends_with("# <<< alias-management (am) <<<"));
    assert!(PROFILE_BLOCK.ends_with('\n'));
}

#[test]
fn profile_created_fresh_sources_dot_profile() {
    let out = with_profile_block(PROFILE_CREATE_PREAMBLE).unwrap();
    assert!(out.contains(r#"[ -f "$HOME/.profile" ] && source "$HOME/.profile""#));
    assert!(out.contains(PROFILE_MARKER_BEGIN));
}

#[test]
fn profile_block_keeps_a_blank_line_before_it() {
    assert_eq!(
        with_profile_block("x\n").unwrap(),
        format!("x\n\n{PROFILE_BLOCK}")
    );
    assert_eq!(
        with_profile_block("x").unwrap(),
        format!("x\n\n{PROFILE_BLOCK}")
    );
    assert_eq!(
        with_profile_block("# >>> alias-management (am) >>>"),
        None
    );
    assert_eq!(
        with_profile_block("text # >>> alias-management (am) >>> text"),
        None
    );
}

#[test]
fn texts_of_the_block_and_the_headers() {
    assert_eq!(
        PROFILE_BLOCK.lines().collect::<Vec<&str>>(),
        vec![
            "# >>> alias-management (am) >>>",
            "# Added by `am` (alias-management). Do not edit this block by hand.",
            "# Loads managed aliases and re-sources them after every `am` run so",
            "# changes take effect in the current shell immediately.",
            "[ -f \"$HOME/.alias-management\" ] && source \"$HOME/.alias-management\"",
            "am() {",
            "    command am \"$@\"",
            "    local am_status=$?",
            "    if [ -f \"$HOME/.alias-management\" ]; then",
            "        source \"$HOME/.alias-management\"",
            "    fi",
            "    return $am_status",
            "}",
            "# <<< alias-management (am) <<<",
        ]
    );
    assert_eq!(
        ALIAS_FILE_HEADER,
        "# Managed by `am` (alias-management).\n\
         # Lines of the form\n\
         #   alias <name>=\"<action>\" #command\n\
         #   alias <name>=\"<action>\" #folder\n\
         #   alias <name>=\"<action>\" #ssh\n\
         # are owned by am. Anything else in this file is left untouched.\n"
    );
    assert_eq!(
        PROFILE_CREATE_PREAMBLE,
        "# Created by `am` (alias-management).\n\
         # Keep sourcing ~/.profile: bash skips it for login shells once\n\
         # ~/.bash_profile exists.\n\
         [ -f \"$HOME/.profile\" ] && source \"$HOME/.profile\"\n"
    );
}

#[test]
fn setup_creates_a_missing_alias_file() {
    let w = ensure_setup(&Found::Aliases { exists: false }, "/h/.alias-management").unwrap();
    assert_eq!(w.content, ALIAS_FILE_HEADER);
    assert_eq!(w.notices, vec!["Created /h/.alias-management"]);
    assert!(ensure_setup(&Found::Aliases { exists: true }, "/h/.alias-management").is_none());
}

#[test]
fn setup_creates_a_missing_profile() {
    let w = ensure_setup(&Found::Profile { content: None }, "/h/.bash_profile").unwrap();
    assert_eq!(
        w.content,
        format!("{PROFILE_CREATE_PREAMBLE}\n{PROFILE_BLOCK}")
    );
    assert_eq!(
        w.notices,
        vec![
            "Created /h/.bash_profile with the am shell integration (it also sources ~/.profile so your login environment is preserved)",
            "Restart your shell or run: source ~/.bash_profile",
        ]
    );
    let again = Found::Profile {
        content: Some(w.content),
    };
    assert!(ensure_setup(&again, "/h/.bash_profile").is_none());
}

#[test]
fn setup_extends_a_profile_once() {
    let found = Found::Profile {
        content: Some("export A=1".to_string()),
    };
    let w = ensure_setup(&found, "/h/.bash_profile").unwrap();
    assert_eq!(w.content, format!("export A=1\n\n{PROFILE_BLOCK}"));
    assert_eq!(
        w.notices,
        vec![
            "Installed the am shell integration in /h/.bash_profile",
            "Restart your shell or run: source ~/.bash_profile",
        ]
    );
    let again = Found::Profile {
        content: Some(w.content),
    };
    assert!(ensure_setup(&again, "/h/.bash_profile").is_none());
}
