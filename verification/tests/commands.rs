//! Command lines and what they take.
use am::cli::{ensure_interactive, home_dir, run, Cmd, Task};
use am::error::AmError;
use am::install::{escape, install_dir, install_target, installed, is_on_path};
use am::listing::ListFilter;

fn list() -> Option<Cmd> {
    Some(Cmd::List(ListFilter {
        commands: false,
        folders: false,
        ssh: true,
        search: None,
    }))
}

#[test]
fn home_has_to_be_set() {
    assert_eq!(home_dir(Some("/h")), Ok("/h".to_string()));
    assert_eq!(home_dir(Some("")), Err(AmError::HomeNotSet));
    assert_eq!(home_dir(None), Err(AmError::HomeNotSet));
    assert_eq!(
        AmError::HomeNotSet.message(),
        "HOME is not set; am needs it to locate ~/.alias-management"
    );
}

#[test]
fn somebody_has_to_be_there() {
    assert_eq!(ensure_interactive(true), Ok(()));
    assert_eq!(ensure_interactive(false), Err(AmError::NotInteractive));
}

#[test]
fn no_command_shows_the_help_once_set_up() {
    let job = run(None, Some("/h")).ok().unwrap();
    assert!(matches!(job.task, Task::Help));
    let files = job.files.unwrap();
    assert_eq!(files.home, "/h");
    assert_eq!(files.alias_path, "/h/.alias-management");
    assert_eq!(files.profile_path, "/h/.bash_profile");
}

#[test]
fn commands_need_the_home_directory() {
    let job = run(list(), Some("/h")).ok().unwrap();
    assert!(job.files.is_some());
    match job.task {
        Task::Run(Cmd::List(f)) => assert!(f.ssh && !f.commands),
        _ => panic!("a listing was asked for"),
    }
    assert_eq!(run(list(), None).err(), Some(AmError::HomeNotSet));
    assert_eq!(run(None, Some("")).err(), Some(AmError::HomeNotSet));
}

#[test]
fn installing_leaves_the_files_alone() {
    let job = run(Some(Cmd::Install { dir: None }), None).ok().unwrap();
    assert!(job.files.is_none());
    assert!(matches!(job.task, Task::Run(Cmd::Install { dir: None })));
}

#[test]
fn where_to_install() {
    assert_eq!(install_dir(Some("/x"), "/c", true, None), Ok("/x".to_string()));
    assert_eq!(install_dir(Some("bin"), "/c", true, None), Ok("/c/bin".to_string()));
    assert_eq!(
        install_dir(None, "/c", true, None),
        Ok("/usr/local/bin".to_string())
    );
    assert_eq!(
        install_dir(None, "/c", false, Some("/h")),
        Ok("/h/.local/bin".to_string())
    );
    assert_eq!(install_dir(None, "/c", false, None), Err(AmError::HomeNotSet));
    assert_eq!(install_target("/usr/local/bin"), "/usr/local/bin/am");
}

#[test]
fn folders_on_the_path_are_told_by_their_components() {
    assert!(is_on_path("/usr/bin:/h/bin:/bin", "/h/bin"));
    assert!(is_on_path("/usr/local/bin", "/usr/local/bin/"));
    assert!(is_on_path("/usr//local/./bin/:/bin", "/usr/local/bin"));
    assert!(is_on_path("/bin:/h/bin", "/h/bin"));
    assert!(!is_on_path("/usr/bin:/h/bin2:/x/h/bin", "/h/bin"));
    assert!(!is_on_path("", "/h/bin"));
    assert!(!is_on_path("/a:b", "/a:b"));
}

#[test]
fn installing_says_what_to_add_to_the_path() {
    assert_eq!(
        installed("/h/bin", "/usr/bin:/h/bin:/bin"),
        vec!["Installed /h/bin/am"]
    );
    assert_eq!(
        installed("/usr/local/bin/", "/usr/local/bin"),
        vec!["Installed /usr/local/bin/am"]
    );
    assert_eq!(
        installed("/h/bin", "/usr/bin"),
        vec![
            "Installed /h/bin/am",
            "/h/bin is not on your PATH; add this line to ~/.bash_profile:",
            "export PATH=\"/h/bin:$PATH\"",
        ]
    );
    assert_eq!(
        installed("/opt/a$b", "/usr/bin")[2],
        "export PATH=\"/opt/a\\$b:$PATH\""
    );
    for dir in ["/a:b", "/a\nb"] {
        assert_eq!(
            installed(dir, "/a:/bin"),
            vec![
                format!("Installed {dir}/am"),
                format!(
                    "{dir} is not on your PATH and cannot be put there: its name contains a colon or a line break"
                ),
            ]
        );
    }
}

#[test]
fn a_folder_whose_name_holds_a_line_break_is_still_found() {
    assert_eq!(
        installed("/a\nb", "/bin:/a\nb"),
        vec!["Installed /a\nb/am"]
    );
}

#[test]
fn escaping_leaves_single_quotes_alone() {
    assert_eq!(escape("/a b's \"$x\" `y` \\z"), "/a b's \\\"\\$x\\\" \\`y\\` \\\\z");
    assert_eq!(escape(""), "");
}
