//! Listings: order, selection and the table.
use am::entry::{AliasEntry, AliasKind};
use am::listing::{build_table, cmd_list, select_entries, sort_for_display, ListFilter, Listing};

fn entry(name: &str, action: &str, kind: AliasKind) -> AliasEntry {
    AliasEntry {
        name: name.into(),
        action: action.into(),
        kind,
    }
}

fn everything() -> ListFilter {
    ListFilter {
        commands: false,
        folders: false,
        ssh: false,
        search: None,
    }
}

fn search(text: &str) -> ListFilter {
    ListFilter {
        search: Some(text.to_string()),
        ..everything()
    }
}

const CONTENT: &str = "# c\n\
    alias srv=\"ssh forge@127.0.0.1\" #ssh\n\
    alias p=\"cd ~/folder/personal\" #folder\n\
    alias gp=\"git pull\" #command\n\
    alias Dev=\"cd ~/Git\" #folder\n";

fn names(filter: &ListFilter) -> Vec<String> {
    match cmd_list(CONTENT, filter) {
        Listing::Rows(rows) => rows.into_iter().map(|e| e.name).collect(),
        Listing::Nothing(notice) => vec![notice],
    }
}

#[test]
fn sort_groups_commands_then_folders_then_ssh() {
    let mut entries = vec![
        entry("s2", "ssh b@h", AliasKind::Ssh),
        entry("z", "cd ~/z", AliasKind::Folder),
        entry("B", "echo b", AliasKind::Command),
        entry("s1", "ssh a@h", AliasKind::Ssh),
        entry("a", "cd ~/a", AliasKind::Folder),
        entry("c", "echo c", AliasKind::Command),
    ];
    sort_for_display(&mut entries);
    let names: Vec<&str> = entries.iter().map(|e| e.name.as_str()).collect();
    assert_eq!(names, vec!["B", "c", "a", "z", "s1", "s2"]);
}

#[test]
fn sort_is_by_lower_case_then_by_name_and_stable() {
    let mut entries = vec![
        entry("b", "1", AliasKind::Command),
        entry("a", "2", AliasKind::Command),
        entry("B", "3", AliasKind::Command),
        entry("a", "4", AliasKind::Command),
        entry("A_", "5", AliasKind::Command),
        entry("A.", "6", AliasKind::Command),
    ];
    let mut expected = entries.clone();
    expected.sort_by(|a, b| {
        a.kind
            .cmp(&b.kind)
            .then_with(|| a.name.to_lowercase().cmp(&b.name.to_lowercase()))
            .then_with(|| a.name.cmp(&b.name))
    });
    sort_for_display(&mut entries);
    assert_eq!(entries, expected);
    let order: Vec<&str> = entries.iter().map(|e| e.action.as_str()).collect();
    assert_eq!(order, vec!["2", "4", "6", "5", "3", "1"]);
}

#[test]
fn sort_agrees_with_std_on_every_order_of_names() {
    let names = ["a", "B", "b", "É", "é", "z", "Z", "ß", "a"];
    let mut state: u64 = 12345;
    for _ in 0..200 {
        let mut entries = Vec::new();
        for k in 0..names.len() {
            state = state.wrapping_mul(6364136223846793005).wrapping_add(1442695040888963407);
            let pick = (state >> 33) as usize % names.len();
            let kind = match (state >> 20) % 3 {
                0 => AliasKind::Command,
                1 => AliasKind::Folder,
                _ => AliasKind::Ssh,
            };
            entries.push(entry(names[pick], &k.to_string(), kind));
        }
        let mut expected = entries.clone();
        expected.sort_by(|a, b| {
            a.kind
                .cmp(&b.kind)
                .then_with(|| a.name.to_lowercase().cmp(&b.name.to_lowercase()))
                .then_with(|| a.name.cmp(&b.name))
        });
        sort_for_display(&mut entries);
        assert_eq!(entries, expected);
    }
}

#[test]
fn table_contains_rows_in_order() {
    let entries = vec![
        entry("gp", "git pull", AliasKind::Command),
        entry("p", "cd ~/x", AliasKind::Folder),
        entry("srv", "ssh forge@127.0.0.1", AliasKind::Ssh),
    ];
    let rendered = build_table(&entries).to_string();
    for cell in ["type", "alias", "action", "command", "folder", "ssh"] {
        assert!(rendered.contains(cell), "table should contain '{cell}'");
    }
    let gp_pos = rendered.find("git pull").unwrap();
    let p_pos = rendered.find("cd ~/x").unwrap();
    let srv_pos = rendered.find("ssh forge@127.0.0.1").unwrap();
    assert!(
        gp_pos < p_pos && p_pos < srv_pos,
        "rows should be ordered command, folder, ssh"
    );
}

#[test]
fn table_is_drawn_with_condensed_lines() {
    let entries = vec![
        entry("gp", "git pull", AliasKind::Command),
        entry("p", "cd ~/folder/personal", AliasKind::Folder),
        entry("srv", "ssh forge@127.0.0.1", AliasKind::Ssh),
    ];
    let mut table = build_table(&entries);
    table.set_width(80);
    assert_eq!(
        table.to_string(),
        "┌─────────┬───────┬──────────────────────┐\n\
         │ type    ┆ alias ┆ action               │\n\
         ╞═════════╪═══════╪══════════════════════╡\n\
         │ command ┆ gp    ┆ git pull             │\n\
         │ folder  ┆ p     ┆ cd ~/folder/personal │\n\
         │ ssh     ┆ srv   ┆ ssh forge@127.0.0.1  │\n\
         └─────────┴───────┴──────────────────────┘"
    );
}

#[test]
fn table_holds_what_was_put_into_it() {
    let table = build_table(&[entry("a b", "x\ty", AliasKind::Ssh)]);
    let header: Vec<String> = table
        .header()
        .unwrap()
        .cell_iter()
        .map(|c| c.content())
        .collect();
    assert_eq!(header, vec!["type", "alias", "action"]);
    let rows: Vec<Vec<String>> = table
        .row_iter()
        .map(|r| r.cell_iter().map(|c| c.content()).collect())
        .collect();
    assert_eq!(rows, vec![vec!["ssh", "a b", "x\ty"]]);
    assert!(matches!(
        table.content_arrangement(),
        comfy_table::ContentArrangement::Dynamic
    ));
    let mut styled = comfy_table::Table::new();
    styled.load_preset(comfy_table::presets::UTF8_FULL_CONDENSED);
    assert_eq!(comfy_table::presets::UTF8_FULL_CONDENSED, "││──╞═╪╡┆    ┬┴┌┐└┘");
    let mut table = table;
    assert_eq!(table.current_style_as_preset(), styled.current_style_as_preset());
    assert_eq!(table.current_style_as_preset(), "││──╞═╪╡┆    ┬┴┌┐└┘");
    assert!(build_table(&[]).row(0).is_none());
}

#[test]
fn list_shows_everything_grouped() {
    assert_eq!(names(&everything()), vec!["gp", "Dev", "p", "srv"]);
}

#[test]
fn list_filters_combine() {
    let commands = ListFilter {
        commands: true,
        ..everything()
    };
    assert_eq!(names(&commands), vec!["gp"]);
    let commands_and_ssh = ListFilter {
        commands: true,
        ssh: true,
        ..everything()
    };
    assert_eq!(names(&commands_and_ssh), vec!["gp", "srv"]);
    let folders_with_git = ListFilter {
        folders: true,
        ..search("git")
    };
    assert_eq!(names(&folders_with_git), vec!["Dev"]);
}

#[test]
fn search_ignores_case_and_looks_in_names_and_actions() {
    assert_eq!(names(&search("git")), vec!["gp", "Dev"]);
    assert_eq!(names(&search("GIT")), vec!["gp", "Dev"]);
    assert_eq!(names(&search("dev")), vec!["Dev"]);
    assert_eq!(names(&search("127.0")), vec!["srv"]);
    assert_eq!(names(&search("")), vec!["gp", "Dev", "p", "srv"]);
    assert_eq!(names(&search("nothing")), vec!["No managed alias matches."]);
}

#[test]
fn list_says_that_there_is_nothing() {
    match cmd_list("# c\nalias x=\"y\"\n", &everything()) {
        Listing::Nothing(notice) => assert_eq!(
            notice,
            "No aliases managed yet. Run `am new` to create one."
        ),
        Listing::Rows(_) => panic!("nothing is managed"),
    }
    match cmd_list("", &search("x")) {
        Listing::Nothing(notice) => assert_eq!(
            notice,
            "No aliases managed yet. Run `am new` to create one."
        ),
        Listing::Rows(_) => panic!("nothing is managed"),
    }
}

#[test]
fn select_keeps_the_order() {
    let all = vec![
        entry("b", "ssh u@h", AliasKind::Ssh),
        entry("a", "ls", AliasKind::Command),
        entry("c", "ssh v@h", AliasKind::Ssh),
    ];
    let ssh = ListFilter {
        ssh: true,
        ..everything()
    };
    assert_eq!(select_entries(&all, &ssh), vec![all[0].clone(), all[2].clone()]);
    assert!(ssh.is_selected(&all[0]));
    assert!(!ssh.is_selected(&all[1]));
}
