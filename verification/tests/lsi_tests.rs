use ls_improved::config::{ColorConf, Config};
use ls_improved::errors::LsiError;
use ls_improved::fs::{FoundEntry, SidecarStore};
use ls_improved::lsi::{get_and_set_description, get_and_set_descriptions, run};
use ls_improved::mkdiri::{launch_editor, mkdiri_description, MkdiriPlan};
use ls_improved::path::{LsiPath, LsiPathKind};
use ls_improved::LsiArgs;

fn args<'a>(path: &'a str, sort_mode: &str) -> LsiArgs<'a> {
    LsiArgs {
        path,
        show_hidden: false,
        is_only: None,
        config_path: None,
        desc_num: None,
        is_mkdiri_mode: false,
        set_description: None,
        edit_description: None,
        sort_mode: sort_mode.to_string(),
    }
}

fn found() -> Vec<FoundEntry> {
    vec![
        FoundEntry { path: "./src".to_string(), is_dir: true, is_file: false },
        FoundEntry { path: "./.git".to_string(), is_dir: true, is_file: false },
        FoundEntry { path: "./b.txt".to_string(), is_dir: false, is_file: true },
        FoundEntry { path: "./a.txt".to_string(), is_dir: false, is_file: true },
        FoundEntry { path: "./data".to_string(), is_dir: true, is_file: false },
    ]
}

fn store() -> SidecarStore {
    let mut store = SidecarStore::new();
    store.insert("/w/p/data/.description.lsi".to_string(), "Raw inputs\n".to_string());
    store.insert("/w/p/.file_description_lsi/.b.txt.lsi".to_string(), " ;r;Beta;e; \n".to_string());
    store.insert("/w/p/.file_description_lsi/.a.txt.lsi".to_string(), "Zeta".to_string());
    store
}

#[test]
fn a_listing_by_name() {
    let lines = run(&args(".", "by-name"), &found(), None, "/w/p", &store());
    assert_eq!(
        lines,
        vec![
            "\x1b[36m\x1b[4m/w/\x1b[0m\x1b[1;36m\x1b[4mp/\x1b[0m".to_string(),
            "\u{251c}\u{2500}\u{2500} \x1b[36m\x1b[4mdata\x1b[0m\t/ \x1b[33mRaw inputs\x1b[0m".to_string(),
            "\u{251c}\u{2500}\u{2500} \x1b[36m\x1b[4msrc\x1b[0m\t/ Dir".to_string(),
            "\u{251c}\u{2500}\u{2500} \x1b[37ma.txt\x1b[0m\t/ \x1b[33mZeta\x1b[0m".to_string(),
            "\u{2514}\u{2500}\u{2500} \x1b[37mb.txt\x1b[0m\t/ \x1b[33m\x1b[1;31mBeta\x1b[0m\x1b[33m\x1b[0m".to_string(),
        ]
    );
}

#[test]
fn a_listing_by_description() {
    let lines = run(&args(".", "by-description"), &found(), None, "/w/p", &store());
    assert_eq!(lines.len(), 5);
    assert!(lines[1].contains("data"));
    assert!(lines[2].contains("src"));
    assert!(lines[3].contains("b.txt"));
    assert!(lines[4].contains("a.txt"));
    let short = run(&args(".", "d"), &found(), None, "/w/p", &store());
    assert_eq!(short, lines);
}

#[test]
fn a_listing_with_hidden_entries_and_a_restriction() {
    let mut a = args(".", "by-name");
    a.show_hidden = true;
    a.is_only = Some(LsiPathKind::Dir);
    let lines = run(&a, &found(), None, "/w/p", &store());
    assert_eq!(lines.len(), 4);
    assert!(lines[1].contains(".git"));
    assert!(lines[2].contains("data"));
    assert!(lines[3].contains("src") && lines[3].starts_with("\u{2514}"));
}

#[test]
fn a_listing_in_configured_colours() {
    let conf = ColorConf {
        red: None,
        blue: None,
        green: None,
        white: None,
        purple: None,
        yellow: None,
        cyan: None,
        underline: None,
        end: Some(vec!["[m".to_string()]),
        dir: Some(vec!["[1m".to_string(), "[34m".to_string()]),
        current_dir: None,
        file: None,
        description: Some(vec!["[2m".to_string()]),
    };
    let config = Config { colors: Some(conf) };
    let mut a = args(".", "by-name");
    a.is_only = Some(LsiPathKind::Dir);
    a.desc_num = Some(1);
    let lines = run(&a, &found(), Some(&config), "/w/p", &store());
    assert_eq!(
        lines,
        vec![
            "\x1b[1m\x1b[34m/w/\x1b[m\x1b[1;36m\x1b[4mp/\x1b[m".to_string(),
            "\u{251c}\u{2500}\u{2500} \x1b[1m\x1b[34mdata\x1b[m\t/ \x1b[2mRaw inputs\x1b[m".to_string(),
            "\u{2514}\u{2500}\u{2500} \x1b[1m\x1b[34msrc\x1b[m\t/ Dir".to_string(),
        ]
    );
    let plain = Config { colors: None };
    let default_lines = run(&a, &found(), Some(&plain), "/w/p", &store());
    assert_eq!(default_lines, run(&a, &found(), None, "/w/p", &store()));
}

#[test]
fn a_missing_description_is_no_error() {
    let store = store();
    let mut data = LsiPath::new("./data".to_string(), LsiPathKind::Dir, "by-name");
    assert!(get_and_set_description(&mut data, "/w/p", &store).is_ok());
    assert_eq!(data.get_description().as_deref(), Some("Raw inputs"));
    let mut src = LsiPath::new("./src".to_string(), LsiPathKind::Dir, "by-name");
    assert!(get_and_set_description(&mut src, "/w/p", &store).is_ok());
    assert_eq!(src.get_description(), &None);
    let mut nameless = LsiPath::new("".to_string(), LsiPathKind::File, "by-name");
    assert!(get_and_set_description(&mut nameless, "/w/p", &store).is_ok());
    assert_eq!(nameless.get_description(), &None);
    let mut b = LsiPath::new("./b.txt".to_string(), LsiPathKind::File, "by-name");
    b.set_description("old".to_string());
    assert!(get_and_set_description(&mut b, "/w/p", &store).is_ok());
    assert_eq!(b.get_description().as_deref(), Some(";r;Beta;e;"));
}

#[test]
fn every_entry_gets_its_description() {
    let mut entries = vec![
        LsiPath::new("./b.txt".to_string(), LsiPathKind::File, "by-name"),
        LsiPath::new("./src".to_string(), LsiPathKind::Dir, "by-name"),
        LsiPath::new("./data".to_string(), LsiPathKind::Dir, "by-name"),
    ];
    get_and_set_descriptions(&mut entries, "/w/p", &store());
    assert_eq!(entries.len(), 3);
    assert_eq!(entries[0].file_name(), "b.txt");
    assert_eq!(entries[0].get_description().as_deref(), Some(";r;Beta;e;"));
    assert_eq!(entries[1].get_description(), &None);
    assert_eq!(entries[2].get_description().as_deref(), Some("Raw inputs"));
}

#[test]
fn setting_a_description_is_planned() {
    let mut a = args("data", "by-name");
    a.is_mkdiri_mode = true;
    a.set_description = Some("Raw\\ninputs");
    a.edit_description = Some("vi");
    match ls_improved::mkdiri::run(&a, "/w/p/data", true) {
        Ok(MkdiriPlan::Write(plan)) => {
            assert_eq!(plan.directory, None);
            assert_eq!(plan.file, "/w/p/data/.description.lsi");
            assert_eq!(plan.content, "Raw\ninputs");
        }
        other => panic!("unexpected plan: {:?}", other),
    }
    match mkdiri_description("/w/p/a.txt", false, Some("note"), None) {
        Ok(MkdiriPlan::Write(plan)) => {
            assert_eq!(plan.directory.as_deref(), Some("/w/p/.file_description_lsi"));
            assert_eq!(plan.file, "/w/p/.file_description_lsi/.a.txt.lsi");
            assert_eq!(plan.content, "note");
        }
        other => panic!("unexpected plan: {:?}", other),
    }
    assert!(matches!(
        mkdiri_description("/", false, Some("note"), None),
        Err(LsiError::InvalidPath)
    ));
}

#[test]
fn editing_a_description_is_planned() {
    match mkdiri_description("/w/p/data", true, None, Some("vim")) {
        Ok(MkdiriPlan::Edit(plan)) => {
            assert_eq!(plan.directory, None);
            assert_eq!(plan.file, "/w/p/data/.description.lsi");
            assert_eq!(plan.editor, "vim");
            assert_eq!(plan.announcement, "Exec: vim /w/p/data/.description.lsi");
        }
        other => panic!("unexpected plan: {:?}", other),
    }
    let plan = launch_editor("/w/p/a.txt", false, "nano -w").unwrap();
    assert_eq!(plan.directory.as_deref(), Some("/w/p/.file_description_lsi"));
    assert_eq!(plan.file, "/w/p/.file_description_lsi/.a.txt.lsi");
    assert_eq!(plan.announcement, "Exec: nano -w /w/p/.file_description_lsi/.a.txt.lsi");
    assert!(matches!(launch_editor("/", false, "vi"), Err(LsiError::InvalidPath)));
    assert!(launch_editor("/", true, "vi").is_ok());
}

#[test]
fn nothing_to_do_is_an_error() {
    match mkdiri_description("/w/p/data", true, None, None) {
        Err(LsiError::FailedLaunchEditor(why)) => {
            assert_eq!(why, "no description and no editor given");
        }
        other => panic!("unexpected plan: {:?}", other),
    }
}

#[test]
fn errors_have_messages() {
    assert_eq!(
        LsiError::DescriptionNotFound.message(),
        "Description not found for the specified path"
    );
    assert_eq!(
        LsiError::PathNotFound.message(),
        "Path not found: The specified path does not exist or is inaccessible"
    );
    assert_eq!(
        LsiError::FailedDisplay("broken pipe".to_string()).message(),
        "Failed to display output: broken pipe"
    );
    assert_eq!(
        LsiError::FailedLaunchEditor("vi".to_string()).message(),
        "Failed to launch editor: vi"
    );
    assert_eq!(
        LsiError::InvalidPath.message(),
        "Invalid path format: The path contains invalid characters or is malformed"
    );
    assert_eq!(
        LsiError::FileOperationFailed("rename".to_string()).message(),
        "File operation failed: rename"
    );
    assert_eq!(
        LsiError::PermissionDenied("/root".to_string()).message(),
        "Permission denied: Insufficient permissions to access /root"
    );
    assert_eq!(LsiError::IoError("disk full".to_string()).message(), "I/O error: disk full");
}
