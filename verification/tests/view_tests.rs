use ls_improved::colors::Colors;
use ls_improved::path::{LsiPath, LsiPathKind};
use ls_improved::view::{display, display_a_line, display_cwd};

fn entry(path: &str, kind: LsiPathKind, description: Option<&str>) -> LsiPath {
    let mut e = LsiPath::new(path.to_string(), kind, "by-name");
    if let Some(d) = description {
        e.set_description(d.to_string());
    }
    e
}

#[test]
fn a_described_directory_that_is_not_the_last() {
    let colors = Colors::new(None);
    let mut data = entry("x/data", LsiPathKind::Dir, Some("Raw inputs"));
    let line = display_a_line(&mut data, false, &colors, &None);
    assert_eq!(
        line,
        "\u{251c}\u{2500}\u{2500} \x1b[36m\x1b[4mdata\x1b[0m\t/ \x1b[33mRaw inputs\x1b[0m"
    );
    assert_eq!(data.get_description().as_deref(), Some("\x1b[33mRaw inputs\x1b[0m"));
}

#[test]
fn a_file_without_a_description() {
    let colors = Colors::new(None);
    let mut notes = entry("x/notes.txt", LsiPathKind::File, None);
    let line = display_a_line(&mut notes, true, &colors, &None);
    assert_eq!(line, "\u{2514}\u{2500}\u{2500} \x1b[37mnotes.txt\x1b[0m\t/ File");
    assert!(line.ends_with("/ File"));
    assert_eq!(notes.get_description(), &None);
}

#[test]
fn a_directory_without_a_description() {
    let colors = Colors::new(None);
    let mut src = entry("x/src", LsiPathKind::Dir, None);
    let line = display_a_line(&mut src, false, &colors, &Some(3));
    assert_eq!(line, "\u{251c}\u{2500}\u{2500} \x1b[36m\x1b[4msrc\x1b[0m\t/ Dir");
}

#[test]
fn a_described_file_with_two_lines() {
    let colors = Colors::new(None);
    let mut f = entry("x/ab", LsiPathKind::File, Some("first\nsecond\nthird"));
    let line = display_a_line(&mut f, true, &colors, &Some(2));
    assert_eq!(
        line,
        "\u{2514}\u{2500}\u{2500} \x1b[37mab\x1b[0m\t/ \x1b[33mfirst\x1b[0m\n      \t  \x1b[33msecond\x1b[0m"
    );
}

#[test]
fn the_line_of_the_listed_directory() {
    let colors = Colors::new(None);
    assert_eq!(
        display_cwd("/home/u/project", &colors),
        "\x1b[36m\x1b[4m/home/u/\x1b[0m\x1b[1;36m\x1b[4mproject/\x1b[0m"
    );
    assert_eq!(
        display_cwd("/home", &colors),
        "\x1b[36m\x1b[4m/\x1b[0m\x1b[1;36m\x1b[4mhome/\x1b[0m"
    );
    assert_eq!(display_cwd("/", &colors), "\x1b[1;36m\x1b[4m/\x1b[0m");
    assert_eq!(
        display_cwd("project", &colors),
        "\x1b[36m\x1b[4m/\x1b[0m\x1b[1;36m\x1b[4mproject/\x1b[0m"
    );
    assert_eq!(
        display_cwd("/home/u/project/", &colors),
        "\x1b[36m\x1b[4m/home/u/\x1b[0m\x1b[1;36m\x1b[4mproject/\x1b[0m"
    );
}

#[test]
fn a_whole_listing() {
    let colors = Colors::new(None);
    let mut entries = vec![
        entry("p/readme.md", LsiPathKind::File, Some("Start ;g;here;e;")),
        entry("p/src", LsiPathKind::Dir, None),
        entry("p/data", LsiPathKind::Dir, Some("Raw inputs\nand more")),
    ];
    let lines = display(&mut entries, &colors, "/home/u/p", &None);
    assert_eq!(
        lines,
        vec![
            "\x1b[36m\x1b[4m/home/u/\x1b[0m\x1b[1;36m\x1b[4mp/\x1b[0m".to_string(),
            "\u{251c}\u{2500}\u{2500} \x1b[36m\x1b[4mdata\x1b[0m\t/ \x1b[33mRaw inputs\x1b[0m\n\u{2502}       \t  \x1b[33mand more\x1b[0m".to_string(),
            "\u{251c}\u{2500}\u{2500} \x1b[36m\x1b[4msrc\x1b[0m\t/ Dir".to_string(),
            "\u{2514}\u{2500}\u{2500} \x1b[37mreadme.md\x1b[0m\t/ \x1b[33mStart \x1b[1;32mhere\x1b[0m\x1b[33m\x1b[0m".to_string(),
        ]
    );
    assert_eq!(entries.len(), 3);
    assert_eq!(entries[0].file_name(), "data");
    assert_eq!(entries[2].file_name(), "readme.md");
}

#[test]
fn an_empty_listing_has_one_line() {
    let colors = Colors::new(None);
    let mut entries: Vec<LsiPath> = Vec::new();
    let lines = display(&mut entries, &colors, "/", &Some(1));
    assert_eq!(lines, vec!["\x1b[1;36m\x1b[4m/\x1b[0m".to_string()]);
}

#[test]
fn only_the_last_entry_gets_the_corner() {
    let colors = Colors::new(None);
    let mut entries = vec![
        entry("p/c", LsiPathKind::File, Some("1\n2")),
        entry("p/a", LsiPathKind::File, Some("1\n2")),
        entry("p/b", LsiPathKind::File, Some("1\n2")),
    ];
    let lines = display(&mut entries, &colors, "/p", &None);
    assert!(lines[1].starts_with("\u{251c}") && lines[1].contains("\n\u{2502}"));
    assert!(lines[2].starts_with("\u{251c}") && lines[2].contains("\n\u{2502}"));
    assert!(lines[3].starts_with("\u{2514}") && lines[3].contains("\n "));
    assert!(!lines[3].contains("\u{2502}"));
}
