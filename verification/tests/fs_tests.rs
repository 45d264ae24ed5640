use ls_improved::errors::LsiError;
use ls_improved::fs::{
    dir_description_path, file_description_dir, file_description_path, get_pathes, normalize,
    path_filter, read_description_file, read_dir_description, read_file_description,
    write_description, FoundEntry, SidecarStore,
};
use ls_improved::path::{LsiPath, LsiPathKind};
use ls_improved::text::{char_is_space, same_text, trim};
use regex::{NoExpand, Regex};

fn found(path: &str, is_dir: bool) -> FoundEntry {
    FoundEntry { path: path.to_string(), is_dir, is_file: !is_dir }
}

fn store_with(files: &[(&str, &str)]) -> SidecarStore {
    let mut store = SidecarStore::new();
    for (path, content) in files {
        store.insert(path.to_string(), content.to_string());
    }
    store
}

#[test]
fn white_space_is_what_the_standard_library_says() {
    for code in 0..=0x10ffffu32 {
        if let Some(c) = char::from_u32(code) {
            assert_eq!(char_is_space(c), c.is_whitespace(), "U+{:04X}", code);
        }
    }
}

#[test]
fn trimming_agrees_with_the_standard_library() {
    for s in ["", " ", "a", " a ", "\n\ta b\r\n", "\u{3000}x\u{a0}", "  \n  ", "x \u{2003} y\u{2028}"] {
        let got: String = trim(&s.chars().collect()).iter().collect();
        assert_eq!(got, s.trim());
    }
}

#[test]
fn texts_are_the_same_or_not() {
    assert!(same_text("", ""));
    assert!(same_text("abc", "abc"));
    assert!(!same_text("abc", "abd"));
    assert!(!same_text("abc", "ab"));
    assert!(!same_text("", "a"));
    assert!(same_text("\u{65e5}", "\u{65e5}"));
}

#[test]
fn stored_text_is_normalized() {
    assert_eq!(normalize("  Raw inputs \n"), "Raw inputs");
    assert_eq!(normalize("one\r\ntwo\r\n"), "one\ntwo");
    assert_eq!(normalize("one\n\ntwo"), "one\n\ntwo");
    assert_eq!(normalize("a\rb"), "a\rb");
    assert_eq!(normalize("a\r\r\nb"), "a\r\nb");
    assert_eq!(normalize("\n\n"), "");
    assert_eq!(normalize(""), "");
}

#[test]
fn normalizing_agrees_with_reading_line_by_line() {
    for s in ["", "a", "a\n", "a\r\n", "\r\na\r\n\r\nb", " x \r", "a\rb\n", "one\r\ntwo\nthree\r\n\r\n", "\n", "a\r\r\n b"] {
        let joined = s.lines().collect::<Vec<_>>().join("\n");
        assert_eq!(normalize(s), joined.trim(), "{:?}", s);
    }
}

#[test]
fn the_filter_hides_and_restricts() {
    let visible_dir = found("x/src", true);
    let hidden_dir = found("x/.git", true);
    let visible_file = found("x/a.txt", false);
    let hidden_file = found("x/.env", false);
    let odd = FoundEntry { path: "x/socket".to_string(), is_dir: false, is_file: false };
    assert!(path_filter(&visible_dir, &None, &false));
    assert!(!path_filter(&hidden_dir, &None, &false));
    assert!(path_filter(&hidden_dir, &None, &true));
    assert!(path_filter(&visible_file, &None, &false));
    assert!(!path_filter(&hidden_file, &None, &false));
    assert!(path_filter(&visible_dir, &Some(LsiPathKind::Dir), &false));
    assert!(!path_filter(&visible_file, &Some(LsiPathKind::Dir), &false));
    assert!(path_filter(&visible_file, &Some(LsiPathKind::File), &false));
    assert!(!path_filter(&visible_dir, &Some(LsiPathKind::File), &false));
    assert!(!path_filter(&hidden_file, &Some(LsiPathKind::File), &false));
    assert!(path_filter(&hidden_file, &Some(LsiPathKind::File), &true));
    assert!(path_filter(&odd, &None, &false));
    assert!(!path_filter(&odd, &Some(LsiPathKind::File), &false));
    assert!(!path_filter(&odd, &Some(LsiPathKind::Dir), &true));
}

#[test]
fn the_entries_of_a_listing() {
    let all = vec![
        found("x/b.txt", false),
        found("x/.hidden", false),
        found("x/zdir", true),
        found("x/a.txt", false),
        found("x/adir", true),
    ];
    let names = |paths: &Vec<LsiPath>| -> Vec<String> {
        paths.iter().map(|p| p.file_name().to_string()).collect()
    };
    let shown = get_pathes(&all, &None, &false, "by-name");
    assert_eq!(names(&shown), ["adir", "zdir", "a.txt", "b.txt"]);
    assert!(shown.iter().all(|p| p.get_description().is_none()));
    assert!(shown.iter().all(|p| p.get_sort_mode() == "by-name"));
    assert_eq!(shown[0].kind(), LsiPathKind::Dir);
    assert_eq!(shown[3].kind(), LsiPathKind::File);
    let with_hidden = get_pathes(&all, &None, &true, "by-name");
    assert_eq!(names(&with_hidden), ["adir", "zdir", ".hidden", "a.txt", "b.txt"]);
    let dirs = get_pathes(&all, &Some(LsiPathKind::Dir), &true, "by-name");
    assert_eq!(names(&dirs), ["adir", "zdir"]);
    let files = get_pathes(&all, &Some(LsiPathKind::File), &false, "d");
    assert_eq!(names(&files), ["a.txt", "b.txt"]);
    assert!(get_pathes(&Vec::new(), &None, &true, "by-name").is_empty());
}

#[test]
fn where_descriptions_are_kept() {
    assert_eq!(dir_description_path("/home/u/data"), "/home/u/data/.description.lsi");
    assert_eq!(dir_description_path("/"), "/.description.lsi");
    assert_eq!(file_description_dir("/home/u/a.txt"), "/home/u/.file_description_lsi");
    assert_eq!(file_description_dir("/a.txt"), "/.file_description_lsi");
    assert_eq!(
        file_description_path("/home/u/a.txt").unwrap(),
        "/home/u/.file_description_lsi/.a.txt.lsi"
    );
    assert_eq!(file_description_path("/a.txt").unwrap(), "/.file_description_lsi/.a.txt.lsi");
    assert_eq!(file_description_path("a.txt").unwrap(), ".file_description_lsi/.a.txt.lsi");
    assert!(matches!(file_description_path("/"), Err(LsiError::InvalidPath)));
    assert!(matches!(file_description_path(""), Err(LsiError::InvalidPath)));
}

#[test]
fn the_store_keeps_the_latest_content() {
    let mut store = SidecarStore::new();
    assert_eq!(store.get("/a"), None);
    store.insert("/a".to_string(), "one".to_string());
    store.insert("/b".to_string(), "two".to_string());
    assert_eq!(store.get("/a").map(|s| s.as_str()), Some("one"));
    assert_eq!(store.get("/b").map(|s| s.as_str()), Some("two"));
    store.insert("/a".to_string(), "three".to_string());
    assert_eq!(store.get("/a").map(|s| s.as_str()), Some("three"));
    assert_eq!(store.get("/b").map(|s| s.as_str()), Some("two"));
    assert_eq!(store.get("/c"), None);
    assert_eq!(store.get(""), None);
}

#[test]
fn descriptions_are_read_from_the_store() {
    let store = store_with(&[
        ("/home/u/data/.description.lsi", "  Raw inputs\n"),
        ("/home/u/.file_description_lsi/.a.txt.lsi", "notes\r\nmore\n"),
    ]);
    assert_eq!(
        read_description_file("/home/u/data/.description.lsi", &store).unwrap(),
        "Raw inputs"
    );
    assert!(matches!(
        read_description_file("/nowhere", &store),
        Err(LsiError::DescriptionNotFound)
    ));
    let data = LsiPath::new("./data".to_string(), LsiPathKind::Dir, "by-name");
    let a = LsiPath::new("./a.txt".to_string(), LsiPathKind::File, "by-name");
    let other = LsiPath::new("./other".to_string(), LsiPathKind::Dir, "by-name");
    let nameless = LsiPath::new("/".to_string(), LsiPathKind::Dir, "by-name");
    assert_eq!(read_dir_description(&data, "/home/u", &store).unwrap(), "Raw inputs");
    assert_eq!(read_file_description(&a, "/home/u", &store).unwrap(), "notes\nmore");
    assert!(matches!(
        read_dir_description(&other, "/home/u", &store),
        Err(LsiError::DescriptionNotFound)
    ));
    assert!(matches!(
        read_file_description(&data, "/home/u", &store),
        Err(LsiError::DescriptionNotFound)
    ));
    assert!(matches!(
        read_dir_description(&data, "/elsewhere", &store),
        Err(LsiError::DescriptionNotFound)
    ));
    assert!(matches!(
        read_dir_description(&nameless, "/home/u", &store),
        Err(LsiError::InvalidPath)
    ));
    assert!(matches!(
        read_file_description(&nameless, "/home/u", &store),
        Err(LsiError::InvalidPath)
    ));
}

#[test]
fn writing_is_planned() {
    let plan = write_description("/home/u/data", true, "Raw\\ninputs".to_string()).unwrap();
    assert_eq!(plan.directory, None);
    assert_eq!(plan.file, "/home/u/data/.description.lsi");
    assert_eq!(plan.content, "Raw\ninputs");
    let plan = write_description("/home/u/a.txt", false, "plain".to_string()).unwrap();
    assert_eq!(plan.directory.as_deref(), Some("/home/u/.file_description_lsi"));
    assert_eq!(plan.file, "/home/u/.file_description_lsi/.a.txt.lsi");
    assert_eq!(plan.content, "plain");
    assert!(matches!(
        write_description("/", false, "x".to_string()),
        Err(LsiError::InvalidPath)
    ));
    assert!(write_description("/", true, "x".to_string()).is_ok());
}

#[test]
fn line_break_tokens_agree_with_a_regular_expression() {
    let pattern = Regex::new(r"\\n").unwrap();
    for s in ["", "a\\nb", "\\n", "\\\\n", "a\\n\\nb", "\\", "n\\", "real\nnewline\\n"] {
        let expected = pattern.replace_all(s, NoExpand("\n")).to_string();
        let plan = write_description("/d", true, s.to_string()).unwrap();
        assert_eq!(plan.content, expected);
    }
}

#[test]
fn a_description_written_with_tokens_comes_back_with_its_lines() {
    for (content, lines) in [("one\\ntwo\\nthree", 3), ("single", 1), ("a\\n\\nb", 3), ("x\\r\\ny", 2)] {
        let plan = write_description("/home/u/data", true, content.to_string()).unwrap();
        assert_eq!(plan.content.split('\n').count(), lines);
        let mut store = SidecarStore::new();
        store.write(&plan);
        let entry = LsiPath::new("x/data".to_string(), LsiPathKind::Dir, "by-name");
        let back = read_dir_description(&entry, "/home/u", &store).unwrap();
        assert_eq!(back.split('\n').count(), lines);
        assert_eq!(back, plan.content);
    }
}

#[test]
fn line_breaks_at_the_ends_do_not_come_back() {
    let plan = write_description("/home/u/data", true, "a\\n".to_string()).unwrap();
    assert_eq!(plan.content, "a\n");
    let mut store = SidecarStore::new();
    store.write(&plan);
    assert_eq!(read_description_file(&plan.file, &store).unwrap(), "a");
}

#[test]
fn files_keep_their_descriptions_beside_them() {
    let plan = write_description("/home/u/a.txt", false, "about a".to_string()).unwrap();
    let mut store = SidecarStore::new();
    store.write(&plan);
    let entry = LsiPath::new("./a.txt".to_string(), LsiPathKind::File, "by-name");
    assert_eq!(read_file_description(&entry, "/home/u", &store).unwrap(), "about a");
    let root_plan = write_description("/a.txt", false, "at the root".to_string()).unwrap();
    store.write(&root_plan);
    assert_eq!(read_file_description(&entry, "/", &store).unwrap(), "at the root");
}
