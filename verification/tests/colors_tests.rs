use ls_improved::colors::Colors;
use ls_improved::config::{slot_from_name, ColorConf, ColorSlot, Config};

fn no_overrides() -> ColorConf {
    ColorConf {
        red: None,
        blue: None,
        green: None,
        white: None,
        purple: None,
        yellow: None,
        cyan: None,
        underline: None,
        end: None,
        dir: None,
        current_dir: None,
        file: None,
        description: None,
    }
}

fn assert_defaults(colors: &Colors) {
    assert_eq!(colors.red, "\x1b[1;31m");
    assert_eq!(colors.green, "\x1b[1;32m");
    assert_eq!(colors.yellow, "\x1b[33m");
    assert_eq!(colors.blue, "\x1b[1;34m");
    assert_eq!(colors.purple, "\x1b[1;35m");
    assert_eq!(colors.cyan, "\x1b[36m");
    assert_eq!(colors.white, "\x1b[37m");
    assert_eq!(colors.underline, "\x1b[4m");
    assert_eq!(colors.end, "\x1b[0m");
    assert_eq!(colors.dir, "\x1b[36m\x1b[4m");
    assert_eq!(colors.current_dir, "\x1b[1;36m\x1b[4m");
    assert_eq!(colors.file, "\x1b[37m");
    assert_eq!(colors.description, "\x1b[33m");
}

#[test]
fn the_default_palette() {
    assert_defaults(&Colors::new(None));
    assert_defaults(&Colors::default());
    assert_defaults(&Colors::new(Some(&no_overrides())));
    assert_defaults(&Colors::from_cfg(&no_overrides()));
}

#[test]
fn defaults_by_name() {
    assert_eq!(Colors::default_one("red"), "\x1b[1;31m");
    assert_eq!(Colors::default_one("current_dir"), "\x1b[1;36m\x1b[4m");
    assert_eq!(Colors::default_one("description"), "\x1b[33m");
    assert_eq!(Colors::default_one("end"), "\x1b[0m");
    assert_eq!(Colors::default_one("orange"), "");
    assert_eq!(Colors::default_one(""), "");
    assert_eq!(Colors::default_one("Red"), "");
    assert_eq!(Colors::default_of(ColorSlot::Dir), "\x1b[36m\x1b[4m");
}

#[test]
fn overrides_replace_defaults() {
    let mut conf = no_overrides();
    conf.red = Some(vec!["[31m".to_string()]);
    conf.dir = Some(vec!["[1m".to_string(), "[34m".to_string()]);
    conf.end = Some(vec![]);
    let colors = Colors::new(Some(&conf));
    assert_eq!(colors.red, "\x1b[31m");
    assert_eq!(colors.dir, "\x1b[1m\x1b[34m");
    assert_eq!(colors.end, "");
    assert_eq!(colors.green, "\x1b[1;32m");
    assert_eq!(colors.description, "\x1b[33m");
    assert_eq!(Colors::configured(&conf, ColorSlot::Dir), "\x1b[1m\x1b[34m");
    assert_eq!(Colors::configured(&conf, ColorSlot::File), "\x1b[37m");
}

#[test]
fn overrides_are_found_by_key() {
    let mut conf = no_overrides();
    conf.current_dir = Some(vec!["[7m".to_string()]);
    conf.underline = Some(vec!["[4m".to_string(), "[1m".to_string()]);
    assert_eq!(conf.get("current_dir"), &Some(vec!["[7m".to_string()]));
    assert_eq!(conf.get("underline").as_ref().map(|v| v.len()), Some(2));
    assert_eq!(conf.get("red"), &None);
    assert_eq!(conf.get("no such slot"), &None);
    assert_eq!(conf.slot(ColorSlot::CurrentDir), &Some(vec!["[7m".to_string()]));
    let config = Config { colors: Some(conf) };
    assert!(config.colors.is_some());
}

#[test]
fn slots_have_names() {
    let names = [
        ("red", ColorSlot::Red),
        ("blue", ColorSlot::Blue),
        ("green", ColorSlot::Green),
        ("white", ColorSlot::White),
        ("purple", ColorSlot::Purple),
        ("yellow", ColorSlot::Yellow),
        ("cyan", ColorSlot::Cyan),
        ("underline", ColorSlot::Underline),
        ("end", ColorSlot::End),
        ("dir", ColorSlot::Dir),
        ("current_dir", ColorSlot::CurrentDir),
        ("file", ColorSlot::File),
        ("description", ColorSlot::Description),
    ];
    for (name, slot) in names {
        assert_eq!(slot_from_name(name), Some(slot));
    }
    assert_eq!(slot_from_name("directory"), None);
    assert_eq!(slot_from_name("re"), None);
    assert_eq!(slot_from_name("redd"), None);
}
