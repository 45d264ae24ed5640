use ls_improved::colors::Colors;
use ls_improved::decoration::{
    encolor_description, marker_table, replace_ansi_color_code, replace_lsi_color_code, run,
};
use ls_improved::markup::{
    marker_from_code, strip_markup, substitute, unescape, Marker, MarkerTable,
};
use ls_improved::path::{LsiPath, LsiPathKind};
use ls_improved::text::{chars_of, replace_token, string_of};
use regex::{NoExpand, Regex};

fn chars(s: &str) -> Vec<char> {
    s.chars().collect()
}

fn text(v: &Vec<char>) -> String {
    v.iter().collect()
}

fn with_colors(s: &str, colors: &Colors) -> String {
    text(&substitute(&chars(s), &marker_table(colors)))
}

fn entry_with(description: &str) -> LsiPath {
    let mut entry = LsiPath::new("dir/name".to_string(), LsiPathKind::File, "by-name");
    entry.set_description(description.to_string());
    entry
}

#[test]
fn chars_and_strings_convert_both_ways() {
    assert_eq!(chars_of("a\u{e9}\u{65e5}"), vec!['a', '\u{e9}', '\u{65e5}']);
    assert_eq!(string_of(&vec!['x', '\u{2502}', 'y']), "x\u{2502}y");
    assert_eq!(string_of(&chars_of("")), "");
}

#[test]
fn every_marker_letter_is_known() {
    assert_eq!(marker_from_code('r'), Some(Marker::Red));
    assert_eq!(marker_from_code('g'), Some(Marker::Green));
    assert_eq!(marker_from_code('y'), Some(Marker::Yellow));
    assert_eq!(marker_from_code('b'), Some(Marker::Blue));
    assert_eq!(marker_from_code('p'), Some(Marker::Purple));
    assert_eq!(marker_from_code('c'), Some(Marker::Cyan));
    assert_eq!(marker_from_code('w'), Some(Marker::White));
    assert_eq!(marker_from_code('_'), Some(Marker::Underline));
    assert_eq!(marker_from_code('e'), Some(Marker::End));
    assert_eq!(marker_from_code('x'), None);
    assert_eq!(marker_from_code(';'), None);
}

#[test]
fn each_marker_becomes_its_sequence() {
    let colors = Colors::new(None);
    assert_eq!(with_colors(";r;", &colors), "\x1b[1;31m");
    assert_eq!(with_colors(";g;", &colors), "\x1b[1;32m");
    assert_eq!(with_colors(";y;", &colors), "\x1b[33m");
    assert_eq!(with_colors(";b;", &colors), "\x1b[1;34m");
    assert_eq!(with_colors(";p;", &colors), "\x1b[1;35m");
    assert_eq!(with_colors(";c;", &colors), "\x1b[36m");
    assert_eq!(with_colors(";w;", &colors), "\x1b[37m");
    assert_eq!(with_colors(";_;", &colors), "\x1b[4m");
    assert_eq!(with_colors(";e;", &colors), "\x1b[0m\x1b[33m");
}

#[test]
fn text_without_markers_is_copied() {
    let colors = Colors::new(None);
    assert_eq!(with_colors("", &colors), "");
    assert_eq!(with_colors("plain text", &colors), "plain text");
    assert_eq!(with_colors(";x; a;b ;; ;r", &colors), ";x; a;b ;; ;r");
}

#[test]
fn markers_are_found_from_left_to_right() {
    let colors = Colors::new(None);
    assert_eq!(with_colors(";r;g;", &colors), "\x1b[1;31mg;");
    assert_eq!(with_colors(";g;r;y;", &colors), "\x1b[1;32mr\x1b[33m");
    assert_eq!(with_colors(";;r;", &colors), ";\x1b[1;31m");
}

#[test]
fn alert_ends_in_the_colour_of_descriptions() {
    let colors = Colors::new(None);
    let mut entry = entry_with(";r;ALERT;e;");
    assert!(replace_lsi_color_code(&mut entry, &colors).is_ok());
    assert_eq!(
        entry.get_description().as_deref(),
        Some("\x1b[1;31mALERT\x1b[0m\x1b[33m")
    );
    let mut whole = entry_with(";r;ALERT;e;");
    assert!(run(&mut whole, &colors, &None, &false).is_ok());
    assert_eq!(
        whole.get_description().as_deref(),
        Some("\x1b[33m\x1b[1;31mALERT\x1b[0m\x1b[33m\x1b[0m")
    );
}

#[test]
fn a_sequence_that_looks_like_a_marker_is_not_replaced_again() {
    let mut colors = Colors::new(None);
    colors.red = ";g;".to_string();
    colors.green = "<green>".to_string();
    assert_eq!(with_colors("a;r;b;g;c", &colors), "a;g;b<green>c");
    let mut entry = entry_with(";r;");
    assert!(replace_lsi_color_code(&mut entry, &colors).is_ok());
    assert_eq!(entry.get_description().as_deref(), Some(";g;"));
}

#[test]
fn a_replacement_is_taken_literally() {
    let mut colors = Colors::new(None);
    colors.red = "$0$1".to_string();
    assert_eq!(with_colors("x;r;y", &colors), "x$0$1y");
}

#[test]
fn stages_in_any_order_give_the_single_pass() {
    let colors = Colors::new(None);
    let table = marker_table(&colors);
    let description = ";g;r;y; and ;;b; then ;r;red;e; ;_;";
    let all_at_once = substitute(&chars(description), &table);
    let kinds = [
        Marker::Red,
        Marker::Green,
        Marker::Yellow,
        Marker::Blue,
        Marker::Purple,
        Marker::Cyan,
        Marker::White,
        Marker::Underline,
        Marker::End,
    ];
    let codes = ['r', 'g', 'y', 'b', 'p', 'c', 'w', '_', 'e'];
    let mut forwards = chars(description);
    for k in 0..9 {
        forwards = substitute(&forwards, &only(&table, &kinds, &codes, k));
    }
    let mut backwards = chars(description);
    for k in (0..9).rev() {
        backwards = substitute(&backwards, &only(&table, &kinds, &codes, k));
    }
    assert_eq!(forwards, all_at_once);
    assert_eq!(backwards, all_at_once);
}

fn only(table: &MarkerTable, kinds: &[Marker; 9], codes: &[char; 9], chosen: usize) -> MarkerTable {
    let entry = |k: usize| -> Vec<char> {
        if k == chosen {
            table.get(kinds[k]).clone()
        } else {
            vec![';', codes[k], ';']
        }
    };
    MarkerTable {
        red: entry(0),
        green: entry(1),
        yellow: entry(2),
        blue: entry(3),
        purple: entry(4),
        cyan: entry(5),
        white: entry(6),
        underline: entry(7),
        end: entry(8),
    }
}

#[test]
fn escapes_become_the_escape_character() {
    assert_eq!(text(&unescape(&chars("\\033[31mred\\033[0m"))), "\x1b[31mred\x1b[0m");
    assert_eq!(text(&unescape(&chars("no escapes"))), "no escapes");
    assert_eq!(text(&unescape(&chars("\\\\033"))), "\\\x1b");
    assert_eq!(text(&unescape(&chars("\\03"))), "\\03");
    assert_eq!(text(&unescape(&chars("\\033\\033"))), "\x1b\x1b");
    let mut entry = entry_with("a\\033b");
    assert!(replace_ansi_color_code(&mut entry).is_ok());
    assert_eq!(entry.get_description().as_deref(), Some("a\x1bb"));
}

#[test]
fn unescaping_twice_changes_nothing_more() {
    for s in ["", "plain", "\\033[1m", "\\\\033033", "\\0\\033\\03333", "\x1b\\033"] {
        let once = unescape(&chars(s));
        let twice = unescape(&once);
        assert_eq!(once, twice);
        assert!(!text(&once).contains("\\033"));
    }
    assert_eq!(text(&unescape(&chars("already \x1b[0m done"))), "already \x1b[0m done");
}

#[test]
fn unescaping_agrees_with_a_regular_expression() {
    let pattern = Regex::new("\\\\033").unwrap();
    for s in ["", "x", "\\033", "a\\033b\\033", "\\\\033", "\\03\\0333", "\\033\\03\\033 \u{65e5}"] {
        let expected = pattern.replace_all(s, NoExpand("\x1b")).to_string();
        assert_eq!(text(&unescape(&chars(s))), expected);
    }
}

#[test]
fn replacing_a_token_agrees_with_a_regular_expression() {
    let pattern = Regex::new("aba").unwrap();
    for s in ["", "aba", "ababa", "abaaba", "xabay", "ab", "aabaa", "abababa"] {
        let expected = pattern.replace_all(s, NoExpand("<>")).to_string();
        let got = replace_token(&chars(s), &chars("aba"), &chars("<>"));
        assert_eq!(text(&got), expected);
    }
    assert_eq!(text(&replace_token(&chars("abc"), &chars(""), &chars("x"))), "abc");
}

#[test]
fn single_markers_agree_with_the_passes_of_regular_expressions() {
    let colors = Colors::new(None);
    let table = [
        (";r;", colors.red.clone()),
        (";g;", colors.green.clone()),
        (";y;", colors.yellow.clone()),
        (";b;", colors.blue.clone()),
        (";p;", colors.purple.clone()),
        (";c;", colors.cyan.clone()),
        (";w;", colors.white.clone()),
        (";_;", colors.underline.clone()),
        (";e;", format!("{}{}", colors.end, colors.description)),
    ];
    for s in ["", "x", ";r;red;e; and ;g;green;e;", "a;b", ";_;under;e;;c;", ";w;;p;;y;;b;"] {
        let mut expected = s.to_string();
        for (marker, sequence) in table.iter() {
            expected = Regex::new(marker)
                .unwrap()
                .replace_all(&expected, NoExpand(sequence))
                .to_string();
        }
        assert_eq!(with_colors(s, &colors), expected);
    }
}

#[test]
fn plain_descriptions_have_no_markup() {
    assert_eq!(text(&strip_markup(&chars(";r;Raw;e; inputs"))), "Raw inputs");
    assert_eq!(text(&strip_markup(&chars("\\033[1mbold"))), "[1mbold");
    assert_eq!(text(&strip_markup(&chars("\\03;r;3x"))), "x");
    assert_eq!(text(&strip_markup(&chars("keep ;x; this"))), "keep ;x; this");
    let entry = entry_with(";g;ok;e;");
    assert_eq!(entry.get_plain_description(), Some("ok".to_string()));
    let bare = LsiPath::new("a".to_string(), LsiPathKind::Dir, "d");
    assert_eq!(bare.get_plain_description(), None);
}

#[test]
fn a_description_is_wrapped_in_its_colour() {
    let colors = Colors::new(None);
    assert_eq!(encolor_description("text", &colors), "\x1b[33mtext\x1b[0m");
    assert_eq!(encolor_description("", &colors), "\x1b[33m\x1b[0m");
}

#[test]
fn passes_fail_without_a_description() {
    let colors = Colors::new(None);
    let mut entry = LsiPath::new("a".to_string(), LsiPathKind::Dir, "by-name");
    assert!(matches!(
        replace_lsi_color_code(&mut entry, &colors),
        Err(ls_improved::errors::LsiError::DescriptionNotFound)
    ));
    assert!(matches!(
        replace_ansi_color_code(&mut entry),
        Err(ls_improved::errors::LsiError::DescriptionNotFound)
    ));
    assert!(run(&mut entry, &colors, &Some(2), &true).is_ok());
    assert_eq!(entry.get_description(), &None);
}
