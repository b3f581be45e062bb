//! Text primitives, escape sequences, groups and lists.

use rtk::ansi::strip_ansi;
use rtk::groups::{is_before, Groups};
use rtk::pattern::Found;
use rtk::report::{all_listed_text, capped_lines, closing_text, list_lines, section_text};
use rtk::text::{
    char_is_space, contains, decimal_text, decimal_wide, has_bytes, join, lines, parse_u32_or_zero,
    same_text, split, starts_with, text_before, trim,
};

fn words(list: &[&str]) -> Vec<String> {
    list.iter().map(|w| w.to_string()).collect()
}

#[test]
fn whitespace_is_that_of_char() {
    for code in 0..0x3100u32 {
        if let Some(c) = char::from_u32(code) {
            assert_eq!(char_is_space(c), c.is_whitespace(), "{:x}", code);
        }
    }
}

#[test]
fn trimming_is_that_of_str() {
    for text in ["", " ", "a", " a ", "\t\na b\r\n", "\u{3000}x\u{a0}", "\u{200b}x"] {
        assert_eq!(trim(text), text.trim());
    }
}

#[test]
fn lines_are_those_of_str() {
    for text in ["", "\n", "a", "a\n", "a\r\nb", "a\rb\n\nc\r", "\r\n\r\n", "a\n\n"] {
        let expected: Vec<String> = text.lines().map(|l| l.to_string()).collect();
        assert_eq!(lines(text), expected, "{:?}", text);
    }
}

#[test]
fn pieces_are_those_of_str() {
    for text in ["", "/", "a/b", "/a//b/", "abc"] {
        let expected: Vec<String> = text.split('/').map(|l| l.to_string()).collect();
        assert_eq!(split(text, '/'), expected, "{:?}", text);
    }
}

#[test]
fn joining_and_searching() {
    assert_eq!(join(&words(&["a", "b", ""]), ", "), "a, b, ");
    assert_eq!(join(&Vec::new(), ", "), "");
    assert!(contains("Recent Templates", "Recent"));
    assert!(contains("abc", ""));
    assert!(!contains("ab", "abc"));
    assert!(starts_with("-x", "-"));
    assert!(!starts_with("", "-"));
    assert!(same_text("\u{e9}", "\u{e9}"));
    assert!(!same_text("a", "ab"));
    assert_eq!(text_before("iOS 18.0 (22A3354)", '('), "iOS 18.0 ");
    assert_eq!(text_before("iOS", '('), "iOS");
}

#[test]
fn numbers_are_written_in_decimal() {
    assert_eq!(decimal_text(0), "0");
    assert_eq!(decimal_text(10), "10");
    assert_eq!(decimal_text(usize::MAX), format!("{}", usize::MAX));
    assert_eq!(decimal_wide(u128::MAX), format!("{}", u128::MAX));
}

#[test]
fn numbers_are_read_as_by_parse() {
    for text in ["0", "7", "+7", "007", "4294967295", "4294967296", "99999999999999999999", "", "+", "-1", "1a", "\u{0663}"] {
        assert_eq!(parse_u32_or_zero(text), text.parse::<u32>().unwrap_or(0), "{:?}", text);
    }
}

#[test]
fn bytes_are_counted_in_utf8() {
    let text = "a\u{e9}\u{4e2d}\u{1f680}";
    assert_eq!(text.len(), 10);
    assert!(has_bytes(text, 10));
    assert!(!has_bytes(text, 11));
    assert!(has_bytes("", 0));
}

#[test]
fn escape_sequences_are_removed() {
    assert_eq!(strip_ansi("\u{1b}[1;31merror:\u{1b}[0m text"), "error: text");
    assert_eq!(strip_ansi("plain [0m text"), "plain [0m text");
}

#[test]
fn groups_come_in_the_order_of_their_keys() {
    let mut groups: Groups<String> = Groups::new();
    groups.add("b", "1".to_string());
    groups.add("a", "2".to_string());
    groups.add("b", "3".to_string());
    groups.add("B", "4".to_string());
    let entries: Vec<(String, Vec<String>)> =
        groups.entries.iter().map(|e| (e.0.clone(), e.1.clone())).collect();
    assert_eq!(
        entries,
        vec![
            ("B".to_string(), words(&["4"])),
            ("a".to_string(), words(&["2"])),
            ("b".to_string(), words(&["1", "3"])),
        ]
    );
}

#[test]
fn texts_are_ordered_as_by_str() {
    let texts = ["", "a", "ab", "b", "B", "\u{e9}", "\u{ffff}", "\u{10000}"];
    for a in texts {
        for b in texts {
            assert_eq!(is_before(a, b), a < b);
        }
    }
}

#[test]
fn lists_are_cut_off_and_counted() {
    let items = words(&["a", "b", "c"]);
    assert_eq!(list_lines(&items, 2, "- "), "- a\n- b\n");
    assert_eq!(capped_lines(&items, "  ", 2, " more\n"), "  a\n  b\n  ... +1 more\n");
    assert_eq!(capped_lines(&items, "  ", 3, " more\n"), "  a\n  b\n  c\n");
    assert_eq!(section_text("\nThings (", &items, 1), "\nThings (3):\n  a\n  ... +2 more\n");
    assert_eq!(section_text("\nThings (", &Vec::new(), 1), "");
    assert_eq!(all_listed_text("\nThings (", &items), "\nThings (3):\n  a\n  b\n  c\n");
    assert_eq!(closing_text("end"), "\nend\n");
    assert_eq!(closing_text(""), "");
}

#[test]
fn groups_of_a_search_result() {
    let found = Found { groups: Some(vec![Some("all".to_string()), None]) };
    assert!(found.is_match());
    assert_eq!(found.group(0), "all");
    assert_eq!(found.group(1), "");
    assert_eq!(found.group(2), "");
    assert!(!Found { groups: None }.is_match());
}
