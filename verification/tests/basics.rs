use tiddlydesktop::table::{keys, StringMap, Table};
use tiddlydesktop::text;

fn owned(items: &[&str]) -> Vec<String> {
    items.iter().map(|s| s.to_string()).collect()
}

#[test]
fn white_space_is_that_of_unicode() {
    for n in 0..=0x10FFFFu32 {
        if let Some(c) = char::from_u32(n) {
            assert_eq!(text::is_white_space(c), c.is_whitespace(), "U+{:04X}", n);
        }
    }
}

#[test]
fn trimming_and_searching_follow_std() {
    for s in ["", "  a b ", "\u{a0}x\u{2003}", "..a..", "///", "a//", "#a#", "\t\r\n"] {
        assert_eq!(text::trim(s), s.trim());
        assert_eq!(text::trim_start(s), s.trim_start());
        assert_eq!(text::trim_end(s), s.trim_end());
        assert_eq!(text::trim_start_char(s, '#'), s.trim_start_matches('#'));
        assert_eq!(text::trim_end_char(s, '/'), s.trim_end_matches('/'));
        assert_eq!(text::contains(s, "a"), s.contains("a"));
        assert_eq!(text::contains(s, ""), s.contains(""));
        assert_eq!(text::strip_prefix(s, ".."), s.strip_prefix(".."));
        assert_eq!(text::strip_suffix(s, ".."), s.strip_suffix(".."));
    }
    assert_eq!(text::find_sub("xyabab", "ab"), Some(2));
    assert_eq!(text::find_sub("xy", "ab"), None);
    assert_eq!(text::rfind_char("a.b.c", '.'), Some(3));
    assert_eq!(text::find_char("é:x", ':'), Some(1));
}

#[test]
fn lines_and_parts_follow_std() {
    for s in ["", "a", "a\n", "a\nb", "a\r\nb\r\n", "\n\n", "a\rb", "x\r"] {
        let lines: Vec<String> = s.lines().map(|l| l.to_string()).collect();
        assert_eq!(text::lines(s), lines, "{:?}", s);
        let parts: Vec<String> = s.split('\n').map(|l| l.to_string()).collect();
        assert_eq!(text::split_char(s, '\n'), parts, "{:?}", s);
        assert_eq!(text::join(&parts, "\n"), s);
    }
    assert_eq!(text::join(&owned(&["a", "b", "c"]), ", "), "a, b, c");
    assert_eq!(text::replace_sub("aXXbXX", "XX", "-"), "a-b-");
    assert_eq!(text::replace_sub("aaa", "aa", "b"), "aaa".replace("aa", "b"));
    assert_eq!(text::replace_char("a\\b", '\\', '/'), "a/b");
    assert_eq!(text::to_ascii_lowercase("ÀBC"), "ÀBC".to_ascii_lowercase());
    assert_eq!(text::to_decimal(0), "0");
    assert_eq!(text::to_decimal(u64::MAX), u64::MAX.to_string());
}

#[test]
fn what_is_put_in_is_found() {
    let mut t: StringMap = Table::new();
    t.insert("a".to_string(), "1".to_string());
    t.insert("b".to_string(), "2".to_string());
    t.insert("a".to_string(), "3".to_string());
    assert_eq!(t.len(), 2);
    assert_eq!(t.get("a"), Some(&"3".to_string()));
    assert_eq!(t.get("b"), Some(&"2".to_string()));
    assert_eq!(keys(&t), owned(&["a", "b"]));
}

#[test]
fn what_is_taken_out_is_gone() {
    let mut t: StringMap = Table::new();
    t.insert("a".to_string(), "1".to_string());
    t.insert("b".to_string(), "2".to_string());
    assert_eq!(t.remove("a"), Some("1".to_string()));
    assert_eq!(t.remove("a"), None);
    assert!(!t.contains_key("a"));
    assert_eq!(t.get("b"), Some(&"2".to_string()));
}
