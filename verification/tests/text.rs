use audiover::keymap::KeyMap;
use audiover::table::Table;
use audiover::text::{
    contains_str, ends_with_str, fields, is_whitespace, lines, normalize_text, starts_with_str, trim,
};

#[test]
fn trimming_and_case() {
    assert_eq!(trim("  a b \t\n"), "a b");
    assert_eq!(trim(""), "");
    assert_eq!(normalize_text("f9"), "F9");
    assert_eq!(normalize_text(" ctrl+a "), "CTRL+A");
}

#[test]
fn searching() {
    assert!(contains_str("module-null_sink", "null_sink"));
    assert!(contains_str("abc", ""));
    assert!(!contains_str("abc", "abcd"));
    assert!(starts_with_str("Name: x", "Name: "));
    assert!(!starts_with_str("Nam", "Name: "));
    assert!(ends_with_str("x.monitor", ".monitor"));
    assert!(!ends_with_str("monitor", ".monitor"));
}

#[test]
fn splitting_lines_and_fields() {
    assert_eq!(lines("a\nb\r\n\nc"), vec!["a", "b", "", "c"]);
    assert_eq!(lines("a\n"), vec!["a"]);
    assert!(lines("").is_empty());
    assert_eq!(fields("  51\tsink \t x  "), vec!["51", "sink", "x"]);
    assert!(fields("   ").is_empty());
}

#[test]
fn key_map_keeps_one_value_per_name() {
    let mut m = KeyMap::new();
    m.insert("a", "F1".to_string());
    m.insert("b", "F2".to_string());
    m.insert("a", "F3".to_string());
    assert_eq!(m.len(), 2);
    assert_eq!(m.get("a").as_deref(), Some("F3"));
    assert!(m.contains("b"));
    assert!(!m.contains("c"));
    assert_eq!(m.first_name_with_value("F2").as_deref(), Some("b"));
    assert_eq!(m.name_with_value_except("F3", Some("a")), None);
    assert_eq!(m.name_with_value_except("F3", None).as_deref(), Some("a"));
    assert_eq!(m.pairs(), vec![("a".to_string(), "F3".to_string()), ("b".to_string(), "F2".to_string())]);
    assert_eq!(m.snapshot().len(), 2);
}

#[test]
fn table_insert_get_remove() {
    let mut t: Table<i32> = Table::new();
    t.insert("x", 1);
    t.insert("y", 2);
    t.insert("x", 3);
    assert_eq!(t.len(), 2);
    assert_eq!(t.get("x"), Some(&3));
    t.remove("x");
    assert!(!t.contains("x"));
    assert_eq!(t.names(), vec!["y".to_string()]);
    t.remove("missing");
    assert_eq!(t.len(), 1);
}

#[test]
fn whitespace_class_matches_std() {
    let mut count = 0;
    for u in 0..=0x10ffffu32 {
        if let Some(c) = char::from_u32(u) {
            assert_eq!(is_whitespace(c), c.is_whitespace(), "U+{:04X}", u);
            if is_whitespace(c) {
                count += 1;
            }
        }
    }
    assert_eq!(count, 25);
    assert_eq!(trim("\u{3000}x\u{85}"), "x");
}
