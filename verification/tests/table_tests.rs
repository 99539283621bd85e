use aluminum::table::Table;
use aluminum::text::{decimal, parse_i32, same_text};

#[test]
fn table_starts_empty() {
    let t: Table<u32> = Table::new();
    assert_eq!(t.len(), 0);
    assert_eq!(t.find("a"), None);
    assert!(!t.contains("a"));
    assert_eq!(t.get("a"), None);
}

#[test]
fn table_keeps_insertion_order() {
    let mut t: Table<u32> = Table::new();
    t.insert("b".to_string(), 1);
    t.insert("a".to_string(), 2);
    t.insert("c".to_string(), 3);
    assert_eq!(t.len(), 3);
    assert_eq!(t.name_at(0), "b");
    assert_eq!(t.name_at(1), "a");
    assert_eq!(t.name_at(2), "c");
    assert_eq!(*t.value_at(1), 2);
    assert_eq!(t.find("c"), Some(2));
    assert_eq!(t.get("a"), Some(&2));
}

#[test]
fn table_insert_replaces_in_place() {
    let mut t: Table<u32> = Table::new();
    t.insert("a".to_string(), 1);
    t.insert("b".to_string(), 2);
    t.insert("a".to_string(), 7);
    assert_eq!(t.len(), 2);
    assert_eq!(t.name_at(0), "a");
    assert_eq!(t.get("a"), Some(&7));
    assert_eq!(t.get("b"), Some(&2));
}

#[test]
fn table_remove() {
    let mut t: Table<u32> = Table::new();
    t.insert("a".to_string(), 1);
    t.insert("b".to_string(), 2);
    t.insert("c".to_string(), 3);
    assert!(t.remove("b"));
    assert!(!t.remove("b"));
    assert_eq!(t.len(), 2);
    assert_eq!(t.name_at(0), "a");
    assert_eq!(t.name_at(1), "c");
    assert!(!t.contains("b"));
    assert_eq!(t.get("c"), Some(&3));
}

#[test]
fn same_text_compares_characters() {
    assert!(same_text("", ""));
    assert!(same_text("abc", "abc"));
    assert!(!same_text("abc", "abd"));
    assert!(!same_text("abc", "ab"));
}

#[test]
fn parse_i32_reads_integers() {
    assert_eq!(parse_i32("0"), Some(0));
    assert_eq!(parse_i32("42"), Some(42));
    assert_eq!(parse_i32("-42"), Some(-42));
    assert_eq!(parse_i32("+42"), Some(42));
    assert_eq!(parse_i32("007"), Some(7));
    assert_eq!(parse_i32("-0"), Some(0));
    assert_eq!(parse_i32("2147483647"), Some(i32::MAX));
    assert_eq!(parse_i32("-2147483648"), Some(i32::MIN));
    assert_eq!(parse_i32("00000000000000000000012"), Some(12));
}

#[test]
fn parse_i32_refuses_the_rest() {
    assert_eq!(parse_i32(""), None);
    assert_eq!(parse_i32("-"), None);
    assert_eq!(parse_i32("+"), None);
    assert_eq!(parse_i32("abc"), None);
    assert_eq!(parse_i32("12a"), None);
    assert_eq!(parse_i32(" 12"), None);
    assert_eq!(parse_i32("12 "), None);
    assert_eq!(parse_i32("1.5"), None);
    assert_eq!(parse_i32("--1"), None);
    assert_eq!(parse_i32("+-1"), None);
    assert_eq!(parse_i32("2147483648"), None);
    assert_eq!(parse_i32("-2147483649"), None);
    assert_eq!(parse_i32("99999999999999999999999"), None);
    assert_eq!(parse_i32("٣"), None);
}

#[test]
fn parse_i32_agrees_with_std() {
    let samples = [
        "", "0", "-0", "+0", "1", "-1", "+1", "10", "0010", "2147483647", "2147483648",
        "-2147483648", "-2147483649", "3000000000", "1e3", "0x10", "1_000", "-", "+", "- 1", "١٢",
        "12\n", "4294967296", "-00000000002147483648",
    ];
    for s in samples {
        assert_eq!(parse_i32(s), s.parse::<i32>().ok(), "{}", s);
    }
}

#[test]
fn decimal_writes_integers() {
    assert_eq!(decimal(0), "0");
    assert_eq!(decimal(7), "7");
    assert_eq!(decimal(10), "10");
    assert_eq!(decimal(-1), "-1");
    assert_eq!(decimal(1234567890), "1234567890");
    assert_eq!(decimal(i32::MAX), "2147483647");
    assert_eq!(decimal(i32::MIN), "-2147483648");
}

#[test]
fn decimal_agrees_with_std() {
    for v in [0, 1, -1, 9, 10, 11, 99, 100, 101, -100, 65535, -65536, i32::MAX, i32::MIN] {
        assert_eq!(decimal(v), format!("{}", v));
        assert_eq!(parse_i32(&decimal(v)), Some(v));
    }
}
