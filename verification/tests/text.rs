//! Texts and tables of names.

use ambitious::names::NameTable;
use ambitious::text::{
    begins_with, decimal_string, hexadecimal_string, parse_u64, rsplit_once, split_once,
};

#[test]
fn numbers_read_back() {
    assert_eq!(decimal_string(0), "0");
    assert_eq!(decimal_string(u64::MAX), "18446744073709551615");
    assert_eq!(parse_u64("18446744073709551615"), Some(u64::MAX));
    assert_eq!(parse_u64("18446744073709551616"), None);
    assert_eq!(parse_u64("+7"), Some(7));
    assert_eq!(parse_u64(""), None);
    assert_eq!(parse_u64("-1"), None);
    assert_eq!(hexadecimal_string(255), "ff");
}

#[test]
fn texts_are_cut() {
    assert_eq!(split_once("a:b:c", ':'), Some(("a", "b:c")));
    assert_eq!(rsplit_once("a:b:c", ':'), Some(("a:b", "c")));
    assert_eq!(split_once("abc", ':'), None);
    assert!(begins_with("room:1", "room:"));
}

#[test]
fn names_keep_one_value_each() {
    let mut t: NameTable<u8> = NameTable::new();
    assert_eq!(t.insert("a".into(), 1), None);
    assert_eq!(t.insert("b".into(), 2), None);
    assert_eq!(t.insert("a".into(), 3), Some(1));
    assert_eq!(t.get("a"), Some(&3));
    assert_eq!(t.len(), 2);
    assert_eq!(t.remove("a"), Some(3));
    assert_eq!(t.remove("a"), None);
    assert_eq!(t.get("b"), Some(&2));
    assert_eq!(t.keys(), vec!["b"]);
}
