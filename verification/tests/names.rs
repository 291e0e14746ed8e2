//! Sets of names, and maps keyed by names.

use config_docs::names::{insert_ascending, NameMap, NameSet};

#[test]
fn set_holds_each_name_once() {
    let mut set = NameSet::new();
    assert_eq!(set.len(), 0);
    assert!(!set.contains("a"));
    set.insert("a".to_string());
    set.insert("b".to_string());
    set.insert("a".to_string());
    assert_eq!(set.len(), 2);
    assert!(set.contains("a"));
    assert!(set.contains("b"));
    assert!(!set.contains("c"));
}

#[test]
fn extended_set_holds_both() {
    let mut set = NameSet::new();
    set.insert("a".to_string());
    let mut other = NameSet::new();
    other.insert("b".to_string());
    other.insert("a".to_string());
    set.extend(other);
    assert_eq!(set.names, vec!["a".to_string(), "b".to_string()]);
}

#[test]
fn map_keeps_the_last_value() {
    let mut map: NameMap<u8> = NameMap::new();
    assert_eq!(map.get("a"), None);
    map.insert("a".to_string(), 1);
    map.insert("b".to_string(), 2);
    map.insert("a".to_string(), 3);
    assert_eq!(map.len(), 2);
    assert_eq!(map.get("a"), Some(&3));
    assert_eq!(map.get("b"), Some(&2));
    assert_eq!(map.get("c"), None);
}

#[test]
fn names_ascend_without_repetition() {
    let mut names = Vec::new();
    for name in ["b", "a", "c", "a", "B", "", "ab", "c"] {
        insert_ascending(&mut names, name.to_string());
    }
    assert_eq!(names, vec!["", "B", "a", "ab", "b", "c"]);
}
