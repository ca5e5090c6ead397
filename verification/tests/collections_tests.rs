use cspm::collections::{StrMap, StrSet};

#[test]
fn map_insert_get_remove() {
    let mut m: StrMap<String> = StrMap::new();
    assert!(m.is_empty());
    m.insert("a".to_string(), "1".to_string());
    m.insert("b".to_string(), "2".to_string());
    m.insert("a".to_string(), "3".to_string());
    assert_eq!(m.len(), 2);
    assert_eq!(m.get("a"), Some(&"3".to_string()));
    assert!(m.contains_key("b"));
    assert_eq!(m.remove("b"), Some("2".to_string()));
    assert_eq!(m.remove("b"), None);
    assert!(!m.contains_key("b"));
    assert_eq!(m.len(), 1);
}

#[test]
fn map_from_pairs() {
    let m = StrMap::from_pairs(vec![
        ("a".to_string(), "1".to_string()),
        ("b".to_string(), "2".to_string()),
    ]);
    assert_eq!(m.len(), 2);
    assert_eq!(m.get("b"), Some(&"2".to_string()));
    assert_eq!(m.pairs_vec()[0].0, "a");
}

#[test]
fn set_operations() {
    let mut s = StrSet::new();
    assert!(s.insert("x".to_string()));
    assert!(!s.insert("x".to_string()));
    assert!(s.insert("y".to_string()));
    assert_eq!(s.len(), 2);
    assert!(s.contains("x"));
    assert!(s.remove("x"));
    assert!(!s.remove("x"));
    let mut t = StrSet::from_vec(vec!["y".to_string(), "z".to_string(), "z".to_string()]);
    assert_eq!(t.len(), 2);
    t.extend(&s);
    assert_eq!(t.len(), 2);
    t.remove_all(&StrSet::from_vec(vec!["z".to_string()]));
    assert_eq!(t.items_vec(), &vec!["y".to_string()]);
    let u = t.duplicate();
    assert!(u.contains("y"));
}
