use oatie::style::{copy_payload, Style, StyleMap, StyleSet};

#[test]
fn map_keys_are_unique() {
    let mut m = StyleMap::new();
    assert!(m.is_empty());
    assert_eq!(m.len(), 0);
    m.insert(Style::Link, Some("a".to_string()));
    m.insert(Style::Link, Some("b".to_string()));
    m.insert(Style::Normie, None);
    assert_eq!(m.len(), 2);
    assert!(m.contains_key(Style::Link));
    assert!(!m.contains_key(Style::Bold));
    assert_eq!(m.get(Style::Link), Some(Some("b".to_string())));
    assert_eq!(m.get(Style::Normie), Some(None));
    assert_eq!(m.get(Style::Selected), None);
    m.remove(Style::Link);
    assert_eq!(m.len(), 1);
    assert_eq!(m.get(Style::Link), None);
    m.remove(Style::Link);
    assert_eq!(m.len(), 1);
}

#[test]
fn map_merge_prefers_the_incoming() {
    let mut a = StyleMap::new();
    a.insert(Style::Link, Some("a".to_string()));
    a.insert(Style::Bold, None);
    let mut b = StyleMap::new();
    b.insert(Style::Link, None);
    b.insert(Style::Italic, Some("i".to_string()));
    let c = a.merged(&b);
    assert_eq!(c.len(), 3);
    assert_eq!(c.get(Style::Link), Some(None));
    assert_eq!(c.get(Style::Bold), Some(None));
    assert_eq!(c.get(Style::Italic), Some(Some("i".to_string())));
    assert_eq!(a.len(), 2);
}

#[test]
fn map_without_a_set() {
    let mut a = StyleMap::new();
    a.insert(Style::Link, Some("a".to_string()));
    a.insert(Style::Bold, None);
    a.insert(Style::Selected, None);
    let mut s = StyleSet::new();
    assert!(s.insert(Style::Bold));
    assert!(!s.insert(Style::Bold));
    assert!(s.insert(Style::Italic));
    assert!(s.insert(Style::Selected));
    assert!(s.remove(Style::Selected));
    assert!(!s.remove(Style::Selected));
    assert!(s.contains(Style::Italic));
    assert!(!s.contains(Style::Selected));
    let b = a.without(&s);
    assert_eq!(b.len(), 2);
    assert!(b.contains_key(Style::Link));
    assert!(b.contains_key(Style::Selected));
    assert!(!b.contains_key(Style::Bold));
}

#[test]
fn map_comparison_sees_payloads() {
    let mut a = StyleMap::new();
    a.insert(Style::Link, Some("a".to_string()));
    let mut b = StyleMap::new();
    b.insert(Style::Link, Some("b".to_string()));
    assert!(!a.same_entries(&b));
    b.insert(Style::Link, Some("a".to_string()));
    assert!(a.same_entries(&b));
    b.insert(Style::Link, None);
    assert!(!a.same_entries(&b));
    assert!(a.clone().same_entries(&a));
    assert!(!a.same_entries(&StyleMap::new()));
    assert_eq!(copy_payload(&Some("p".to_string())), Some("p".to_string()));
    assert_eq!(copy_payload(&None), None);
}

#[test]
fn styles_compare_by_identity() {
    assert_eq!(Style::Bold, Style::Bold);
    assert_ne!(Style::Bold, Style::Italic);
    assert_ne!(Style::Normie, Style::Selected);
}
