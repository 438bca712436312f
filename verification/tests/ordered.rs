use xvmlib::ordered::OrderedMap;

fn keys(m: &OrderedMap<u32>) -> Vec<String> {
    (0..m.len()).map(|i| m.key_at(i).clone()).collect()
}

#[test]
fn a_new_map_is_empty() {
    let m: OrderedMap<u32> = OrderedMap::new();
    assert_eq!(m.len(), 0);
    assert!(m.is_empty());
    assert_eq!(m.get("a"), None);
    assert_eq!(m.index_of("a"), None);
    assert!(!m.contains_key("a"));
}

#[test]
fn insert_keeps_insertion_order() {
    let mut m: OrderedMap<u32> = OrderedMap::new();
    assert_eq!(m.insert("b".to_string(), 2), None);
    assert_eq!(m.insert("a".to_string(), 1), None);
    assert_eq!(m.insert("c".to_string(), 3), None);
    assert_eq!(m.len(), 3);
    assert!(!m.is_empty());
    assert_eq!(keys(&m), vec!["b", "a", "c"]);
    assert_eq!(m.index_of("a"), Some(1));
    assert_eq!(m.get("c"), Some(&3));
    assert_eq!(*m.value_at(0), 2);
    assert!(m.contains_key("b"));
}

#[test]
fn insert_of_a_held_name_replaces_in_place() {
    let mut m: OrderedMap<u32> = OrderedMap::new();
    m.insert("a".to_string(), 1);
    m.insert("b".to_string(), 2);
    assert_eq!(m.insert("a".to_string(), 10), Some(1));
    assert_eq!(m.len(), 2);
    assert_eq!(keys(&m), vec!["a", "b"]);
    assert_eq!(m.get("a"), Some(&10));
    assert_eq!(m.get("b"), Some(&2));
}

#[test]
fn shift_remove_moves_later_entries_up() {
    let mut m: OrderedMap<u32> = OrderedMap::new();
    m.insert("a".to_string(), 1);
    m.insert("b".to_string(), 2);
    m.insert("c".to_string(), 3);
    assert_eq!(m.shift_remove("a"), Some((0, 1)));
    assert_eq!(keys(&m), vec!["b", "c"]);
    assert_eq!(*m.value_at(0), 2);
    assert_eq!(*m.value_at(1), 3);
    assert_eq!(m.index_of("c"), Some(1));
    assert_eq!(m.shift_remove("a"), None);
    assert_eq!(m.len(), 2);
}

#[test]
fn value_at_mut_changes_one_value() {
    let mut m: OrderedMap<u32> = OrderedMap::new();
    m.insert("a".to_string(), 1);
    m.insert("b".to_string(), 2);
    *m.value_at_mut(1) = 20;
    assert_eq!(m.get("a"), Some(&1));
    assert_eq!(m.get("b"), Some(&20));
}

#[test]
fn clone_holds_the_same_entries() {
    let mut m: OrderedMap<u32> = OrderedMap::new();
    m.insert("x".to_string(), 7);
    m.insert("y".to_string(), 8);
    let mut c = m.clone();
    assert_eq!(keys(&c), vec!["x", "y"]);
    assert_eq!(c.get("y"), Some(&8));
    c.insert("z".to_string(), 9);
    assert_eq!(m.len(), 2);
    assert_eq!(c.len(), 3);
}
