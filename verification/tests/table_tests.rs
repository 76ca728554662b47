use gwyh::table::Table;

#[test]
fn table_insert_get_remove() {
    let mut t: Table<u128, u32> = Table::new();
    assert_eq!(t.len(), 0);
    assert_eq!(t.insert(5, 50), None);
    assert_eq!(t.insert(3, 30), None);
    assert_eq!(t.insert(5, 55), Some(50));
    assert_eq!(t.len(), 2);
    assert_eq!(t.get(&5), Some(&55));
    assert_eq!(t.get(&3), Some(&30));
    assert_eq!(t.get(&4), None);
    // insertion order: an existing key keeps its place
    assert_eq!(t.key_at(0), 5);
    assert_eq!(t.key_at(1), 3);
    assert_eq!(t.remove(&5), Some(55));
    assert_eq!(t.remove(&5), None);
    assert_eq!(t.len(), 1);
    assert_eq!(t.key_at(0), 3);
    assert!(t.contains_key(&3));
    assert!(!t.contains_key(&5));
    t.clear();
    assert_eq!(t.len(), 0);
}
