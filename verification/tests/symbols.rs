use goose::engine::SymbolMap;

#[test]
fn symbol_map_keeps_the_order_of_first_insertion() {
    let mut map = SymbolMap::new();
    assert!(map.is_empty());
    map.insert("B".to_string(), 1);
    map.insert("A".to_string(), 2);
    map.insert("B".to_string(), 3);
    assert_eq!(map.len(), 2);
    assert_eq!(map.entry(0), &("B".to_string(), 3));
    assert_eq!(map.entry(1), &("A".to_string(), 2));
    assert_eq!(map.get("B"), Some(&3));
    assert_eq!(map.get("C"), None);
    let copy = map.clone();
    assert_eq!(copy.get("A"), Some(&2));
}
