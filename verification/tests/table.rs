use roon_api::table::Table;

#[test]
fn a_table_keeps_the_last_value_of_a_key() {
    let mut table: Table<usize> = Table::new();
    assert_eq!(table.len(), 0);
    table.insert("a", 1);
    table.insert("b", 2);
    table.insert("a", 3);
    assert_eq!(table.len(), 2);
    assert_eq!(table.get("a"), Some(&3));
    assert_eq!(table.get("b"), Some(&2));
    assert_eq!(table.get("c"), None);
    assert!(table.contains_key("a"));
    let (key, value) = table.entry(0);
    assert_eq!((key.as_str(), *value), ("a", 3));
    let (key, value) = table.entry(1);
    assert_eq!((key.as_str(), *value), ("b", 2));
}

#[test]
fn entries_are_taken_out_of_a_table() {
    let mut table: Table<usize> = Table::new();
    table.insert("a:1:x", 1);
    table.insert("a:12:x", 2);
    table.insert("b:2:x", 3);
    assert_eq!(table.remove("c"), None);
    assert_eq!(table.remove("b:2:x"), Some(3));
    assert_eq!(table.remove("b:2:x"), None);
    table.insert("b:2:x", 4);
    let (key, _) = table.entry(2);
    assert_eq!(key, "b:2:x");
    table.remove_containing("a:1");
    assert_eq!(table.len(), 1);
    assert_eq!(table.get("b:2:x"), Some(&4));
}
