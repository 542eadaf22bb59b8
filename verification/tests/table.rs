use driver_rust::table::Table;

fn keys(table: &Table<String, u64>) -> Vec<String> {
    (0..table.len()).map(|i| table.key_at(i).clone()).collect()
}

#[test]
fn table_keeps_its_keys_in_order() {
    let mut table: Table<String, u64> = Table::new();
    assert_eq!(table.len(), 0);
    table.insert("b".to_string(), 1);
    table.insert("a".to_string(), 2);
    table.insert("b".to_string(), 3);
    assert_eq!(keys(&table), vec!["b".to_string(), "a".to_string()]);
    assert_eq!(*table.value_at(0), 3);
    assert_eq!(*table.value_at(1), 2);
    assert_eq!(table.get(&"b".to_string()), Some(&3));
    assert_eq!(table.get(&"c".to_string()), None);
}

#[test]
fn removed_keys_are_gone() {
    let mut table: Table<String, u64> = Table::new();
    for (key, value) in [("a", 1), ("b", 2), ("c", 3)] {
        table.insert(key.to_string(), value);
    }
    assert_eq!(table.remove(&"b".to_string()), Some(2));
    assert_eq!(table.remove(&"b".to_string()), None);
    assert_eq!(keys(&table), vec!["a".to_string(), "c".to_string()]);
    assert_eq!(table.get(&"b".to_string()), None);
    assert_eq!(table.get(&"c".to_string()), Some(&3));
}

#[test]
fn pairs_can_be_keys() {
    let mut table: Table<(u8, u8), u64> = Table::new();
    table.insert((1, 0), 10);
    table.insert((1, 1), 11);
    assert_eq!(table.get(&(1, 0)), Some(&10));
    assert_eq!(table.get(&(1, 1)), Some(&11));
    assert_eq!(table.get(&(0, 1)), None);
}
