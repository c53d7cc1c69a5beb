use rhizome::table::{key_eq, Key, Table};

fn key(fill: u8) -> Key {
    [fill; 32]
}

#[test]
fn key_eq_compares_every_byte() {
    let a = key(7);
    let mut b = key(7);
    assert!(key_eq(&a, &b));
    b[31] = 8;
    assert!(!key_eq(&a, &b));
    b[31] = 7;
    b[0] = 0;
    assert!(!key_eq(&a, &b));
}

#[test]
fn new_table_is_empty() {
    let table: Table<u32> = Table::new();
    assert_eq!(table.len(), 0);
    assert!(!table.contains_key(&key(0)));
    assert_eq!(table.get(&key(0)), None);
}

#[test]
fn insert_then_get() {
    let mut table: Table<u32> = Table::new();
    table.insert(key(1), 10);
    table.insert(key(2), 20);
    assert_eq!(table.len(), 2);
    assert_eq!(table.get(&key(1)), Some(&10));
    assert_eq!(table.get(&key(2)), Some(&20));
    assert_eq!(table.get(&key(3)), None);
    assert!(table.contains_key(&key(2)));
}

#[test]
fn insert_overwrites_and_never_merges() {
    let mut table: Table<u32> = Table::new();
    table.insert(key(1), 10);
    table.insert(key(2), 20);
    table.insert(key(1), 11);
    assert_eq!(table.len(), 2);
    assert_eq!(table.get(&key(1)), Some(&11));
    assert_eq!(table.get(&key(2)), Some(&20));
}

#[test]
fn remove_returns_the_value_and_forgets_the_key() {
    let mut table: Table<u32> = Table::new();
    table.insert(key(1), 10);
    table.insert(key(2), 20);
    table.insert(key(3), 30);
    assert_eq!(table.remove(&key(2)), Some(20));
    assert_eq!(table.len(), 2);
    assert_eq!(table.get(&key(2)), None);
    assert_eq!(table.get(&key(1)), Some(&10));
    assert_eq!(table.get(&key(3)), Some(&30));
    assert_eq!(table.remove(&key(2)), None);
    assert_eq!(table.len(), 2);
}

#[test]
fn remove_from_empty_table_is_none() {
    let mut table: Table<u32> = Table::new();
    assert_eq!(table.remove(&key(9)), None);
    assert_eq!(table.len(), 0);
}

#[test]
fn keys_that_differ_in_one_byte_are_different_entries() {
    let mut table: Table<u32> = Table::new();
    let a = key(0);
    let mut b = key(0);
    b[17] = 1;
    table.insert(a, 1);
    table.insert(b, 2);
    assert_eq!(table.len(), 2);
    assert_eq!(table.get(&a), Some(&1));
    assert_eq!(table.get(&b), Some(&2));
}
