use break_filler::store::Table;
use break_filler::Store;

#[test]
fn count_for_unseen_is_zero_and_stays_zero() {
    let mut store = Store::new();
    let d = "water".to_owned();
    assert_eq!(store.get_count(&d), None);
    assert_eq!(store.count_for(&d), 0);
    assert_eq!(store.get_count(&d), Some(0));
    assert_eq!(store.count_for(&d), 0);
    assert_eq!(store.counts().len(), 1);
}

#[test]
fn store_fields_round_trip() {
    let mut store = Store::new();
    let d = "walk".to_owned();
    store.insert_count(&d, 2);
    store.insert_count(&d, 3);
    assert_eq!(store.get_count(&d), Some(3));
    assert_eq!(store.counts().len(), 1);
    store.insert_last_at(&d, 1000);
    assert_eq!(store.get_last_at(&d), Some(1000));
    store.set_breaks(4);
    assert_eq!(store.breaks(), 4);
    store.set_last_check(77);
    assert_eq!(store.last_check(), 77);
    store.clear_counts();
    assert_eq!(store.get_count(&d), None);
    assert_eq!(store.get_last_at(&d), Some(1000));
}

#[test]
fn table_keeps_keys_unique() {
    let mut t: Table<u32> = Table::new();
    let a = "a".to_owned();
    let b = "b".to_owned();
    t.insert(&a, 1);
    t.insert(&b, 2);
    t.insert(&a, 3);
    assert_eq!(t.get(&a), Some(3));
    assert_eq!(t.get(&b), Some(2));
    assert_eq!(t.entries().len(), 2);
    t.clear();
    assert_eq!(t.get(&a), None);
}
