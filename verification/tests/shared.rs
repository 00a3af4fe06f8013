use simplest_lockfree_hashtable::shared::SharedTable;
use simplest_lockfree_hashtable::TableFull;

#[test]
fn shared_overwrite_then_second_key() {
    let table = SharedTable::new(4);
    assert_eq!(table.set_item(1, 1), Ok(()));
    assert_eq!(table.set_item(1, 2), Ok(()));
    assert_eq!(table.set_item(10, 10), Ok(()));
    assert_eq!(2, table.get_item(1));
    assert_eq!(10, table.get_item(10));
}

#[test]
fn shared_unwritten_keys_read_zero() {
    let table = SharedTable::new(8);
    assert_eq!(table.get_item(1), 0);
    assert_eq!(table.set_item(5, 50), Ok(()));
    assert_eq!(table.get_item(6), 0);
    assert_eq!(table.get_item(5), 50);
}

#[test]
fn shared_writers_through_two_references() {
    let table = SharedTable::new(32);
    let even = &table;
    let odd = &table;
    for i in 1..=10u32 {
        assert_eq!(even.set_item(i * 2, i * 200), Ok(()));
        assert_eq!(odd.set_item(i * 2 + 1, i * 100), Ok(()));
    }
    for i in 1..=10u32 {
        assert_eq!(table.get_item(i * 2), i * 200);
        assert_eq!(table.get_item(i * 2 + 1), i * 100);
    }
    assert_eq!(table.get_item(4), 400);
    assert_eq!(table.get_item(5), 200);
}

#[test]
fn shared_all_but_one_slot_filled() {
    let capacity = 32u32;
    let table = SharedTable::new(capacity);
    for key in 1..capacity {
        assert_eq!(table.set_item(key, key + 1000), Ok(()));
    }
    for key in 1..capacity {
        assert_eq!(table.get_item(key), key + 1000);
    }
    assert_eq!(table.get_item(capacity), 0);
}

#[test]
fn shared_full_table_turns_new_keys_away() {
    let table = SharedTable::new(4);
    for key in 1..=4u32 {
        assert_eq!(table.set_item(key, key * 3), Ok(()));
    }
    assert_eq!(table.set_item(9, 27), Err(TableFull));
    assert_eq!(table.get_item(9), 0);
    assert_eq!(table.set_item(2, 7), Ok(()));
    assert_eq!(table.get_item(1), 3);
    assert_eq!(table.get_item(2), 7);
    assert_eq!(table.get_item(3), 9);
    assert_eq!(table.get_item(4), 12);
}

#[test]
fn shared_colliding_keys_are_kept_apart() {
    let table = SharedTable::new(4);
    assert_eq!(table.set_item(3, 33), Ok(()));
    assert_eq!(table.set_item(7, 77), Ok(()));
    assert_eq!(table.set_item(8, 88), Ok(()));
    assert_eq!(table.set_item(10, 110), Ok(()));
    assert_eq!(table.get_item(3), 33);
    assert_eq!(table.get_item(7), 77);
    assert_eq!(table.get_item(8), 88);
    assert_eq!(table.get_item(10), 110);
}
