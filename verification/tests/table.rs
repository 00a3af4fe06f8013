use simplest_lockfree_hashtable::{HashTable2, TableFull};

#[test]
fn overwrite_keeps_the_last_value() {
    let mut table = HashTable2::new(4);
    assert_eq!(table.set_item(1, 1), Ok(()));
    assert_eq!(table.set_item(1, 2), Ok(()));
    assert_eq!(table.get_item(1), 2);
}

#[test]
fn two_keys_do_not_disturb_each_other() {
    let mut table = HashTable2::new(4);
    assert_eq!(table.set_item(1, 2), Ok(()));
    assert_eq!(table.set_item(10, 10), Ok(()));
    assert_eq!(table.get_item(1), 2);
    assert_eq!(table.get_item(10), 10);
}

#[test]
fn overwrite_then_second_key() {
    let mut table = HashTable2::new(4);
    assert_eq!(table.set_item(1, 1), Ok(()));
    assert_eq!(table.set_item(1, 2), Ok(()));
    assert_eq!(table.set_item(10, 10), Ok(()));
    assert_eq!(2, table.get_item(1));
    assert_eq!(10, table.get_item(10));
}

#[test]
fn unwritten_keys_read_zero() {
    let mut table = HashTable2::new(8);
    assert_eq!(table.get_item(1), 0);
    assert_eq!(table.get_item(u32::MAX), 0);
    assert_eq!(table.set_item(5, 50), Ok(()));
    assert_eq!(table.get_item(1), 0);
    assert_eq!(table.get_item(6), 0);
    assert_eq!(table.get_item(13), 0);
    assert_eq!(table.get_item(u32::MAX), 0);
    assert_eq!(table.get_item(5), 50);
}

#[test]
fn same_write_twice_reads_back() {
    let mut table = HashTable2::new(4);
    assert_eq!(table.set_item(7, 70), Ok(()));
    assert_eq!(table.set_item(7, 70), Ok(()));
    assert_eq!(table.get_item(7), 70);
}

#[test]
fn last_of_many_writes_wins() {
    let mut table = HashTable2::new(8);
    let writes = [(3, 30), (4, 40), (3, 31), (5, 50), (4, 41), (3, 32)];
    for (key, value) in writes {
        assert_eq!(table.set_item(key, value), Ok(()));
    }
    assert_eq!(table.get_item(3), 32);
    assert_eq!(table.get_item(4), 41);
    assert_eq!(table.get_item(5), 50);
}

#[test]
fn construction_needs_a_power_of_two() {
    assert!(HashTable2::try_new(0).is_none());
    assert!(HashTable2::try_new(3).is_none());
    assert!(HashTable2::try_new(100).is_none());
    assert!(HashTable2::try_new(6).is_none());
    assert!(HashTable2::try_new(1).is_some());
    assert!(HashTable2::try_new(4).is_some());
    assert!(HashTable2::try_new(1024).is_some());
}

#[test]
fn checked_construction_gives_an_empty_table() {
    let mut table = HashTable2::try_new(4).unwrap();
    assert_eq!(table.get_item(1), 0);
    assert_eq!(table.set_item(1, 9), Ok(()));
    assert_eq!(table.get_item(1), 9);
}

#[test]
fn interleaved_even_and_odd_writers() {
    let mut table = HashTable2::new(32);
    for i in 1..=10u32 {
        assert_eq!(table.set_item(i * 2, i * 200), Ok(()));
        assert_eq!(table.set_item(i * 2 + 1, i * 100), Ok(()));
    }
    for i in 1..=10u32 {
        assert_eq!(table.get_item(i * 2), i * 200);
        assert_eq!(table.get_item(i * 2 + 1), i * 100);
    }
    assert_eq!(table.get_item(4), 400);
    assert_eq!(table.get_item(5), 200);
    assert_eq!(table.get_item(1), 0);
    assert_eq!(table.get_item(22), 0);
}

#[test]
fn all_but_one_slot_filled() {
    let capacity = 32u32;
    let mut table = HashTable2::new(capacity);
    for key in 1..capacity {
        assert_eq!(table.set_item(key, key + 1000), Ok(()));
    }
    for key in 1..capacity {
        assert_eq!(table.get_item(key), key + 1000);
    }
    assert_eq!(table.get_item(capacity), 0);
    assert_eq!(table.get_item(capacity + 1), 0);
}

#[test]
fn full_table_turns_new_keys_away() {
    let capacity = 8u32;
    let mut table = HashTable2::new(capacity);
    for key in 1..=capacity {
        assert_eq!(table.set_item(key, key * 3), Ok(()));
    }
    assert_eq!(table.set_item(9, 27), Err(TableFull));
    assert_eq!(table.set_item(100, 1), Err(TableFull));
    assert_eq!(table.get_item(9), 0);
    assert_eq!(table.get_item(100), 0);
    for key in 1..=capacity {
        assert_eq!(table.get_item(key), key * 3);
    }
}

#[test]
fn full_table_still_updates_stored_keys() {
    let mut table = HashTable2::new(2);
    assert_eq!(table.set_item(1, 1), Ok(()));
    assert_eq!(table.set_item(2, 2), Ok(()));
    assert_eq!(table.set_item(3, 3), Err(TableFull));
    assert_eq!(table.set_item(2, 5), Ok(()));
    assert_eq!(table.get_item(1), 1);
    assert_eq!(table.get_item(2), 5);
    assert_eq!(table.get_item(3), 0);
}

#[test]
fn single_slot_table() {
    let mut table = HashTable2::new(1);
    assert_eq!(table.get_item(9), 0);
    assert_eq!(table.set_item(9, 90), Ok(()));
    assert_eq!(table.set_item(8, 80), Err(TableFull));
    assert_eq!(table.set_item(9, 91), Ok(()));
    assert_eq!(table.get_item(9), 91);
    assert_eq!(table.get_item(8), 0);
}

#[test]
fn colliding_keys_are_kept_apart() {
    // Keys 3, 7, 8, 10 all start probing at slot 1 of 4.
    let mut table = HashTable2::new(4);
    assert_eq!(table.set_item(3, 33), Ok(()));
    assert_eq!(table.set_item(7, 77), Ok(()));
    assert_eq!(table.set_item(8, 88), Ok(()));
    assert_eq!(table.set_item(10, 110), Ok(()));
    assert_eq!(table.get_item(3), 33);
    assert_eq!(table.get_item(7), 77);
    assert_eq!(table.get_item(8), 88);
    assert_eq!(table.get_item(10), 110);
    assert_eq!(table.get_item(1), 0);
    assert_eq!(table.set_item(7, 78), Ok(()));
    assert_eq!(table.get_item(7), 78);
    assert_eq!(table.get_item(8), 88);
}

#[test]
fn extreme_keys_and_values() {
    let mut table = HashTable2::new(4);
    assert_eq!(table.set_item(u32::MAX, u32::MAX), Ok(()));
    assert_eq!(table.set_item(1, u32::MAX), Ok(()));
    assert_eq!(table.get_item(u32::MAX), u32::MAX);
    assert_eq!(table.get_item(1), u32::MAX);
}
