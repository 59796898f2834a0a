use hist::table::FrequencyTable;

#[test]
fn a_new_table_is_empty() {
    let table = FrequencyTable::new();
    assert!(table.is_empty());
    assert_eq!(table.len(), 0);
    assert_eq!(table.total(), 0);
    assert_eq!(table.count_of("a"), None);
}

#[test]
fn a_key_seen_first_has_count_one() {
    let mut table = FrequencyTable::new();
    table.observe("a");
    assert!(!table.is_empty());
    assert_eq!(table.len(), 1);
    assert_eq!(table.total(), 1);
    assert_eq!(table.count_of("a"), Some(1));
}

#[test]
fn a_key_seen_again_counts_up() {
    let mut table = FrequencyTable::new();
    for key in ["b", "a", "b", "c", "b", "a"] {
        table.observe(key);
    }
    assert_eq!(table.len(), 3);
    assert_eq!(table.total(), 6);
    assert_eq!(table.count_of("a"), Some(2));
    assert_eq!(table.count_of("b"), Some(3));
    assert_eq!(table.count_of("c"), Some(1));
    assert_eq!(table.count_of("d"), None);
}

#[test]
fn the_keys_are_kept_in_order() {
    let mut table = FrequencyTable::new();
    for key in ["pear", "apple", "fig", "apple", "", "figs", "Pear"] {
        table.observe(key);
    }
    let keys: Vec<&str> = (0..table.len()).map(|i| table.key_at(i)).collect();
    assert_eq!(keys, vec!["", "Pear", "apple", "fig", "figs", "pear"]);
    let counts: Vec<usize> = (0..table.len()).map(|i| table.count_at(i)).collect();
    assert_eq!(counts, vec![1, 1, 2, 1, 1, 1]);
    assert_eq!(table.count_list(), counts);
}

#[test]
fn many_keys_are_all_found_again() {
    let mut table = FrequencyTable::new();
    for round in 0..3 {
        for i in 0..200 {
            let key = format!("key{}", (i * 37) % 200);
            table.observe(&key);
            let _ = round;
        }
    }
    assert_eq!(table.len(), 200);
    assert_eq!(table.total(), 600);
    for i in 0..200 {
        assert_eq!(table.count_of(&format!("key{}", i)), Some(3));
    }
    for i in 1..table.len() {
        assert!(table.key_at(i - 1) < table.key_at(i));
    }
}
