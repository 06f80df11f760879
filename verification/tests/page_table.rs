use cecs::page_table::PageTable;

#[test]
fn page_table_starts_empty() {
    let table: PageTable<u32> = PageTable::new(4);
    assert_eq!(table.get(0), None);
    assert!(!table.contains(7));
    assert!(table.rows().is_empty());
    let fresh: PageTable<u32> = PageTable::default();
    assert!(fresh.iter().is_empty());
}

#[test]
fn page_table_insert_then_get() {
    let mut table: PageTable<u32> = PageTable::new(0);
    assert_eq!(table.insert(5, 50), None);
    assert_eq!(table.get(5), Some(&50));
    assert_eq!(table.get(4), None);
    assert_eq!(table.get(6), None);
    assert!(table.contains(5));
}

#[test]
fn page_table_insert_returns_previous_value() {
    let mut table: PageTable<u32> = PageTable::new(0);
    assert_eq!(table.insert(9, 1), None);
    assert_eq!(table.insert(9, 2), Some(1));
    assert_eq!(table.get(9), Some(&2));
    assert_eq!(table.rows(), vec![9]);
}

#[test]
fn page_table_remove_leaves_a_hole() {
    let mut table: PageTable<u32> = PageTable::new(0);
    table.insert(0, 10);
    table.insert(1, 11);
    table.insert(2, 12);
    assert_eq!(table.remove(1), Some(11));
    assert_eq!(table.get(1), None);
    assert_eq!(table.get(0), Some(&10));
    assert_eq!(table.get(2), Some(&12));
    assert_eq!(table.rows(), vec![0, 2]);
}

#[test]
fn page_table_remove_of_absent_row_changes_nothing() {
    let mut table: PageTable<u32> = PageTable::new(0);
    table.insert(3, 30);
    assert_eq!(table.remove(4), None);
    assert_eq!(table.remove(100_000), None);
    assert_eq!(table.rows(), vec![3]);
    assert_eq!(table.get(3), Some(&30));
}

#[test]
fn page_table_iterates_in_ascending_row_order_across_pages() {
    let mut table: PageTable<u32> = PageTable::new(0);
    for row in [1000u32, 64, 0, 63, 65, 4096, 128] {
        table.insert(row, row * 2);
    }
    assert_eq!(table.rows(), vec![0, 63, 64, 65, 128, 1000, 4096]);
    let items: Vec<(u32, u32)> = table.iter().into_iter().map(|(row, value)| (row, *value)).collect();
    assert_eq!(
        items,
        vec![(0, 0), (63, 126), (64, 128), (65, 130), (128, 256), (1000, 2000), (4096, 8192)]
    );
}

#[test]
fn page_table_holds_the_last_row_of_the_row_space() {
    let mut table: PageTable<u8> = PageTable::new(0);
    table.insert(u32::MAX, 7);
    table.insert(0, 1);
    assert_eq!(table.get(u32::MAX), Some(&7));
    assert_eq!(table.rows(), vec![0, u32::MAX]);
    assert_eq!(table.remove(u32::MAX), Some(7));
    assert_eq!(table.rows(), vec![0]);
}

#[test]
fn page_table_get_mut_writes_in_place() {
    let mut table: PageTable<u32> = PageTable::new(0);
    table.insert(70, 1);
    match table.get_mut(70) {
        Some(value) => *value = 99,
        None => panic!("row 70 is occupied"),
    }
    assert_eq!(table.get(70), Some(&99));
    assert!(table.get_mut(71).is_none());
    assert_eq!(table.rows(), vec![70]);
}

#[test]
fn page_table_clone_is_deep() {
    let mut table: PageTable<String> = PageTable::new(0);
    table.insert(2, String::from("two"));
    table.insert(200, String::from("two hundred"));
    let mut copy = table.clone();
    assert_eq!(copy.rows(), vec![2, 200]);
    assert_eq!(copy.get(200), Some(&String::from("two hundred")));
    copy.insert(2, String::from("changed"));
    copy.remove(200);
    assert_eq!(table.get(2), Some(&String::from("two")));
    assert_eq!(table.get(200), Some(&String::from("two hundred")));
}
