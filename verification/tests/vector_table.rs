use trustzone_m::hash::hash_vector_name;
use trustzone_m::vector_table::{build_table, find, VectorTableEntry};

fn table_of_two(p1: usize, h1: u32, p2: usize, h2: u32) -> Vec<VectorTableEntry> {
    vec![
        VectorTableEntry::new(p1, h1),
        VectorTableEntry::new(p2, h2),
        VectorTableEntry::sentinel(),
    ]
}

#[test]
fn find_returns_the_pointer_of_each_row() {
    let table = table_of_two(0x1000, 0xAAAA_0001, 0x2000, 0xBBBB_0002);
    assert_eq!(find(&table, 0xAAAA_0001), Some(0x1000));
    assert_eq!(find(&table, 0xBBBB_0002), Some(0x2000));
}

#[test]
fn find_reports_a_third_hash_as_missing() {
    let table = table_of_two(0x1000, 0xAAAA_0001, 0x2000, 0xBBBB_0002);
    assert_eq!(find(&table, 0xCCCC_0003), None);
    assert_eq!(find(&table, 1), None);
    assert_eq!(find(&table, u32::MAX), None);
}

#[test]
fn find_reports_the_hash_of_the_empty_name_as_missing() {
    let table = table_of_two(
        0x1000,
        hash_vector_name("write_thing"),
        0x2000,
        hash_vector_name("read_thing"),
    );
    assert_eq!(find(&table, hash_vector_name("write_thing")), Some(0x1000));
    assert_eq!(find(&table, hash_vector_name("read_thing")), Some(0x2000));
    assert_eq!(find(&table, hash_vector_name("")), None);
}

#[test]
fn find_stops_at_the_first_sentinel() {
    let table = vec![
        VectorTableEntry::new(0x1000, 7),
        VectorTableEntry::sentinel(),
        VectorTableEntry::new(0x2000, 9),
    ];
    assert_eq!(find(&table, 7), Some(0x1000));
    assert_eq!(find(&table, 9), None);
}

#[test]
fn find_does_not_find_the_sentinel() {
    let table = table_of_two(0x1000, 7, 0x2000, 9);
    assert_eq!(find(&table, 0), None);
}

#[test]
fn find_reads_a_table_without_sentinel_to_its_end() {
    let table = vec![VectorTableEntry::new(0x1000, 7), VectorTableEntry::new(0x2000, 9)];
    assert_eq!(find(&table, 9), Some(0x2000));
    assert_eq!(find(&table, 8), None);
}

#[test]
fn find_in_an_empty_table() {
    let table: Vec<VectorTableEntry> = Vec::new();
    assert_eq!(find(&table, 7), None);
    assert_eq!(find(&[VectorTableEntry::sentinel()], 7), None);
}

#[test]
fn find_returns_the_first_of_two_rows_with_one_hash() {
    let table = table_of_two(0x1000, 7, 0x2000, 7);
    assert_eq!(find(&table, 7), Some(0x1000));
}

#[test]
fn a_row_with_a_pointer_and_a_zero_hash_is_no_sentinel() {
    let table = vec![
        VectorTableEntry::new(0x1000, 0),
        VectorTableEntry::new(0x2000, 9),
        VectorTableEntry::sentinel(),
    ];
    assert_eq!(find(&table, 9), Some(0x2000));
    assert_eq!(find(&table, 0), Some(0x1000));
}

#[test]
fn a_row_with_a_zero_pointer_and_a_hash_is_no_sentinel() {
    let table = vec![
        VectorTableEntry::new(0, 5),
        VectorTableEntry::new(0x2000, 9),
        VectorTableEntry::sentinel(),
    ];
    assert_eq!(find(&table, 5), Some(0));
    assert_eq!(find(&table, 9), Some(0x2000));
}

#[test]
fn sentinel_is_recognised() {
    assert!(VectorTableEntry::sentinel().is_end());
    assert!(!VectorTableEntry::new(1, 0).is_end());
    assert!(!VectorTableEntry::new(0, 1).is_end());
    assert_eq!(VectorTableEntry::new(3, 4).function_pointer, 3);
    assert_eq!(VectorTableEntry::new(3, 4).name_hash, 4);
}

#[test]
fn a_built_table_holds_the_rows_and_the_sentinel() {
    let table = build_table(&[(0x1000, 7), (0x2000, 9)]);
    assert_eq!(table, table_of_two(0x1000, 7, 0x2000, 9));
    assert_eq!(find(&table, 7), Some(0x1000));
    assert_eq!(find(&table, 9), Some(0x2000));
    assert_eq!(find(&table, 8), None);
    assert_eq!(build_table(&[]), vec![VectorTableEntry::sentinel()]);
}
