use csv::ByteRecord;
use radvisor::buffer::Buffer;
use radvisor::perf_table::{Column, ColumnType, TableMetadata, VectorPolicy};

fn fields(record: &ByteRecord) -> Vec<Vec<u8>> {
    record.iter().map(|f| f.to_vec()).collect()
}

fn row(table: &TableMetadata, line: &[u8]) -> Vec<Vec<u8>> {
    let mut working = Buffer::new();
    let mut record = ByteRecord::new();
    table.write_row(line, &mut working, &mut record);
    assert_eq!(working.len(), 0);
    fields(&record)
}

fn header(table: &TableMetadata) -> Vec<Vec<u8>> {
    let mut record = ByteRecord::new();
    table.write_header(&mut record);
    fields(&record)
}

fn scalar(name: &str) -> (String, Column) {
    (name.to_string(), Column::Scalar { column_type: ColumnType::Int })
}

fn vector(name: &str, count: usize) -> (String, Column) {
    (name.to_string(), Column::Vector { column_type: ColumnType::Int, count })
}

fn cpu_definitions() -> Vec<(String, Column)> {
    vec![
        scalar("user"),
        (String::from("read"), Column::Scalar { column_type: ColumnType::Epoch19 }),
        vector("percpu", 3),
        scalar("system"),
    ]
}

#[test]
fn single_scalar_column_passes_value_through() {
    let table = TableMetadata::new(b' ', vec![scalar("current")], VectorPolicy::Sum).unwrap();
    assert_eq!(row(&table, b"42"), vec![b"42".to_vec()]);
    assert_eq!(row(&table, b"42\n"), vec![b"42".to_vec()]);
    assert_eq!(header(&table), vec![b"current".to_vec()]);
}

#[test]
fn header_is_sorted_by_name() {
    let table = TableMetadata::new(b' ', cpu_definitions(), VectorPolicy::Sum).unwrap();
    assert_eq!(table.column_count(), 4);
    assert_eq!(table.delimiter(), b' ');
    assert_eq!(table.vector_policy(), VectorPolicy::Sum);
    let expected: Vec<Vec<u8>> = ["percpu", "read", "system", "user"].iter().map(|s| s.as_bytes().to_vec()).collect();
    assert_eq!(header(&table), expected);
}

#[test]
fn header_is_reproducible() {
    let a = TableMetadata::new(b' ', cpu_definitions(), VectorPolicy::Separate).unwrap();
    let b = TableMetadata::new(b' ', cpu_definitions(), VectorPolicy::Separate).unwrap();
    assert_eq!(header(&a), header(&b));
    let mut reversed = cpu_definitions();
    reversed.reverse();
    let c = TableMetadata::new(b' ', reversed, VectorPolicy::Separate).unwrap();
    assert_eq!(header(&a), header(&c));
    assert_eq!(header(&a).len(), 6);
}

#[test]
fn prefix_names_sort_first() {
    let table = TableMetadata::new(b',', vec![scalar("ab"), scalar("a"), scalar("b")], VectorPolicy::Sum).unwrap();
    let expected: Vec<Vec<u8>> = ["a", "ab", "b"].iter().map(|s| s.as_bytes().to_vec()).collect();
    assert_eq!(header(&table), expected);
    assert_eq!(row(&table, b"1,2,3"), vec![b"2".to_vec(), b"1".to_vec(), b"3".to_vec()]);
}

#[test]
fn duplicate_names_are_rejected() {
    assert!(TableMetadata::new(b' ', vec![scalar("a"), scalar("b"), scalar("a")], VectorPolicy::Sum).is_none());
    assert!(TableMetadata::new(b' ', vec![scalar("x"), vector("x", 2)], VectorPolicy::Sum).is_none());
}

#[test]
fn empty_definition_gives_empty_rows() {
    let table = TableMetadata::new(b' ', Vec::new(), VectorPolicy::Sum).unwrap();
    assert!(header(&table).is_empty());
    assert!(row(&table, b"1 2 3").is_empty());
}

#[test]
fn vector_columns_are_summed() {
    let table = TableMetadata::new(b' ', cpu_definitions(), VectorPolicy::Sum).unwrap();
    // source order: user read percpu(3) system
    let r = row(&table, b"10 0001 1 2 3 7\n");
    let expected: Vec<Vec<u8>> = ["6", "0001", "7", "10"].iter().map(|s| s.as_bytes().to_vec()).collect();
    assert_eq!(r, expected);
}

#[test]
fn vector_columns_can_be_separate() {
    let table = TableMetadata::new(b' ', cpu_definitions(), VectorPolicy::Separate).unwrap();
    let r = row(&table, b"10 0001 1 2 3 7");
    let expected: Vec<Vec<u8>> = ["1", "2", "3", "0001", "7", "10"].iter().map(|s| s.as_bytes().to_vec()).collect();
    assert_eq!(r, expected);
    let h = header(&table);
    let names: Vec<Vec<u8>> = ["percpu", "percpu", "percpu", "read", "system", "user"].iter().map(|s| s.as_bytes().to_vec()).collect();
    assert_eq!(h, names);
}

#[test]
fn short_line_gives_zero_for_missing_fields() {
    let table = TableMetadata::new(b' ', cpu_definitions(), VectorPolicy::Separate).unwrap();
    let r = row(&table, b"10 5 1");
    let expected: Vec<Vec<u8>> = ["1", "0", "0", "5", "0", "10"].iter().map(|s| s.as_bytes().to_vec()).collect();
    assert_eq!(r, expected);
}

#[test]
fn blank_line_gives_zero_everywhere() {
    let table = TableMetadata::new(b' ', cpu_definitions(), VectorPolicy::Sum).unwrap();
    let expected: Vec<Vec<u8>> = vec![b"0".to_vec(); 4];
    assert_eq!(row(&table, b""), expected);
    assert_eq!(row(&table, b"\n"), expected);
}

#[test]
fn empty_fields_between_delimiters_are_kept() {
    let table = TableMetadata::new(b',', vec![scalar("a"), scalar("b"), scalar("c")], VectorPolicy::Sum).unwrap();
    assert_eq!(row(&table, b"1,,3"), vec![b"1".to_vec(), b"".to_vec(), b"3".to_vec()]);
}

#[test]
fn fresh_records_hold_exactly_header_and_row() {
    let table = TableMetadata::new(b' ', cpu_definitions(), VectorPolicy::Sum).unwrap();
    let h = table.header_record();
    assert_eq!(fields(&h), header(&table));
    let mut working = Buffer::new();
    let r = table.row_record(b"10 0001 1 2 3 7\n", &mut working);
    assert_eq!(working.len(), 0);
    let expected: Vec<Vec<u8>> = ["6", "0001", "7", "10"].iter().map(|s| s.as_bytes().to_vec()).collect();
    assert_eq!(fields(&r), expected);
}

#[test]
fn header_ignores_definition_order() {
    let a = TableMetadata::new(b' ', cpu_definitions(), VectorPolicy::Sum).unwrap();
    let mut shuffled = cpu_definitions();
    shuffled.swap(0, 2);
    shuffled.swap(1, 3);
    let b = TableMetadata::new(b',', shuffled, VectorPolicy::Sum).unwrap();
    assert_eq!(fields(&a.header_record()), fields(&b.header_record()));
}

#[test]
fn row_with_mixed_text_field_is_not_truncated() {
    let table = TableMetadata::new(b' ', vec![vector("v", 3)], VectorPolicy::Sum).unwrap();
    assert_eq!(row(&table, b"5 12abc 7"), vec![b"12".to_vec()]);
}
