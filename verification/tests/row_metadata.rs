use clickhouse::columns_header::{Column, HeaderError};
use clickhouse::row_metadata::{find_field, same_bytes, RowMetadata};

fn column(name: &str) -> Column {
    Column { name: name.as_bytes().to_vec(), data_type: b"UInt8".to_vec() }
}

fn columns(names: &[&str]) -> Vec<Column> {
    names.iter().map(|name| column(name)).collect()
}

fn fields(names: &[&str]) -> Vec<Vec<u8>> {
    names.iter().map(|name| name.as_bytes().to_vec()).collect()
}

#[test]
fn columns_in_the_order_of_the_fields() {
    let meta = RowMetadata::new_for_cursor(columns(&["a", "b", "c"]), &fields(&["a", "b", "c"]))
        .unwrap();
    assert_eq!(meta.mapping(), &vec![0, 1, 2]);
    assert_eq!(meta.columns(), &columns(&["a", "b", "c"]));
}

#[test]
fn columns_in_another_order() {
    let meta = RowMetadata::new_for_cursor(columns(&["c", "a", "b"]), &fields(&["a", "b", "c"]))
        .unwrap();
    assert_eq!(meta.mapping(), &vec![2, 0, 1]);
    assert_eq!(meta.columns(), &columns(&["c", "a", "b"]));
}

#[test]
fn too_few_columns() {
    assert_eq!(
        RowMetadata::new_for_cursor(columns(&["a"]), &fields(&["a", "b"])),
        Err(HeaderError::ColumnCount { expected: 2, actual: 1 })
    );
}

#[test]
fn too_many_columns() {
    assert_eq!(
        RowMetadata::new_for_cursor(columns(&["a", "b", "c"]), &fields(&["a", "b"])),
        Err(HeaderError::ColumnCount { expected: 2, actual: 3 })
    );
}

#[test]
fn no_columns() {
    assert_eq!(
        RowMetadata::new_for_cursor(Vec::new(), &fields(&[])),
        Err(HeaderError::EmptyColumns)
    );
    assert_eq!(
        RowMetadata::new_for_cursor(Vec::new(), &fields(&["a"])),
        Err(HeaderError::EmptyColumns)
    );
}

#[test]
fn a_column_that_the_row_does_not_have() {
    assert_eq!(
        RowMetadata::new_for_cursor(columns(&["a", "x", "y"]), &fields(&["a", "b", "c"])),
        Err(HeaderError::UnknownColumn { index: 1 })
    );
}

#[test]
fn a_column_twice() {
    assert_eq!(
        RowMetadata::new_for_cursor(columns(&["a", "b", "a"]), &fields(&["a", "b", "c"])),
        Err(HeaderError::DuplicateColumn { index: 2 })
    );
}

#[test]
fn the_first_fault_is_reported() {
    assert_eq!(
        RowMetadata::new_for_cursor(columns(&["a", "a", "x"]), &fields(&["a", "b", "c"])),
        Err(HeaderError::DuplicateColumn { index: 1 })
    );
    assert_eq!(
        RowMetadata::new_for_cursor(columns(&["x", "a", "a"]), &fields(&["a", "b", "c"])),
        Err(HeaderError::UnknownColumn { index: 0 })
    );
}

#[test]
fn names_are_compared_byte_by_byte() {
    assert_eq!(
        RowMetadata::new_for_cursor(columns(&["A"]), &fields(&["a"])),
        Err(HeaderError::UnknownColumn { index: 0 })
    );
    assert_eq!(
        RowMetadata::new_for_cursor(columns(&["ab"]), &fields(&["a"])),
        Err(HeaderError::UnknownColumn { index: 0 })
    );
    assert!(RowMetadata::new_for_cursor(columns(&["zähler"]), &fields(&["zähler"])).is_ok());
}

#[test]
fn find_field_gives_the_first_index() {
    let names = fields(&["a", "b", "a"]);
    assert_eq!(find_field(&names, b"a"), Some(0));
    assert_eq!(find_field(&names, b"b"), Some(1));
    assert_eq!(find_field(&names, b"c"), None);
    assert_eq!(find_field(&Vec::new(), b"a"), None);
}

#[test]
fn same_bytes_compares_whole_strings() {
    assert!(same_bytes(b"", b""));
    assert!(same_bytes(b"abc", b"abc"));
    assert!(!same_bytes(b"abc", b"abd"));
    assert!(!same_bytes(b"abc", b"ab"));
    assert!(!same_bytes(b"", b"a"));
}
