use bytes::Bytes;
use clickhouse::bytes_ext::BytesExt;

#[test]
fn a_new_buffer_is_empty() {
    let buffer = BytesExt::new();
    assert_eq!(buffer.remaining(), 0);
    assert_eq!(buffer.slice(), &[] as &[u8]);
}

#[test]
fn extend_appends_behind_what_is_left() {
    let mut buffer = BytesExt::new();
    buffer.extend(Bytes::from(vec![1, 2, 3]));
    assert_eq!(buffer.slice(), &[1, 2, 3]);
    buffer.extend(Bytes::from(vec![4, 5]));
    assert_eq!(buffer.slice(), &[1, 2, 3, 4, 5]);
    assert_eq!(buffer.remaining(), 5);
}

#[test]
fn advance_consumes_from_the_front() {
    let mut buffer = BytesExt::new();
    buffer.extend(Bytes::from(vec![1, 2, 3, 4]));
    buffer.advance(1);
    assert_eq!(buffer.slice(), &[2, 3, 4]);
    buffer.advance(0);
    assert_eq!(buffer.slice(), &[2, 3, 4]);
    buffer.advance(3);
    assert_eq!(buffer.remaining(), 0);
}

#[test]
fn set_remaining_keeps_the_tail() {
    let mut buffer = BytesExt::new();
    buffer.extend(Bytes::from(vec![1, 2, 3, 4]));
    buffer.set_remaining(3);
    assert_eq!(buffer.slice(), &[2, 3, 4]);
    buffer.set_remaining(3);
    assert_eq!(buffer.slice(), &[2, 3, 4]);
    buffer.set_remaining(0);
    assert_eq!(buffer.slice(), &[] as &[u8]);
}

#[test]
fn consumed_bytes_do_not_come_back() {
    let mut buffer = BytesExt::new();
    buffer.extend(Bytes::from(vec![1, 2, 3]));
    buffer.advance(2);
    buffer.extend(Bytes::from(vec![4]));
    assert_eq!(buffer.slice(), &[3, 4]);
    buffer.advance(2);
    buffer.extend(Bytes::from(vec![5, 6]));
    assert_eq!(buffer.slice(), &[5, 6]);
}

#[test]
fn an_empty_chunk_changes_nothing() {
    let mut buffer = BytesExt::new();
    buffer.extend(Bytes::new());
    assert_eq!(buffer.remaining(), 0);
    buffer.extend(Bytes::from(vec![7]));
    buffer.extend(Bytes::new());
    assert_eq!(buffer.slice(), &[7]);
}
