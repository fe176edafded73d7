use bytes::Bytes;
use clickhouse::columns_header::HeaderError;
use clickhouse::cursors::raw::RawCursor;
use clickhouse::error::Error;
use clickhouse::response::{Chunk, Event, Poll};
use clickhouse_types::{put_rbwnat_columns_header, Column, DataTypeNode};

fn header() -> Vec<u8> {
    let columns = vec![
        Column::new("id".to_string(), DataTypeNode::UInt64),
        Column::new("data".to_string(), DataTypeNode::String),
    ];
    let mut bytes = Vec::new();
    put_rbwnat_columns_header(&columns, &mut bytes).unwrap();
    bytes
}

fn fields() -> Vec<Vec<u8>> {
    vec![b"id".to_vec(), b"data".to_vec()]
}

fn chunk(data: &[u8], net_size: usize) -> Event {
    Event::Chunk(Chunk { data: Bytes::copy_from_slice(data), net_size })
}

fn some(data: &[u8]) -> Poll<Result<Option<Bytes>, Error>> {
    Poll::Ready(Ok(Some(Bytes::copy_from_slice(data))))
}

#[test]
fn a_new_cursor_has_seen_nothing() {
    let cursor = RawCursor::new(true, fields());
    assert_eq!(cursor.received_bytes(), 0);
    assert_eq!(cursor.decoded_bytes(), 0);
    assert!(!cursor.is_terminated());
    assert!(cursor.row_metadata().is_none());
}

#[test]
fn without_validation_the_body_is_handed_on_as_it_comes() {
    let mut cursor = RawCursor::new(false, Vec::new());
    assert_eq!(cursor.poll_next(Event::Resolved), Poll::Pending);
    assert_eq!(cursor.poll_next(chunk(&[1, 2, 3], 2)), some(&[1, 2, 3]));
    assert_eq!((cursor.received_bytes(), cursor.decoded_bytes()), (2, 3));
    assert_eq!(cursor.poll_next(chunk(&[], 7)), some(&[]));
    assert_eq!(cursor.poll_next(chunk(&[4], 1)), some(&[4]));
    assert_eq!((cursor.received_bytes(), cursor.decoded_bytes()), (10, 4));
    assert!(!cursor.is_terminated());
    assert_eq!(cursor.poll_next(Event::End), Poll::Ready(Ok(None)));
    assert!(cursor.is_terminated());
    assert!(cursor.row_metadata().is_none());
}

#[test]
fn a_chunk_tells_that_the_response_is_there() {
    let mut cursor = RawCursor::new(false, Vec::new());
    assert_eq!(cursor.poll_next(chunk(&[1, 2], 2)), some(&[1, 2]));
    assert_eq!((cursor.received_bytes(), cursor.decoded_bytes()), (2, 2));

    let mut cursor = RawCursor::new(true, fields());
    assert_eq!(cursor.poll_next(chunk(&header(), 23)), Poll::Pending);
    assert!(cursor.row_metadata().is_some());
}

#[test]
fn a_header_in_one_chunk() {
    let mut cursor = RawCursor::new(true, fields());
    assert_eq!(cursor.poll_next(Event::Resolved), Poll::Pending);
    assert_eq!((cursor.received_bytes(), cursor.decoded_bytes()), (0, 0));
    assert_eq!(cursor.poll_next(chunk(&header(), 50)), Poll::Pending);
    assert_eq!((cursor.received_bytes(), cursor.decoded_bytes()), (50, 23));
    let meta = cursor.row_metadata().unwrap();
    assert_eq!(meta.mapping(), &vec![0, 1]);
    assert_eq!(meta.columns()[0].name, b"id");
    assert_eq!(meta.columns()[1].data_type, b"String");
    assert_eq!(cursor.poll_next(chunk(&[9, 9], 2)), some(&[9, 9]));
    assert_eq!((cursor.received_bytes(), cursor.decoded_bytes()), (52, 25));
}

#[test]
fn what_follows_the_header_in_its_chunk_comes_first() {
    let mut bytes = header();
    bytes.extend([1, 2, 3, 4, 5]);
    let mut cursor = RawCursor::new(true, fields());
    assert_eq!(cursor.poll_next(Event::Resolved), Poll::Pending);
    assert_eq!(cursor.poll_next(chunk(&bytes, 28)), some(&[1, 2, 3, 4, 5]));
    assert_eq!((cursor.received_bytes(), cursor.decoded_bytes()), (28, 28));
    assert_eq!(cursor.poll_next(chunk(&[6], 1)), some(&[6]));
    assert_eq!(cursor.poll_next(Event::End), Poll::Ready(Ok(None)));
}

#[test]
fn a_header_split_anywhere_reads_the_same() {
    let mut bytes = header();
    bytes.extend([7, 8, 9]);
    for first in 0..=bytes.len() {
        for second in first..=bytes.len() {
            let mut cursor = RawCursor::new(true, fields());
            assert_eq!(cursor.poll_next(Event::Resolved), Poll::Pending);
            let pieces = [&bytes[..first], &bytes[first..second], &bytes[second..]];
            let mut arrived = 0;
            let mut handed_out: Vec<u8> = Vec::new();
            for piece in pieces {
                let before = arrived;
                arrived += piece.len();
                match cursor.poll_next(chunk(piece, piece.len())) {
                    Poll::Pending => {
                        assert!(arrived <= 23, "{first} {second}");
                        assert_eq!(cursor.row_metadata().is_some(), arrived == 23);
                    }
                    Poll::Ready(Ok(Some(data))) => {
                        assert!(arrived >= 23);
                        assert_eq!(&data[..], &bytes[before.max(23)..arrived]);
                        handed_out.extend(&data[..]);
                    }
                    other => panic!("{first} {second}: {other:?}"),
                }
            }
            assert_eq!(handed_out, [7, 8, 9]);
            assert_eq!(cursor.row_metadata().unwrap().mapping(), &vec![0, 1]);
            assert_eq!((cursor.received_bytes(), cursor.decoded_bytes()), (26, 26));
        }
    }
}

#[test]
fn a_header_byte_by_byte() {
    let bytes = header();
    let mut cursor = RawCursor::new(true, fields());
    assert_eq!(cursor.poll_next(Event::Resolved), Poll::Pending);
    for (i, byte) in bytes.iter().enumerate() {
        assert!(cursor.row_metadata().is_none());
        assert_eq!((cursor.received_bytes(), cursor.decoded_bytes()), (0, 0));
        assert_eq!(cursor.poll_next(chunk(&[*byte], 3)), Poll::Pending, "{i}");
    }
    assert!(cursor.row_metadata().is_some());
    assert_eq!((cursor.received_bytes(), cursor.decoded_bytes()), (69, 23));
}

#[test]
fn a_body_that_ends_inside_the_header() {
    let bytes = header();
    let mut cursor = RawCursor::new(true, fields());
    assert_eq!(cursor.poll_next(Event::Resolved), Poll::Pending);
    assert_eq!(cursor.poll_next(chunk(&bytes[..10], 10)), Poll::Pending);
    assert_eq!(
        cursor.poll_next(Event::End),
        Poll::Ready(Err(Error::BadResponse("Could not read columns header".to_string())))
    );
    assert!(cursor.is_terminated());
    assert_eq!(cursor.poll_next(chunk(&bytes[10..], 13)), Poll::Ready(Ok(None)));
    assert_eq!(cursor.poll_next(Event::End), Poll::Ready(Ok(None)));
    assert!(cursor.row_metadata().is_none());
}

#[test]
fn a_body_without_any_bytes() {
    let mut cursor = RawCursor::new(true, fields());
    assert_eq!(cursor.poll_next(Event::Resolved), Poll::Pending);
    assert_eq!(
        cursor.poll_next(Event::End),
        Poll::Ready(Err(Error::BadResponse("Could not read columns header".to_string())))
    );
}

#[test]
fn a_malformed_header() {
    let mut cursor = RawCursor::new(true, fields());
    assert_eq!(cursor.poll_next(Event::Resolved), Poll::Pending);
    assert_eq!(
        cursor.poll_next(chunk(&[0, 1, 2], 3)),
        Poll::Ready(Err(Error::InvalidColumnsHeader(HeaderError::EmptyColumns)))
    );
    assert!(cursor.is_terminated());
    assert_eq!((cursor.received_bytes(), cursor.decoded_bytes()), (3, 3));
    assert_eq!(cursor.poll_next(Event::End), Poll::Ready(Ok(None)));
}

#[test]
fn columns_that_do_not_fit_the_row() {
    let mut cursor = RawCursor::new(true, vec![b"id".to_vec(), b"name".to_vec()]);
    assert_eq!(
        cursor.poll_next(chunk(&header(), 23)),
        Poll::Ready(Err(Error::InvalidColumnsHeader(HeaderError::UnknownColumn { index: 1 })))
    );
    assert!(cursor.is_terminated());
    assert!(cursor.row_metadata().is_none());

    let mut cursor = RawCursor::new(true, vec![b"id".to_vec()]);
    assert_eq!(
        cursor.poll_next(chunk(&header(), 23)),
        Poll::Ready(Err(Error::InvalidColumnsHeader(HeaderError::ColumnCount {
            expected: 1,
            actual: 2
        })))
    );
}

#[test]
fn columns_in_another_order_than_the_fields() {
    let mut cursor = RawCursor::new(true, vec![b"data".to_vec(), b"id".to_vec()]);
    assert_eq!(cursor.poll_next(chunk(&header(), 23)), Poll::Pending);
    assert_eq!(cursor.row_metadata().unwrap().mapping(), &vec![1, 0]);
}

#[test]
fn a_response_that_fails() {
    let error = Error::Network("connection refused".to_string());
    let mut cursor = RawCursor::new(true, fields());
    assert_eq!(cursor.poll_next(Event::Failed(error.clone())), Poll::Ready(Err(error)));
    assert!(cursor.is_terminated());
    assert_eq!((cursor.received_bytes(), cursor.decoded_bytes()), (0, 0));
    assert_eq!(cursor.poll_next(Event::Resolved), Poll::Ready(Ok(None)));
    assert_eq!(cursor.poll_next(chunk(&[1], 1)), Poll::Ready(Ok(None)));
    assert_eq!((cursor.received_bytes(), cursor.decoded_bytes()), (0, 0));
}

#[test]
fn a_body_that_fails() {
    let error = Error::Network("reset".to_string());
    let mut cursor = RawCursor::new(false, Vec::new());
    assert_eq!(cursor.poll_next(Event::Resolved), Poll::Pending);
    assert_eq!(cursor.poll_next(chunk(&[1, 2], 2)), some(&[1, 2]));
    assert_eq!(cursor.poll_next(Event::Failed(error.clone())), Poll::Ready(Err(error)));
    assert!(cursor.is_terminated());
    assert_eq!((cursor.received_bytes(), cursor.decoded_bytes()), (2, 2));
    assert_eq!(cursor.poll_next(chunk(&[3], 1)), Poll::Ready(Ok(None)));
    assert_eq!((cursor.received_bytes(), cursor.decoded_bytes()), (2, 2));
}

#[test]
fn a_body_that_fails_inside_the_header() {
    let error = Error::Network("reset".to_string());
    let mut cursor = RawCursor::new(true, fields());
    assert_eq!(cursor.poll_next(Event::Resolved), Poll::Pending);
    assert_eq!(cursor.poll_next(chunk(&header()[..5], 9)), Poll::Pending);
    assert_eq!(cursor.poll_next(Event::Failed(error.clone())), Poll::Ready(Err(error)));
    assert!(cursor.is_terminated());
    assert_eq!((cursor.received_bytes(), cursor.decoded_bytes()), (9, 5));
}

#[test]
fn news_of_the_response_twice_changes_nothing() {
    let mut cursor = RawCursor::new(true, fields());
    assert_eq!(cursor.poll_next(Event::Resolved), Poll::Pending);
    assert_eq!(cursor.poll_next(chunk(&header()[..5], 5)), Poll::Pending);
    assert_eq!(cursor.poll_next(Event::Resolved), Poll::Pending);
    assert_eq!(cursor.poll_next(chunk(&header()[5..], 18)), Poll::Pending);
    assert_eq!(cursor.poll_next(Event::Resolved), Poll::Pending);
    assert_eq!((cursor.received_bytes(), cursor.decoded_bytes()), (23, 23));
}

#[test]
fn the_counters_stop_at_their_largest_value() {
    let mut cursor = RawCursor::new(false, Vec::new());
    assert_eq!(cursor.poll_next(chunk(&[1], usize::MAX)), some(&[1]));
    assert_eq!(cursor.poll_next(chunk(&[2], 1)), some(&[2]));
    assert_eq!(cursor.poll_next(chunk(&[3], usize::MAX)), some(&[3]));
    assert_eq!(cursor.received_bytes(), u64::MAX);
    assert_eq!(cursor.decoded_bytes(), 3);
}
