use clickhouse::leb128::{read_leb128, Leb128};
use clickhouse_types::error::TypesError;

fn outside(bytes: &[u8]) -> Leb128 {
    let mut rest = bytes;
    match clickhouse_types::read_leb128(&mut rest) {
        Ok(value) => Leb128::Value { value, len: bytes.len() - rest.len() },
        Err(TypesError::NotEnoughData(_)) => Leb128::Incomplete,
        Err(_) => Leb128::Overflow,
    }
}

fn encoded(value: u64) -> Vec<u8> {
    let mut bytes = Vec::new();
    clickhouse_types::put_leb128(&mut bytes, value);
    bytes
}

#[test]
fn reads_single_byte_values() {
    assert_eq!(read_leb128(&[0], 0), Leb128::Value { value: 0, len: 1 });
    assert_eq!(read_leb128(&[1], 0), Leb128::Value { value: 1, len: 1 });
    assert_eq!(read_leb128(&[127], 0), Leb128::Value { value: 127, len: 1 });
}

#[test]
fn reads_multi_byte_values() {
    assert_eq!(read_leb128(&[128, 1], 0), Leb128::Value { value: 128, len: 2 });
    assert_eq!(read_leb128(&[255, 1], 0), Leb128::Value { value: 255, len: 2 });
    assert_eq!(read_leb128(&[0x85, 0x91, 0x26], 0), Leb128::Value { value: 624773, len: 3 });
    assert_eq!(read_leb128(&[0xE5, 0x8E, 0x26], 0), Leb128::Value { value: 624485, len: 3 });
}

#[test]
fn reads_the_largest_values() {
    let mut max = vec![0xFFu8; 9];
    max.push(0x01);
    assert_eq!(read_leb128(&max, 0), Leb128::Value { value: u64::MAX, len: 10 });
    max[0] = 0xFE;
    assert_eq!(read_leb128(&max, 0), Leb128::Value { value: u64::MAX - 1, len: 10 });
}

#[test]
fn reads_from_a_position_and_ignores_what_follows() {
    let bytes = [9, 9, 0x80, 0x01, 7, 7];
    assert_eq!(read_leb128(&bytes, 2), Leb128::Value { value: 128, len: 2 });
    assert_eq!(read_leb128(&bytes, 4), Leb128::Value { value: 7, len: 1 });
}

#[test]
fn an_integer_cut_short_is_incomplete() {
    assert_eq!(read_leb128(&[], 0), Leb128::Incomplete);
    assert_eq!(read_leb128(&[0x80], 0), Leb128::Incomplete);
    assert_eq!(read_leb128(&[0xFF; 9], 0), Leb128::Incomplete);
    assert_eq!(read_leb128(&[1, 2, 3], 3), Leb128::Incomplete);
}

#[test]
fn an_integer_beyond_64_bits_overflows() {
    let mut overflow = vec![0xFFu8; 9];
    overflow.push(0x02);
    assert_eq!(read_leb128(&overflow, 0), Leb128::Overflow);
    let mut continued = vec![0xFFu8; 9];
    continued.push(0x80);
    assert_eq!(read_leb128(&continued, 0), Leb128::Overflow);
    let mut too_long = vec![0x80u8; 10];
    too_long.push(0x00);
    assert_eq!(read_leb128(&too_long, 0), Leb128::Overflow);
}

#[test]
fn agrees_with_the_encoder_of_clickhouse_types() {
    let mut values: Vec<u64> = (0..70_000).collect();
    for shift in 0..64 {
        let power = 1u64 << shift;
        values.extend([power - 1, power, power + 1, power | 0x55, u64::MAX - power]);
    }
    for value in values {
        let bytes = encoded(value);
        assert_eq!(read_leb128(&bytes, 0), Leb128::Value { value, len: bytes.len() }, "{value}");
    }
}

#[test]
fn agrees_with_the_decoder_of_clickhouse_types() {
    for a in 0..=255u8 {
        assert_eq!(read_leb128(&[a], 0), outside(&[a]));
        for b in 0..=255u8 {
            assert_eq!(read_leb128(&[a, b], 0), outside(&[a, b]));
        }
    }
    for last in 0..=255u8 {
        let mut bytes = vec![0x81u8; 9];
        bytes.push(last);
        bytes.push(0);
        assert_eq!(read_leb128(&bytes, 0), outside(&bytes), "{last}");
    }
}

#[test]
fn a_prefix_never_reads_differently() {
    let bytes = encoded(u64::MAX / 3);
    let whole = read_leb128(&bytes, 0);
    for n in 0..bytes.len() {
        assert_eq!(read_leb128(&bytes[..n], 0), Leb128::Incomplete);
    }
    let mut longer = bytes.clone();
    longer.extend([0xFF, 0xFF]);
    assert_eq!(read_leb128(&longer, 0), whole);
}
