use schemsearch::decode::DecodeError;
use schemsearch::varint::{read_varint_array, write_varint_array};

#[test]
fn varint_round_trip_simple() {
    let values: Vec<i32> = vec![0, 1, 127, 128, 300, 16384, 2097151, 2097152, i32::MAX];
    let bytes = write_varint_array(&values);
    let decoded = read_varint_array(&bytes).unwrap();
    assert_eq!(decoded, values);
}

#[test]
fn varint_round_trip_empty() {
    let values: Vec<i32> = Vec::new();
    let bytes = write_varint_array(&values);
    assert!(bytes.is_empty());
    let decoded = read_varint_array(&bytes).unwrap();
    assert!(decoded.is_empty());
}

#[test]
fn varint_exact_encoding() {
    // 1 is a single byte; 128 splits into a continuation byte 0x80 and
    // the group 1; 300 = 0b100101100 splits into 0xAC, 0x02.
    let bytes = write_varint_array(&vec![1, 128, 300]);
    assert_eq!(bytes, vec![1i8, -128, 1, -84, 2]);
}

#[test]
fn varint_decodes_wrapped_value() {
    // Five groups of all-ones assemble the 32-bit pattern of -1.
    let bytes: Vec<i8> = vec![-1, -1, -1, -1, 0x0F];
    let decoded = read_varint_array(&bytes).unwrap();
    assert_eq!(decoded, vec![-1]);
}

#[test]
fn varint_trailing_fragment_is_dropped() {
    // A pending continuation at the end of the stream drops the
    // unfinished value.
    let bytes: Vec<i8> = vec![5, -128];
    let decoded = read_varint_array(&bytes).unwrap();
    assert_eq!(decoded, vec![5]);
}

#[test]
fn varint_too_long_is_malformed() {
    // A sixth group would exceed the 32 usable bits.
    let bytes: Vec<i8> = vec![-128, -128, -128, -128, -128, 1];
    let r = read_varint_array(&bytes);
    assert_eq!(r, Err(DecodeError::MalformedVarint));
}
