use byte_layout::primitive::{parse_primitive, take_bytes};
use byte_layout::{Primitive, ToVec};

#[test]
fn big_endian_values() {
    let bytes = [0x12u8, 0x34, 0x56, 0x78, 0x9A];
    assert_eq!(parse_primitive(Primitive::U8, &bytes), Some((&bytes[1..], 0x12)));
    assert_eq!(parse_primitive(Primitive::U16Be, &bytes), Some((&bytes[2..], 0x1234)));
    assert_eq!(parse_primitive(Primitive::U32Be, &bytes), Some((&bytes[4..], 0x1234_5678)));
}

#[test]
fn short_input_gives_no_value() {
    assert_eq!(parse_primitive(Primitive::U8, &[]), None);
    assert_eq!(parse_primitive(Primitive::U16Be, &[0x12]), None);
    assert_eq!(parse_primitive(Primitive::U32Be, &[0x12, 0x34, 0x56]), None);
}

#[test]
fn take_splits_after_n_bytes() {
    let bytes = [1u8, 2, 3, 4];
    assert_eq!(take_bytes(&bytes, 3), Some((&bytes[3..], vec![1, 2, 3])));
    assert_eq!(take_bytes(&bytes, 0), Some((&bytes[..], vec![])));
    assert_eq!(take_bytes(&bytes, 5), None);
}

#[test]
fn to_vec_copies_a_slice() {
    let bytes: &[u8] = &[9, 8, 7];
    assert_eq!(ToVec::to_vec(bytes), vec![9, 8, 7]);
}

#[test]
fn other_widths_and_little_endian() {
    let bytes = [0x12u8, 0x34, 0x56, 0x78, 0x9A];
    assert_eq!(parse_primitive(Primitive::U24Be, &bytes), Some((&bytes[3..], 0x12_3456)));
    assert_eq!(parse_primitive(Primitive::U16Le, &bytes), Some((&bytes[2..], 0x3412)));
    assert_eq!(parse_primitive(Primitive::U24Le, &bytes), Some((&bytes[3..], 0x56_3412)));
    assert_eq!(parse_primitive(Primitive::U32Le, &bytes), Some((&bytes[4..], 0x7856_3412)));
    assert_eq!(parse_primitive(Primitive::U24Be, &[1, 2]), None);
    assert_eq!(parse_primitive(Primitive::U16Le, &[1]), None);
    assert_eq!(parse_primitive(Primitive::U24Le, &[1, 2]), None);
    assert_eq!(parse_primitive(Primitive::U32Le, &[1, 2, 3]), None);
}
