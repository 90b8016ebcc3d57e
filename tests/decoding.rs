use byte_layout::{
    ByteLayoutParsingError, FieldDecl, FieldKind, FieldValue, Primitive, Record, RecordLayout,
};

fn field(name: &str, kind: FieldKind) -> FieldDecl {
    FieldDecl { name: name.to_string(), kind }
}

fn layout(name: &str, fields: Vec<FieldDecl>) -> RecordLayout {
    RecordLayout { record_type: name.to_string(), fields }
}

fn other() -> RecordLayout {
    layout("Other", vec![field("f", FieldKind::Value(Primitive::U8))])
}

fn decode(l: &RecordLayout, bytes: &[u8]) -> (Record, Result<Vec<u8>, ByteLayoutParsingError>) {
    let mut r = l.default_record();
    let out = l.parse_bytes(&mut r, bytes).map(|rest| rest.to_vec());
    (r, out)
}

fn err(record_type: &str, field_name: &str) -> ByteLayoutParsingError {
    ByteLayoutParsingError {
        record_type: record_type.to_string(),
        field_name: field_name.to_string(),
    }
}

fn nested(fs: &[u8]) -> Record {
    Record { fields: fs.iter().map(|f| FieldValue::Scalar(*f as u32)).collect() }
}

fn three_fields() -> RecordLayout {
    layout(
        "Three",
        vec![
            field("a", FieldKind::Value(Primitive::U8)),
            field("b", FieldKind::Value(Primitive::U16Be)),
            field("c", FieldKind::BytesVec(1)),
        ],
    )
}

fn test_struct() -> RecordLayout {
    layout(
        "TestStruct",
        vec![
            field("a", FieldKind::Value(Primitive::U8)),
            field("b", FieldKind::Value(Primitive::U16Be)),
            field("c", FieldKind::BytesVec(1)),
            field("d", FieldKind::Value(Primitive::U8)),
            field("e", FieldKind::CompositeVec(3, other())),
            field("g", FieldKind::Value(Primitive::U32Be)),
            field("h", FieldKind::PrimitiveVec(5, Primitive::U16Be)),
            field("i", FieldKind::BytesVecLit(2)),
            field("j", FieldKind::PrimitiveVecLit(2, Primitive::U16Be)),
            field("k", FieldKind::CompositeVecLit(2, other())),
        ],
    )
}

#[test]
fn three_field_record_decodes_exactly() {
    let (r, out) = decode(&three_fields(), &[0x2F, 0x00, 0x02, 0xBE, 0xEF]);
    assert_eq!(out, Ok(vec![]));
    assert_eq!(
        r.fields,
        vec![
            FieldValue::Scalar(0x2F),
            FieldValue::Scalar(2),
            FieldValue::Bytes(vec![0xBE, 0xEF]),
        ]
    );
}

#[test]
fn count_field_drives_nested_records() {
    let l = layout(
        "Outer",
        vec![
            field("d", FieldKind::Value(Primitive::U8)),
            field("e", FieldKind::CompositeVec(0, other())),
        ],
    );
    let (r, out) = decode(&l, &[0x02, 0xDE, 0xAD]);
    assert_eq!(out, Ok(vec![]));
    assert_eq!(r.fields[0], FieldValue::Scalar(2));
    assert_eq!(r.fields[1], FieldValue::Records(vec![nested(&[0xDE]), nested(&[0xAD])]));
}

#[test]
fn full_layout_with_every_counted_kind() {
    let bytes: Vec<u8> = vec![
        0x2F, 0x00, 0x02, 0xBE, 0xEF, 0x02, 0xDE, 0xAD, 0x00, 0x00, 0x00, 0x02, 0x12, 0x34,
        0x56, 0x78, 0x01, 0x10, 0xDE, 0xAD, 0xBE, 0xEF, 0x43, 0x21,
    ];
    let (r, out) = decode(&test_struct(), &bytes);
    assert_eq!(out, Ok(vec![]));
    assert_eq!(
        r.fields,
        vec![
            FieldValue::Scalar(0x2F),
            FieldValue::Scalar(2),
            FieldValue::Bytes(vec![0xBE, 0xEF]),
            FieldValue::Scalar(2),
            FieldValue::Records(vec![nested(&[0xDE]), nested(&[0xAD])]),
            FieldValue::Scalar(2),
            FieldValue::Scalars(vec![0x1234, 0x5678]),
            FieldValue::Bytes(vec![0x01, 0x10]),
            FieldValue::Scalars(vec![0xDEAD, 0xBEEF]),
            FieldValue::Records(vec![nested(&[0x43]), nested(&[0x21])]),
        ]
    );
}

#[test]
fn zero_count_gives_empty_sequences() {
    let l = layout(
        "Counts",
        vec![
            field("n", FieldKind::Value(Primitive::U8)),
            field("bytes", FieldKind::BytesVec(0)),
            field("words", FieldKind::PrimitiveVec(0, Primitive::U16Be)),
            field("items", FieldKind::CompositeVec(0, other())),
        ],
    );
    let (r, out) = decode(&l, &[0x00]);
    assert_eq!(out, Ok(vec![]));
    assert_eq!(
        r.fields,
        vec![
            FieldValue::Scalar(0),
            FieldValue::Bytes(vec![]),
            FieldValue::Scalars(vec![]),
            FieldValue::Records(vec![]),
        ]
    );
}

#[test]
fn primitive_vector_has_sibling_count_elements() {
    let l = layout(
        "Words",
        vec![
            field("n", FieldKind::Value(Primitive::U16Be)),
            field("w", FieldKind::PrimitiveVec(0, Primitive::U32Be)),
        ],
    );
    let (r, out) = decode(&l, &[0x00, 0x03, 0, 0, 0, 1, 0, 0, 1, 0, 0x12, 0x34, 0x56, 0x78, 0xAA]);
    assert_eq!(out, Ok(vec![0xAA]));
    assert_eq!(r.fields[1], FieldValue::Scalars(vec![1, 0x100, 0x1234_5678]));
}

#[test]
fn null_terminated_stops_at_first_zero() {
    let l = layout(
        "Text",
        vec![
            field("s", FieldKind::BytesVecNullTerm),
            field("t", FieldKind::Value(Primitive::U8)),
        ],
    );
    let (r, out) = decode(&l, &[0x41, 0x42, 0x00, 0x07, 0x00, 0x09]);
    assert_eq!(out, Ok(vec![0x00, 0x09]));
    assert_eq!(r.fields, vec![FieldValue::Bytes(vec![0x41, 0x42]), FieldValue::Scalar(7)]);
}

#[test]
fn null_terminated_empty_run() {
    let l = layout("Text", vec![field("s", FieldKind::BytesVecNullTerm)]);
    let (r, out) = decode(&l, &[0x00, 0x05]);
    assert_eq!(out, Ok(vec![0x05]));
    assert_eq!(r.fields, vec![FieldValue::Bytes(vec![])]);
}

#[test]
fn null_terminated_without_terminator_fails() {
    let l = layout(
        "Text",
        vec![
            field("n", FieldKind::Value(Primitive::U8)),
            field("s", FieldKind::BytesVecNullTerm),
        ],
    );
    let (r, out) = decode(&l, &[0x01, 0x41, 0x42]);
    assert_eq!(out, Err(err("Text", "s")));
    assert_eq!(r.fields[0], FieldValue::Scalar(1));
}

#[test]
fn truncated_input_names_the_short_field() {
    let l = three_fields();
    assert_eq!(decode(&l, &[0x2F, 0x00]).1, Err(err("Three", "b")));
    assert_eq!(decode(&l, &[]).1, Err(err("Three", "a")));
    assert_eq!(decode(&l, &[0x2F, 0x00, 0x02, 0xBE]).1, Err(err("Three", "c")));
}

#[test]
fn truncated_literal_and_vector_fields() {
    let l = test_struct();
    let bytes: Vec<u8> = vec![
        0x2F, 0x00, 0x02, 0xBE, 0xEF, 0x02, 0xDE, 0xAD, 0x00, 0x00, 0x00, 0x02, 0x12, 0x34,
        0x56,
    ];
    assert_eq!(decode(&l, &bytes).1, Err(err("TestStruct", "h")));
    let mut longer = bytes.clone();
    longer.extend_from_slice(&[0x78, 0x01]);
    assert_eq!(decode(&l, &longer).1, Err(err("TestStruct", "i")));
    longer.extend_from_slice(&[0x10, 0xDE, 0xAD, 0xBE]);
    assert_eq!(decode(&l, &longer).1, Err(err("TestStruct", "j")));
}

#[test]
fn nested_failure_is_passed_through() {
    let l = layout(
        "Outer",
        vec![
            field("d", FieldKind::Value(Primitive::U8)),
            field("e", FieldKind::CompositeVec(0, other())),
        ],
    );
    let (r, out) = decode(&l, &[0x03, 0xDE, 0xAD]);
    assert_eq!(out, Err(err("Other", "f")));
    assert_eq!(r.fields, vec![FieldValue::Scalar(3), FieldValue::Records(vec![])]);
}

#[test]
fn single_nested_record() {
    let l = layout(
        "Wrapper",
        vec![
            field("inner", FieldKind::Composite(three_fields())),
            field("tail", FieldKind::Value(Primitive::U8)),
        ],
    );
    let (r, out) = decode(&l, &[0x01, 0x00, 0x01, 0x99, 0x05, 0x06]);
    assert_eq!(out, Ok(vec![0x06]));
    assert_eq!(
        r.fields,
        vec![
            FieldValue::Nested(Record {
                fields: vec![
                    FieldValue::Scalar(1),
                    FieldValue::Scalar(1),
                    FieldValue::Bytes(vec![0x99]),
                ],
            }),
            FieldValue::Scalar(5),
        ]
    );
}

#[test]
fn exact_input_leaves_nothing_and_extra_is_returned() {
    let l = three_fields();
    assert_eq!(decode(&l, &[0x01, 0x00, 0x01, 0x99]).1, Ok(vec![]));
    assert_eq!(decode(&l, &[0x01, 0x00, 0x01, 0x99, 0x33, 0x44]).1, Ok(vec![0x33, 0x44]));
}

#[test]
fn decoding_twice_gives_the_same_result() {
    let bytes = [0x02u8, 0xDE, 0xAD, 0x00, 0x00, 0x00, 0x00];
    let l = layout(
        "Outer",
        vec![
            field("d", FieldKind::Value(Primitive::U8)),
            field("e", FieldKind::CompositeVec(0, other())),
            field("g", FieldKind::Value(Primitive::U32Be)),
        ],
    );
    let first = decode(&l, &bytes);
    let second = decode(&l, &bytes);
    assert_eq!(first, second);
    assert_eq!(first.1, Ok(vec![]));
}

#[test]
fn default_record_matches_layout() {
    let r = test_struct().default_record();
    assert_eq!(r.fields.len(), 10);
    assert_eq!(r.fields[0], FieldValue::Scalar(0));
    assert_eq!(r.fields[2], FieldValue::Bytes(vec![]));
    assert_eq!(r.fields[4], FieldValue::Records(vec![]));
    let w = layout("W", vec![field("x", FieldKind::Composite(three_fields()))]).default_record();
    assert_eq!(
        w.fields[0],
        FieldValue::Nested(Record {
            fields: vec![FieldValue::Scalar(0), FieldValue::Scalar(0), FieldValue::Bytes(vec![])],
        })
    );
}

#[test]
fn well_formed_layouts_are_accepted() {
    assert!(test_struct().is_well_formed());
    assert!(three_fields().is_well_formed());
    assert!(layout("Empty", vec![]).is_well_formed());
}

#[test]
fn forward_or_non_scalar_references_are_rejected() {
    let forward = layout(
        "Forward",
        vec![
            field("c", FieldKind::BytesVec(1)),
            field("b", FieldKind::Value(Primitive::U8)),
        ],
    );
    assert!(!forward.is_well_formed());
    let to_self = layout("Own", vec![field("c", FieldKind::PrimitiveVec(0, Primitive::U8))]);
    assert!(!to_self.is_well_formed());
    let non_scalar = layout(
        "NonScalar",
        vec![
            field("c", FieldKind::BytesVecLit(1)),
            field("d", FieldKind::CompositeVec(0, other())),
        ],
    );
    assert!(!non_scalar.is_well_formed());
    let bad_nested = layout("Outer", vec![field("x", FieldKind::Composite(forward))]);
    assert!(!bad_nested.is_well_formed());
}

#[test]
fn error_names_record_type_and_field() {
    let l = layout(
        "Pair",
        vec![
            field("first", FieldKind::Value(Primitive::U32Be)),
            field("second", FieldKind::BytesVecLit(3)),
        ],
    );
    let (r, out) = decode(&l, &[0, 0, 0, 5, 1, 2]);
    assert_eq!(out, Err(err("Pair", "second")));
    assert_eq!(r.fields, vec![FieldValue::Scalar(5), FieldValue::Bytes(vec![])]);
}

fn full_defaults() -> Vec<FieldValue> {
    test_struct().default_record().fields
}

#[test]
fn empty_input_leaves_record_at_default() {
    let (r, out) = decode(&test_struct(), &[]);
    assert_eq!(out, Err(err("TestStruct", "a")));
    assert_eq!(r.fields, full_defaults());
}

#[test]
fn failure_keeps_earlier_values_and_later_defaults() {
    let (r, out) = decode(&test_struct(), &[0x2F, 0x00]);
    assert_eq!(out, Err(err("TestStruct", "b")));
    assert_eq!(r.fields[0], FieldValue::Scalar(0x2F));
    assert_eq!(r.fields[1..], full_defaults()[1..]);

    let (r, out) = decode(&test_struct(), &[0x2F, 0x00, 0x02, 0xBE, 0xEF]);
    assert_eq!(out, Err(err("TestStruct", "d")));
    assert_eq!(r.fields[2], FieldValue::Bytes(vec![0xBE, 0xEF]));
    assert_eq!(r.fields[3], FieldValue::Scalar(0));
    assert_eq!(r.fields[4], FieldValue::Records(vec![]));

    let bytes = [0x2F, 0x00, 0x02, 0xBE, 0xEF, 0x02, 0xDE, 0xAD, 0x00, 0x00, 0x00, 0x02, 0x12];
    let (r, out) = decode(&test_struct(), &bytes);
    assert_eq!(out, Err(err("TestStruct", "h")));
    assert_eq!(r.fields[4], FieldValue::Records(vec![nested(&[0xDE]), nested(&[0xAD])]));
    assert_eq!(r.fields[5], FieldValue::Scalar(2));
    assert_eq!(r.fields[6..], full_defaults()[6..]);
}

#[test]
fn nested_failure_keeps_count_and_later_defaults() {
    let (r, out) = decode(&test_struct(), &[0x2F, 0x00, 0x02, 0xBE, 0xEF, 0x02, 0xDE]);
    assert_eq!(out, Err(err("Other", "f")));
    assert_eq!(r.fields[3], FieldValue::Scalar(2));
    assert_eq!(r.fields[4], FieldValue::Records(vec![]));
    assert_eq!(r.fields[5], FieldValue::Scalar(0));
}

#[test]
fn failed_null_terminated_leaves_later_fields_alone() {
    let l = layout(
        "Text",
        vec![
            field("n", FieldKind::Value(Primitive::U8)),
            field("s", FieldKind::BytesVecNullTerm),
            field("t", FieldKind::Value(Primitive::U8)),
        ],
    );
    let mut r = Record {
        fields: vec![FieldValue::Scalar(9), FieldValue::Bytes(vec![5]), FieldValue::Scalar(6)],
    };
    let out = l.parse_bytes(&mut r, &[0x01, 0x41, 0x42]);
    assert_eq!(out, Err(err("Text", "s")));
    assert_eq!(
        r.fields,
        vec![FieldValue::Scalar(1), FieldValue::Bytes(vec![5]), FieldValue::Scalar(6)]
    );
}

#[test]
fn little_endian_field_in_a_layout() {
    let l = layout(
        "Le",
        vec![
            field("n", FieldKind::Value(Primitive::U16Le)),
            field("w", FieldKind::PrimitiveVec(0, Primitive::U32Le)),
            field("x", FieldKind::Value(Primitive::U24Be)),
        ],
    );
    let (r, out) = decode(&l, &[0x01, 0x00, 0x78, 0x56, 0x34, 0x12, 0x01, 0x02, 0x03]);
    assert_eq!(out, Ok(vec![]));
    assert_eq!(
        r.fields,
        vec![
            FieldValue::Scalar(1),
            FieldValue::Scalars(vec![0x1234_5678]),
            FieldValue::Scalar(0x01_0203),
        ]
    );
}
