use sqlite_format::cell::{CellContent, Payload};
use sqlite_format::error::DecodeError;
use sqlite_format::record::{
    serial_type_layout, DataType, Field, FieldData, ParseError, Record,
};

fn fields_of(payload: &[u8]) -> Vec<Field> {
    let mut record = Record::new();
    record.load_fields(payload).unwrap();
    record.fields.unwrap()
}

fn load_error(payload: &[u8]) -> DecodeError {
    let mut record = Record::new();
    let e = record.load_fields(payload).unwrap_err();
    assert!(record.fields.is_none());
    e
}

fn field(offset: usize, size: usize, data_type: DataType) -> Field {
    Field { size, offset, data_type }
}

#[test]
fn new_record_has_no_fields() {
    assert!(Record::new().fields.is_none());
    assert!(Record::default().fields.is_none());
}

#[test]
fn default_field() {
    assert_eq!(Field::default(), field(0, 0, DataType::Null));
}

#[test]
fn serial_types_zero_to_nine() {
    assert_eq!(serial_type_layout(0), Some((DataType::Null, 0)));
    assert_eq!(serial_type_layout(1), Some((DataType::Integer, 1)));
    assert_eq!(serial_type_layout(2), Some((DataType::Integer, 2)));
    assert_eq!(serial_type_layout(3), Some((DataType::Integer, 3)));
    assert_eq!(serial_type_layout(4), Some((DataType::Integer, 4)));
    assert_eq!(serial_type_layout(5), Some((DataType::Integer, 6)));
    assert_eq!(serial_type_layout(6), Some((DataType::Integer, 8)));
    assert_eq!(serial_type_layout(7), Some((DataType::Real, 8)));
    assert_eq!(serial_type_layout(8), Some((DataType::BooleanFalse, 0)));
    assert_eq!(serial_type_layout(9), Some((DataType::BooleanTrue, 0)));
}

#[test]
fn serial_types_ten_and_eleven_are_reserved() {
    assert_eq!(serial_type_layout(10), None);
    assert_eq!(serial_type_layout(11), None);
}

#[test]
fn serial_types_from_twelve_are_blob_and_text() {
    assert_eq!(serial_type_layout(12), Some((DataType::Blob, 0)));
    assert_eq!(serial_type_layout(13), Some((DataType::Text, 0)));
    assert_eq!(serial_type_layout(14), Some((DataType::Blob, 1)));
    assert_eq!(serial_type_layout(15), Some((DataType::Text, 1)));
    assert_eq!(serial_type_layout(112), Some((DataType::Blob, 50)));
    assert_eq!(serial_type_layout(113), Some((DataType::Text, 50)));
    assert_eq!(serial_type_layout(u64::MAX), Some((DataType::Text, (u64::MAX - 13) / 2)));
    assert_eq!(serial_type_layout(u64::MAX - 1), Some((DataType::Blob, (u64::MAX - 13) / 2)));
}

#[test]
fn header_with_one_integer_field() {
    // header of two bytes: its own size and one serial type; one data byte
    let fields = fields_of(&[0x02, 0x01, 0x2a]);
    assert_eq!(fields, vec![field(2, 1, DataType::Integer)]);
}

#[test]
fn header_of_four_bytes_puts_the_first_field_at_offset_four() {
    let fields = fields_of(&[0x04, 0x01, 0x00, 0x00, 0x2a]);
    assert_eq!(fields[0], field(4, 1, DataType::Integer));
    assert_eq!(
        fields,
        vec![
            field(4, 1, DataType::Integer),
            field(5, 0, DataType::Null),
            field(5, 0, DataType::Null),
        ]
    );
}

#[test]
fn header_size_counts_its_own_bytes() {
    // header of four bytes: size, then serial types 1, 1 and 1
    let fields = fields_of(&[0x04, 0x01, 0x01, 0x01, 7, 8, 9]);
    assert_eq!(
        fields,
        vec![
            field(4, 1, DataType::Integer),
            field(5, 1, DataType::Integer),
            field(6, 1, DataType::Integer),
        ]
    );
}

#[test]
fn header_longer_than_the_payload_is_truncated() {
    // the header claims four bytes, the payload has three
    assert_eq!(load_error(&[0x04, 0x01, 0x2a]), DecodeError::Truncated);
    assert_eq!(load_error(&[0x02]), DecodeError::Truncated);
    assert_eq!(load_error(&[0x7f, 0x01]), DecodeError::Truncated);
}

#[test]
fn fields_follow_one_another() {
    // serial types: integer of 1, text of 1 (15), null, real, blob of 2 (16)
    let payload = [0x06, 0x01, 0x0f, 0x00, 0x07, 0x10, 0x2a, b'A', 0, 0, 0, 0, 0, 0, 0, 0, 1, 2];
    assert_eq!(
        fields_of(&payload),
        vec![
            field(6, 1, DataType::Integer),
            field(7, 1, DataType::Text),
            field(8, 0, DataType::Null),
            field(8, 8, DataType::Real),
            field(16, 2, DataType::Blob),
        ]
    );
}

#[test]
fn serial_type_of_two_bytes() {
    // serial type 301 = text of (301 - 13) / 2 = 144 bytes
    let fields = fields_of(&[0x04, 0x82, 0x2d, 0x08]);
    assert_eq!(fields, vec![field(4, 144, DataType::Text), field(148, 0, DataType::BooleanFalse)]);
    // serial type 300 = blob of (300 - 12) / 2 = 144 bytes
    let fields = fields_of(&[0x03, 0x82, 0x2c]);
    assert_eq!(fields, vec![field(3, 144, DataType::Blob)]);
}

#[test]
fn fields_may_lie_beyond_the_payload() {
    // the payload holds the header only; the rest lies on overflow pages
    let fields = fields_of(&[0x03, 0x06, 0x04]);
    assert_eq!(fields, vec![field(3, 8, DataType::Integer), field(11, 4, DataType::Integer)]);
}

#[test]
fn header_without_serial_types() {
    assert_eq!(fields_of(&[0x01]), vec![]);
    assert_eq!(fields_of(&[0x01, 0xff, 0xff]), vec![]);
    // a header size of zero ends before its own varint
    assert_eq!(fields_of(&[0x00, 0x01]), vec![]);
}

#[test]
fn empty_payload_is_an_encoding_error() {
    assert_eq!(load_error(&[]), DecodeError::Encoding);
}

#[test]
fn header_size_that_does_not_end_is_an_encoding_error() {
    assert_eq!(load_error(&[0x80]), DecodeError::Encoding);
    assert_eq!(load_error(&[0xff, 0xff, 0xff]), DecodeError::Encoding);
}

#[test]
fn serial_type_that_runs_past_the_header_is_an_encoding_error() {
    // header of two bytes; the serial type at index 1 continues at index 2
    assert_eq!(load_error(&[0x02, 0x81, 0x00]), DecodeError::Encoding);
    assert_eq!(load_error(&[0x03, 0x01, 0x80, 0x00]), DecodeError::Encoding);
}

#[test]
fn reserved_serial_types_are_invalid_format() {
    assert_eq!(load_error(&[0x02, 0x0a]), DecodeError::InvalidFormat);
    assert_eq!(load_error(&[0x02, 0x0b]), DecodeError::InvalidFormat);
    assert_eq!(load_error(&[0x03, 0x01, 0x0a, 0x00]), DecodeError::InvalidFormat);
}

#[test]
fn first_error_in_the_header_wins() {
    // reserved serial type before a serial type that runs past the header
    assert_eq!(load_error(&[0x03, 0x0b, 0x80]), DecodeError::InvalidFormat);
    assert_eq!(load_error(&[0x04, 0x01, 0x80, 0x0a]), DecodeError::InvalidFormat);
    assert_eq!(load_error(&[0x03, 0x80, 0x0a]), DecodeError::InvalidFormat);
}

#[test]
fn field_that_ends_beyond_every_offset_is_out_of_range() {
    // two blobs of (u64::MAX - 13) / 2 bytes each
    let mut payload = vec![19u8];
    payload.extend_from_slice(&[0xff; 9]);
    payload.extend_from_slice(&[0xff; 9]);
    assert_eq!(load_error(&payload), DecodeError::OutOfRange);
}

#[test]
fn failed_load_keeps_the_fields_of_before() {
    let mut record = Record::new();
    record.load_fields(&[0x02, 0x01, 0x2a]).unwrap();
    assert_eq!(record.load_fields(&[0x02, 0x0a]).unwrap_err(), DecodeError::InvalidFormat);
    assert_eq!(record.fields, Some(vec![field(2, 1, DataType::Integer)]));
    record.load_fields(&[0x02, 0x09]).unwrap();
    assert_eq!(record.fields, Some(vec![field(2, 0, DataType::BooleanTrue)]));
}

#[test]
fn integer_of_48_bits_is_sign_extended() {
    let value = FieldData::parse(DataType::Integer, &[0x80, 0x00, 0x00, 0x00, 0x00, 0x01]).unwrap();
    match value {
        FieldData::Integer(i) => {
            assert!(i < 0);
            assert_eq!(i, -140_737_488_355_327);
            assert_eq!(i, i64::from_be_bytes([0xff, 0xff, 0x80, 0, 0, 0, 0, 1]));
        }
        other => panic!("unexpected value {:?}", other),
    }
}

#[test]
fn integer_of_48_bits_read_by_serial_type_five() {
    let payload = [0x02, 0x05, 0x80, 0x00, 0x00, 0x00, 0x00, 0x01];
    let fields = fields_of(&payload);
    assert_eq!(fields, vec![field(2, 6, DataType::Integer)]);
    match fields[0].materialize(&payload).unwrap() {
        FieldData::Integer(i) => assert_eq!(i, -(1i64 << 47) + 1),
        other => panic!("unexpected value {:?}", other),
    }
}

fn integer(data: &[u8]) -> i64 {
    match FieldData::parse(DataType::Integer, data).unwrap() {
        FieldData::Integer(i) => i,
        other => panic!("unexpected value {:?}", other),
    }
}

#[test]
fn integers_of_each_width() {
    assert_eq!(integer(&[0x00]), 0);
    assert_eq!(integer(&[0x7f]), 127);
    assert_eq!(integer(&[0xff]), -1);
    assert_eq!(integer(&[0x01, 0x00]), 256);
    assert_eq!(integer(&[0xff, 0x00]), -256);
    assert_eq!(integer(&[0x7f, 0xff, 0xff]), 8_388_607);
    assert_eq!(integer(&[0x80, 0x00, 0x00]), -8_388_608);
    assert_eq!(integer(&[0xff, 0xff, 0xfe]), -2);
    assert_eq!(integer(&[0x7f, 0xff, 0xff, 0xff]), i32::MAX as i64);
    assert_eq!(integer(&[0x80, 0x00, 0x00, 0x00]), i32::MIN as i64);
    assert_eq!(integer(&[0x7f, 0xff, 0xff, 0xff, 0xff, 0xff]), (1i64 << 47) - 1);
    assert_eq!(integer(&[0x80, 0x00, 0x00, 0x00, 0x00, 0x00]), -(1i64 << 47));
    assert_eq!(integer(&[0x00, 0x00, 0x00, 0x00, 0x00, 0x01]), 1);
    assert_eq!(integer(&[0x7f, 0xff, 0xff, 0xff, 0xff, 0xff, 0xff, 0xff]), i64::MAX);
    assert_eq!(integer(&[0x80, 0, 0, 0, 0, 0, 0, 0]), i64::MIN);
    assert_eq!(integer(&[0xff; 8]), -1);
}

#[test]
fn integers_of_other_widths_fail() {
    for len in [0usize, 5, 7, 9, 16] {
        let e = FieldData::parse(DataType::Integer, &vec![0u8; len]).unwrap_err();
        assert_eq!(e, ParseError { data_type: DataType::Integer });
        assert_eq!(e.details(), "Failed to parse field as `INTEGER`");
    }
}

#[test]
fn null_and_booleans_take_no_bytes() {
    assert!(matches!(FieldData::parse(DataType::Null, &[]).unwrap(), FieldData::Null(())));
    assert!(matches!(
        FieldData::parse(DataType::BooleanFalse, &[]).unwrap(),
        FieldData::BooleanFalse(0)
    ));
    assert!(matches!(
        FieldData::parse(DataType::BooleanTrue, &[]).unwrap(),
        FieldData::BooleanTrue(1)
    ));
}

#[test]
fn null_and_booleans_with_bytes_fail() {
    let e = FieldData::parse(DataType::Null, &[0]).unwrap_err();
    assert_eq!(e.data_type, DataType::Null);
    assert_eq!(e.details(), "Failed to parse field as `NULL`");
    let e = FieldData::parse(DataType::BooleanFalse, &[0]).unwrap_err();
    assert_eq!(e.data_type, DataType::BooleanFalse);
    assert_eq!(e.details(), "Failed to parse field as `FALSE`");
    let e = FieldData::parse(DataType::BooleanTrue, &[1]).unwrap_err();
    assert_eq!(e.data_type, DataType::BooleanTrue);
    assert_eq!(e.details(), "Failed to parse field as `True`");
}

#[test]
fn real_is_the_bits_of_a_double() {
    let bytes = 1.5f64.to_be_bytes();
    match FieldData::parse(DataType::Real, &bytes).unwrap() {
        FieldData::Real(bits) => {
            assert_eq!(bits, 0x3ff8_0000_0000_0000);
            assert_eq!(f64::from_bits(bits), 1.5);
        }
        other => panic!("unexpected value {:?}", other),
    }
    let bytes = (-2.25e10f64).to_be_bytes();
    match FieldData::parse(DataType::Real, &bytes).unwrap() {
        FieldData::Real(bits) => assert_eq!(f64::from_bits(bits), -2.25e10),
        other => panic!("unexpected value {:?}", other),
    }
}

#[test]
fn real_of_another_width_fails() {
    for len in [0usize, 4, 7, 9] {
        let e = FieldData::parse(DataType::Real, &vec![0u8; len]).unwrap_err();
        assert_eq!(e.data_type, DataType::Real);
        assert_eq!(e.details(), "Failed to parse field as `REAL`");
    }
}

#[test]
fn text_is_utf8() {
    match FieldData::parse(DataType::Text, b"hello").unwrap() {
        FieldData::Text(s) => assert_eq!(s, "hello"),
        other => panic!("unexpected value {:?}", other),
    }
    match FieldData::parse(DataType::Text, "gr\u{fc}\u{df}e \u{4e16}\u{754c}".as_bytes()).unwrap() {
        FieldData::Text(s) => assert_eq!(s, "gr\u{fc}\u{df}e \u{4e16}\u{754c}"),
        other => panic!("unexpected value {:?}", other),
    }
    match FieldData::parse(DataType::Text, &[]).unwrap() {
        FieldData::Text(s) => assert_eq!(s, ""),
        other => panic!("unexpected value {:?}", other),
    }
}

#[test]
fn text_that_is_not_utf8_fails() {
    for bad in [&[0xffu8][..], &[0xc3][..], &[0x61, 0x80][..], &[0xed, 0xa0, 0x80][..]] {
        let e = FieldData::parse(DataType::Text, bad).unwrap_err();
        assert_eq!(e.data_type, DataType::Text);
        assert_eq!(e.details(), "Failed to parse field as `TEXT`");
    }
}

#[test]
fn blob_is_any_bytes() {
    match FieldData::parse(DataType::Blob, &[0xff, 0x00, 0x80]).unwrap() {
        FieldData::Blob(b) => assert_eq!(b, vec![0xff, 0x00, 0x80]),
        other => panic!("unexpected value {:?}", other),
    }
    match FieldData::parse(DataType::Blob, &[]).unwrap() {
        FieldData::Blob(b) => assert!(b.is_empty()),
        other => panic!("unexpected value {:?}", other),
    }
    assert_eq!(ParseError::new(DataType::Blob).details(), "Failed to parse field as `BLOB`");
}

#[test]
fn materialize_slices_the_payload() {
    let payload = [0x04, 0x02, 0x0f, 0x10, 0x01, 0x00, b'Z', 0xde, 0xad];
    let fields = fields_of(&payload);
    assert_eq!(
        fields,
        vec![
            field(4, 2, DataType::Integer),
            field(6, 1, DataType::Text),
            field(7, 2, DataType::Blob),
        ]
    );
    assert!(matches!(fields[0].materialize(&payload).unwrap(), FieldData::Integer(256)));
    match fields[1].materialize(&payload).unwrap() {
        FieldData::Text(s) => assert_eq!(s, "Z"),
        other => panic!("unexpected value {:?}", other),
    }
    match fields[2].materialize(&payload).unwrap() {
        FieldData::Blob(b) => assert_eq!(b, vec![0xde, 0xad]),
        other => panic!("unexpected value {:?}", other),
    }
}

#[test]
fn materialize_field_beyond_the_payload_is_out_of_range() {
    let payload = [0x02, 0x04, 0x00, 0x00];
    let fields = fields_of(&payload);
    assert_eq!(fields, vec![field(2, 4, DataType::Integer)]);
    assert_eq!(fields[0].materialize(&payload).unwrap_err(), DecodeError::OutOfRange);
    assert_eq!(
        field(5, 0, DataType::Null).materialize(&payload).unwrap_err(),
        DecodeError::OutOfRange
    );
    assert_eq!(
        field(usize::MAX, usize::MAX, DataType::Blob).materialize(&payload).unwrap_err(),
        DecodeError::OutOfRange
    );
    assert_eq!(
        field(1, usize::MAX, DataType::Blob).materialize(&payload).unwrap_err(),
        DecodeError::OutOfRange
    );
}

#[test]
fn materialize_at_the_end_of_the_payload() {
    let payload = [0x02, 0x00];
    assert!(matches!(
        field(2, 0, DataType::Null).materialize(&payload).unwrap(),
        FieldData::Null(())
    ));
    assert!(matches!(
        field(1, 1, DataType::Integer).materialize(&payload).unwrap(),
        FieldData::Integer(0)
    ));
}

#[test]
fn materialize_unreadable_bytes_is_an_encoding_error() {
    let payload = [0x03, 0x0f, 0x01, 0xff, 0x05];
    assert_eq!(
        field(3, 1, DataType::Text).materialize(&payload).unwrap_err(),
        DecodeError::Encoding
    );
    assert_eq!(
        field(3, 1, DataType::Null).materialize(&payload).unwrap_err(),
        DecodeError::Encoding
    );
    assert_eq!(
        field(0, 5, DataType::Integer).materialize(&payload).unwrap_err(),
        DecodeError::Encoding
    );
    assert_eq!(
        field(0, 1, DataType::BooleanTrue).materialize(&payload).unwrap_err(),
        DecodeError::Encoding
    );
}

#[test]
fn read_data_takes_the_payload_of_the_cell() {
    let payload = vec![0x03, 0x01, 0x0f, 0x2a, b'q'];
    let fields = fields_of(&payload);
    let content = CellContent::LeafTable {
        row_id: 1,
        payload: Payload { size: 5, payload: payload.clone(), overflow: None },
    };
    assert!(matches!(fields[0].read_data(&content).unwrap(), FieldData::Integer(42)));
    match fields[1].read_data(&content).unwrap() {
        FieldData::Text(s) => assert_eq!(s, "q"),
        other => panic!("unexpected value {:?}", other),
    }
    let index = CellContent::LeafIndex { payload: Payload { size: 5, payload, overflow: None } };
    assert!(matches!(fields[0].read_data(&index).unwrap(), FieldData::Integer(42)));
}

#[test]
fn read_data_from_a_cell_without_payload_is_out_of_range() {
    let content = CellContent::InteriorTable { left_child_ptr: 2, integer_key: 3 };
    assert_eq!(
        field(0, 0, DataType::Null).read_data(&content).unwrap_err(),
        DecodeError::OutOfRange
    );
}

#[test]
fn read_data_beyond_the_inline_payload_is_out_of_range() {
    let content = CellContent::InteriorIndex {
        left_child_ptr: 2,
        payload: Payload { size: 100, payload: vec![0x02, 0x10, 0xaa], overflow: Some(5) },
    };
    assert_eq!(
        field(2, 2, DataType::Blob).read_data(&content).unwrap_err(),
        DecodeError::OutOfRange
    );
    match field(2, 1, DataType::Blob).read_data(&content).unwrap() {
        FieldData::Blob(b) => assert_eq!(b, vec![0xaa]),
        other => panic!("unexpected value {:?}", other),
    }
}
