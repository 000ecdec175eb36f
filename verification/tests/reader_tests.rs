use gds_layout::reader::GdsReader;
use gds_layout::types::{GdsError, GdsRecord};

fn make_record(record_type: u8, data_type: u8, data: &[u8]) -> Vec<u8> {
    let length = (4 + data.len()) as u16;
    let mut bytes = length.to_be_bytes().to_vec();
    bytes.push(record_type);
    bytes.push(data_type);
    bytes.extend_from_slice(data);
    bytes
}

#[test]
fn reads_header_record() {
    let bytes = make_record(0x00, 0x02, &[0x00, 0x03]);
    let mut reader = GdsReader::new(bytes);
    let record = reader.read_record().unwrap();
    if let GdsRecord::Header(data) = record {
        assert_eq!(data, vec![0x00, 0x03]);
    } else {
        panic!("expected Header");
    }
}

#[test]
fn reads_endlib_as_no_data_variant() {
    let bytes = make_record(0x04, 0x00, &[]);
    let mut reader = GdsReader::new(bytes);
    assert!(matches!(reader.read_record().unwrap(), GdsRecord::EndLib));
}

#[test]
fn reads_strname_ascii_bytes() {
    let bytes = make_record(0x06, 0x06, b"TOP\0");
    let mut reader = GdsReader::new(bytes);
    if let GdsRecord::StrName(data) = reader.read_record().unwrap() {
        assert_eq!(&data[..3], b"TOP");
    } else {
        panic!("expected StrName");
    }
}

#[test]
fn reads_multiple_records_in_sequence() {
    let mut bytes = make_record(0x00, 0x02, &[0x00, 0x03]);
    bytes.extend(make_record(0x04, 0x00, &[]));
    let mut reader = GdsReader::new(bytes);
    assert!(matches!(reader.read_record().unwrap(), GdsRecord::Header(_)));
    assert!(matches!(reader.read_record().unwrap(), GdsRecord::EndLib));
}

#[test]
fn returns_unexpected_eof_on_empty_stream() {
    let mut reader = GdsReader::new(vec![]);
    assert!(matches!(reader.read_record(), Err(GdsError::UnexpectedEof)));
}

#[test]
fn returns_truncated_record_on_partial_data() {
    // length=8 but stream ends after the 4-byte header (no data bytes)
    let bytes = vec![0x00, 0x08, 0x00, 0x02];
    let mut reader = GdsReader::new(bytes);
    assert!(matches!(reader.read_record(), Err(GdsError::TruncatedRecord)));
}

#[test]
fn returns_record_too_short_for_length_under_4() {
    let bytes = vec![0x00, 0x02, 0x00, 0x00];
    let mut reader = GdsReader::new(bytes);
    assert!(matches!(reader.read_record(), Err(GdsError::RecordTooShort { length: 2 })));
}

#[test]
fn unknown_record_type_wraps_without_panic() {
    let bytes = make_record(0xFF, 0x00, &[]);
    let mut reader = GdsReader::new(bytes);
    assert!(matches!(reader.read_record().unwrap(), GdsRecord::Unknown { record_type: 0xFF, .. }));
}

#[test]
fn single_byte_left_is_end_of_stream() {
    let mut reader = GdsReader::new(vec![0x00]);
    assert!(matches!(reader.read_record(), Err(GdsError::UnexpectedEof)));
}

#[test]
fn header_only_record_of_length_four_has_empty_payload() {
    let bytes = make_record(0x0D, 0x02, &[]);
    let mut reader = GdsReader::new(bytes);
    assert_eq!(reader.read_record().unwrap(), GdsRecord::Layer(vec![]));
    assert!(matches!(reader.read_record(), Err(GdsError::UnexpectedEof)));
}

#[test]
fn truncated_record_consumes_the_rest_of_the_stream() {
    let mut bytes = make_record(0x00, 0x02, &[0x00, 0x03]);
    bytes.extend_from_slice(&[0x00, 0x09, 0x10]);
    let mut reader = GdsReader::new(bytes);
    assert!(reader.read_record().is_ok());
    assert!(matches!(reader.read_record(), Err(GdsError::TruncatedRecord)));
    assert!(matches!(reader.read_record(), Err(GdsError::UnexpectedEof)));
}

#[test]
fn too_short_length_consumes_the_length_bytes() {
    let bytes = vec![0x00, 0x02, 0x00, 0x00];
    let mut reader = GdsReader::new(bytes);
    assert!(matches!(reader.read_record(), Err(GdsError::RecordTooShort { length: 2 })));
    assert!(matches!(reader.read_record(), Err(GdsError::RecordTooShort { length: 0 })));
    assert!(matches!(reader.read_record(), Err(GdsError::UnexpectedEof)));
}

#[test]
fn lone_byte_is_consumed_at_end_of_stream() {
    let mut reader = GdsReader::new(vec![0x07]);
    assert!(matches!(reader.read_record(), Err(GdsError::UnexpectedEof)));
    assert!(matches!(reader.read_record(), Err(GdsError::UnexpectedEof)));
}

#[test]
fn record_is_read_back_between_other_records() {
    let mut bytes = make_record(0x00, 0x02, &[0x02, 0x58]);
    let payload: Vec<u8> = (0u8..200).collect();
    bytes.extend(make_record(0x10, 0x03, &payload));
    bytes.extend(make_record(0x04, 0x00, &[]));
    let mut reader = GdsReader::new(bytes);
    assert!(matches!(reader.read_record().unwrap(), GdsRecord::Header(_)));
    match reader.read_record().unwrap() {
        GdsRecord::XY(data) => assert_eq!(data, payload),
        other => panic!("expected XY, got {:?}", other),
    }
    assert!(matches!(reader.read_record().unwrap(), GdsRecord::EndLib));
    assert!(matches!(reader.read_record(), Err(GdsError::UnexpectedEof)));
}
