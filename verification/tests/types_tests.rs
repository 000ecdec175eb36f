use gds_layout::types::{
    GdsError, GdsRecord, RT_BOUNDARY, RT_ENDEL, RT_HEADER, RT_SNAME, RT_SREF, RT_STRANS, RT_XY,
};

#[test]
fn gds_record_is_debug_and_clone() {
    let r = GdsRecord::Header(vec![0x00, 0x06]);
    let cloned = r.clone();
    assert_eq!(r, cloned);
    let _ = format!("{:?}", cloned);
}

#[test]
fn endel_has_no_data() {
    let r = GdsRecord::EndEl;
    assert!(matches!(r, GdsRecord::EndEl));
}

#[test]
fn unknown_record_carries_type_byte_and_data() {
    let r = GdsRecord::Unknown { record_type: 0xFF, data: vec![1, 2, 3] };
    if let GdsRecord::Unknown { record_type, data } = r {
        assert_eq!(record_type, 0xFF);
        assert_eq!(data.len(), 3);
    } else {
        panic!("expected Unknown variant");
    }
}

#[test]
fn gds_error_display_does_not_panic() {
    let errors = vec![
        GdsError::UnexpectedEof,
        GdsError::TruncatedRecord,
        GdsError::RecordTooShort { length: 2 },
        GdsError::UnexpectedRecord { record_type: 0x10, state: "InLibrary" },
        GdsError::InvalidAscii { record_type: 0x06 },
        GdsError::UnresolvedReference { cell_name: "MISSING_CELL".to_string() },
        GdsError::IoError("disk read failed".to_string()),
    ];
    for e in errors {
        let _ = e.message();
    }
}

#[test]
fn record_type_constants_are_correct() {
    assert_eq!(RT_HEADER, 0x00);
    assert_eq!(RT_BOUNDARY, 0x08);
    assert_eq!(RT_SREF, 0x0A);
    assert_eq!(RT_XY, 0x10);
    assert_eq!(RT_ENDEL, 0x11);
    assert_eq!(RT_SNAME, 0x12);
    assert_eq!(RT_STRANS, 0x1A);
}

#[test]
fn error_messages_spell_out_the_error() {
    assert_eq!(GdsError::UnexpectedEof.message(), "GDS parse failed: unexpected end of file");
    assert_eq!(GdsError::TruncatedRecord.message(), "GDS parse failed: stream ended mid-record");
    assert_eq!(GdsError::RecordTooShort { length: 2 }.message(), "GDS parse failed: record length 2 < 4");
    assert_eq!(
        GdsError::UnexpectedRecord { record_type: 0x10, state: "InLibrary" }.message(),
        "GDS parse failed: record 0x10 invalid in state 'InLibrary'"
    );
    assert_eq!(
        GdsError::InvalidAscii { record_type: 0x2B }.message(),
        "GDS parse failed: non-ASCII in record 0x2B"
    );
    assert_eq!(
        GdsError::UnresolvedReference { cell_name: "MISSING_CELL".to_string() }.message(),
        "GDS parse failed: unknown cell 'MISSING_CELL'"
    );
    assert_eq!(GdsError::IoError("disk read failed".to_string()).message(), "GDS I/O error: disk read failed");
    assert_eq!(GdsError::RecordTooShort { length: 65535 }.message(), "GDS parse failed: record length 65535 < 4");
}

#[test]
fn classify_maps_each_type_to_its_kind() {
    assert_eq!(GdsRecord::classify(0x00, vec![0, 3]), GdsRecord::Header(vec![0, 3]));
    assert_eq!(GdsRecord::classify(0x04, vec![9]), GdsRecord::EndLib);
    assert_eq!(GdsRecord::classify(0x38, vec![]), GdsRecord::EndMasks);
    assert_eq!(GdsRecord::classify(0x2A, vec![1]), GdsRecord::Unknown { record_type: 0x2A, data: vec![1] });
    assert_eq!(GdsRecord::classify(0x1C, vec![1, 2]), GdsRecord::Angle(vec![1, 2]));
}
