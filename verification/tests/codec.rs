use cad_jww::codec::{
    clone_record, decoded_entity_to_record, find_entity_list_offset, inspect_document,
    read_document, record_float_bits, restore_record_float_bits, write_document,
    write_document_preserving_header, Base, BlockDefinition, CodecError, DecodedEntity, Document,
    Header, JwwCompatibilityState, Reader, Record, Writer,
};

fn bits(value: f64) -> u64 {
    value.to_bits()
}

fn line(p1: [f64; 2], p2: [f64; 2]) -> Record {
    Record::Line {
        base: Base::default(),
        p1: [bits(p1[0]), bits(p1[1])],
        p2: [bits(p2[0]), bits(p2[1])],
    }
}

fn same(left: &Record, right: &Record) -> bool {
    format!("{left:?}") == format!("{right:?}")
}

#[test]
fn reads_written_entity_and_block_lists() {
    let mut header = Header::default();
    header.screen_pen_colors[1] = 0x00332211;
    header.screen_pen_widths[1] = 7;
    header.print_pen_colors[1] = 0x00665544;
    header.print_pen_widths[1] = 23;
    header.print_point_radii[1] = bits(0.75);
    let document = Document {
        header,
        records: vec![line([1.0, 2.0], [3.0, 4.0])],
        blocks: vec![BlockDefinition {
            base: Base::default(),
            number: 7,
            is_referenced: 1,
            reserved: 0,
            name: "PART".to_owned(),
            records: vec![Record::Point {
                base: Base::default(),
                at: [bits(5.0), bits(6.0)],
                temporary: false,
                marker: None,
            }],
        }],
    };

    let bytes = write_document(&document).expect("document should encode");
    let decoded = read_document(&bytes).expect("document should decode");

    assert!(matches!(decoded.entities.as_slice(), [DecodedEntity::Line(_)]));
    assert_eq!(decoded.header.screen_pen_colors[1], 0x00332211);
    assert_eq!(decoded.header.screen_pen_widths[1], 7);
    assert_eq!(decoded.header.print_pen_colors[1], 0x00665544);
    assert_eq!(decoded.header.print_pen_widths[1], 23);
    assert_eq!(f64::from_bits(decoded.header.print_point_radii[1]), 0.75);
    assert_eq!(decoded.block_defs.len(), 1);
    assert_eq!(decoded.block_defs[0].number, 7);
    assert_eq!(decoded.block_defs[0].name, "PART");
    assert!(matches!(
        decoded.block_defs[0].entities.as_slice(),
        [DecodedEntity::Point(_)]
    ));
}

fn sample_text() -> Record {
    Record::Text {
        base: Base::default(),
        start: [bits(5.0), bits(6.0)],
        end: [bits(17.0), bits(8.0)],
        text_type: 42,
        size_x: bits(3.0),
        size_y: bits(4.0),
        spacing: bits(0.25),
        angle_deg: bits(12.0),
        font: "MS Gothic".to_owned(),
        value: "寸法".to_owned(),
    }
}

fn sample_dimension() -> Record {
    let points = (0..4)
        .map(|index| Record::Point {
            base: Base::default(),
            at: [bits(index as f64), bits(2.0)],
            temporary: index == 3,
            marker: None,
        })
        .collect();
    Record::Dimension {
        base: Base::default(),
        line: Box::new(line([0.0, 10.0], [100.0, 10.0])),
        text: Box::new(sample_text()),
        sxf_mode: 7,
        aux_lines: vec![line([0.0, 0.0], [0.0, 10.0]), line([100.0, 0.0], [100.0, 10.0])],
        aux_points: points,
    }
}

#[test]
fn round_trips_text_dimension_and_block_preservation_fields() {
    let text = sample_text();
    let dimension = sample_dimension();
    let document = Document {
        records: vec![clone_record(&text), clone_record(&dimension)],
        blocks: vec![BlockDefinition {
            base: Base {
                group: 9,
                ..Base::default()
            },
            number: 17,
            is_referenced: 0,
            reserved: 99,
            name: "DETAIL".to_owned(),
            records: vec![clone_record(&dimension)],
        }],
        ..Document::default()
    };

    let decoded = read_document(&write_document(&document).expect("encode")).expect("decode");

    assert!(same(&decoded_entity_to_record(&decoded.entities[0]), &text));
    assert!(same(&decoded_entity_to_record(&decoded.entities[1]), &dimension));
    assert_eq!(decoded.block_defs[0].base.group, 9);
    assert_eq!(decoded.block_defs[0].is_referenced, 0);
    assert_eq!(decoded.block_defs[0].reserved, 99);
    assert!(same(
        &decoded_entity_to_record(&decoded.block_defs[0].entities[0]),
        &dimension
    ));
}

fn editable_document() -> Vec<u8> {
    write_document(&Document {
        records: vec![line([0.0, 0.0], [10.0, 0.0])],
        ..Document::default()
    })
    .expect("document should encode")
}

#[test]
fn inspection_distinguishes_editable_unknown_and_unsupported_documents() {
    let editable = editable_document();
    assert_eq!(
        inspect_document(&editable).state,
        JwwCompatibilityState::EditableLossless
    );

    let mut unsupported = editable.clone();
    unsupported[8..12].copy_from_slice(&500_u32.to_le_bytes());
    assert_eq!(
        inspect_document(&unsupported).state,
        JwwCompatibilityState::UnsupportedVersion
    );

    let mut unknown = editable;
    let marker = unknown
        .windows(b"CDataSen".len())
        .position(|window| window == b"CDataSen")
        .expect("class marker");
    unknown[marker..marker + b"CDataSen".len()].copy_from_slice(b"CDataFoo");
    assert_eq!(
        inspect_document(&unknown).state,
        JwwCompatibilityState::PreservedReadOnly
    );
}

#[test]
fn rejects_unencodable_text() {
    let mut writer = Writer::default();
    assert!(matches!(
        writer.cstring("emoji 🚀"),
        Err(CodecError::UnencodableText(_))
    ));
}

#[test]
fn inspection_reports_versions_classes_and_reasons() {
    let editable = editable_document();
    let report = inspect_document(&editable);
    assert_eq!(report.version, Some(600));
    assert_eq!(report.reason, None);
    assert_eq!(report.record_classes, vec![("CDataSen".to_owned(), 1)]);
    assert_eq!(report.block_definition_count, Some(0));

    let truncated = inspect_document(b"JwwData.");
    assert_eq!(truncated.state, JwwCompatibilityState::Malformed);
    assert_eq!(truncated.version, None);
    assert_eq!(
        truncated.reason.as_deref(),
        Some("invalid JWW signature or truncated version field")
    );

    let mut old = editable.clone();
    old[8..12].copy_from_slice(&500_u32.to_le_bytes());
    assert_eq!(
        inspect_document(&old).reason.as_deref(),
        Some("JWW version 500 is preserved but only version 600 is editable")
    );

    let mut unknown = editable;
    let marker = unknown
        .windows(8)
        .position(|window| window == b"CDataSen")
        .expect("class marker");
    unknown[marker..marker + 8].copy_from_slice(b"CDataFoo");
    assert_eq!(
        inspect_document(&unknown).reason.as_deref(),
        Some("unknown JWW entity class CDataFoo")
    );
}

#[test]
fn inspection_counts_classes_in_name_order_across_blocks() {
    let block_ref = Record::Block {
        base: Base::default(),
        ref_x: 0,
        ref_y: 0,
        scale_x: bits(1.0),
        scale_y: bits(1.0),
        rotation: 0,
        def_number: 1,
    };
    let document = Document {
        records: vec![line([0.0, 0.0], [1.0, 0.0]), block_ref, line([1.0, 0.0], [2.0, 0.0])],
        blocks: vec![BlockDefinition {
            base: Base::default(),
            number: 1,
            is_referenced: 1,
            reserved: 0,
            name: "B".to_owned(),
            records: vec![sample_text(), line([0.0, 0.0], [0.0, 1.0])],
        }],
        ..Document::default()
    };
    let bytes = write_document(&document).expect("encode");
    let report = inspect_document(&bytes);
    assert_eq!(report.state, JwwCompatibilityState::EditableLossless);
    assert_eq!(
        report.record_classes,
        vec![
            ("CDataBlock".to_owned(), 1),
            ("CDataMoji".to_owned(), 1),
            ("CDataSen".to_owned(), 3),
        ]
    );
    assert_eq!(report.block_definition_count, Some(1));
}

#[test]
fn entity_list_follows_the_header() {
    let bytes = editable_document();
    let offset = find_entity_list_offset(&bytes, 600).expect("entity list");
    assert_eq!(&bytes[offset + 2..offset + 4], &[0xff, 0xff]);
    assert_eq!(&bytes[offset + 8..offset + 16], b"CDataSen");
    assert_eq!(find_entity_list_offset(&bytes[..100], 600), None);
    assert_eq!(find_entity_list_offset(&bytes, 500), None);
}

#[test]
fn preserving_writer_keeps_the_source_header() {
    let source = editable_document();
    let edited = Document {
        records: vec![line([5.0, 5.0], [6.0, 6.0]), line([7.0, 7.0], [8.0, 8.0])],
        ..Document::default()
    };
    let output = write_document_preserving_header(&source, &edited).expect("preserve");
    let offset = find_entity_list_offset(&source, 600).expect("offset");
    assert_eq!(&output[..offset], &source[..offset]);
    let decoded = read_document(&output).expect("decode");
    assert_eq!(decoded.entities.len(), 2);

    let mut old = source;
    old[8..12].copy_from_slice(&500_u32.to_le_bytes());
    assert!(matches!(
        write_document_preserving_header(&old, &edited),
        Err(CodecError::UnexpectedEof("editable v600 preservation source"))
    ));
}

#[test]
fn float_bits_read_back_into_a_record() {
    let dimension = sample_dimension();
    let original_bits = record_float_bits(&dimension);
    assert_eq!(original_bits.len(), 4 + 8 + 4 + 4 + 4 * 2);

    let mut restored = clone_record(&dimension);
    assert!(restore_record_float_bits(&mut restored, &original_bits));
    assert!(same(&restored, &dimension));

    let changed: Vec<u64> = original_bits.iter().map(|value| value ^ 1).collect();
    assert!(restore_record_float_bits(&mut restored, &changed));
    assert_eq!(record_float_bits(&restored), changed);

    let mut short = clone_record(&dimension);
    assert!(!restore_record_float_bits(&mut short, &original_bits[..5]));
    let mut long = line([0.0, 0.0], [1.0, 1.0]);
    assert!(!restore_record_float_bits(&mut long, &[1, 2, 3, 4, 5]));
    assert_eq!(record_float_bits(&long), vec![1, 2, 3, 4]);
}

#[test]
fn marker_points_keep_their_marker_fields() {
    let point = Record::Point {
        base: Base {
            pen_style: 100,
            ..Base::default()
        },
        at: [bits(1.0), bits(2.0)],
        temporary: true,
        marker: Some((5, bits(30.0), bits(2.0))),
    };
    assert_eq!(
        record_float_bits(&point),
        vec![bits(1.0), bits(2.0), bits(30.0), bits(2.0)]
    );
    let document = Document {
        records: vec![clone_record(&point)],
        ..Document::default()
    };
    let decoded = read_document(&write_document(&document).expect("encode")).expect("decode");
    assert!(same(&decoded_entity_to_record(&decoded.entities[0]), &point));
}

#[test]
fn reader_reports_end_of_input() {
    let data = [1u8, 2, 3];
    let mut reader = Reader::new(&data);
    assert_eq!(reader.read_u16().expect("u16"), 0x0201);
    assert_eq!(reader.bytes_read(), 2);
    assert!(matches!(reader.read_u32(), Err(CodecError::UnexpectedEof("bytes"))));
    assert!(matches!(reader.skip(usize::MAX), Err(CodecError::UnexpectedEof("offset"))));
    assert_eq!(reader.read_u8().expect("u8"), 3);
}

#[test]
fn error_messages_match_their_display_text() {
    assert_eq!(CodecError::InvalidSignature.message(), "invalid JWW signature");
    assert_eq!(
        CodecError::UnknownClassPid(12).message(),
        "unknown JWW class pid 12"
    );
    assert_eq!(
        CodecError::UnencodableText("a\"b".to_owned()).message(),
        "text cannot be represented in CP932: \"a\\\"b\""
    );
    assert_eq!(
        CodecError::UnexpectedEof("bytes").message(),
        "unexpected EOF while reading bytes"
    );
}

#[test]
fn writer_frames_long_strings() {
    let mut writer = Writer::default();
    let text = "a".repeat(300);
    writer.cstring(&text).expect("ascii");
    let bytes = writer.into_bytes();
    assert_eq!(&bytes[..3], &[0xff, 0x2c, 0x01]);
    assert_eq!(bytes.len(), 303);
    let mut reader = Reader::new(&bytes);
    assert_eq!(reader.read_cstring().expect("read"), text);
}

#[test]
fn reader_counts_only_what_successful_reads_consumed() {
    let data = [1u8, 2, 3, 4, 5];
    let mut reader = Reader::new(&data);
    assert_eq!(reader.bytes_read(), 0);
    assert_eq!(reader.read_u8().expect("u8"), 1);
    assert!(reader.read_f64().is_err());
    assert_eq!(reader.bytes_read(), 1);
    assert_eq!(reader.read_u16().expect("u16"), 0x0302);
    assert!(reader.read_bytes(3).is_err());
    reader.skip(2).expect("skip");
    assert_eq!(reader.bytes_read(), 5);
    assert!(reader.read_u8().is_err());
    assert_eq!(reader.bytes_read(), 5);
}

#[test]
fn writer_holds_each_write_in_order() {
    assert!(Writer::default().into_bytes().is_empty());
    let mut writer = Writer::default();
    writer.u8(7);
    writer.u16(0x0102);
    writer.u32(0x0304_0506);
    writer.f64_bits(1.5f64.to_bits());
    writer.raw(&[9, 9]);
    let mut expected = vec![7u8, 2, 1, 6, 5, 4, 3];
    expected.extend_from_slice(&1.5f64.to_le_bytes());
    expected.extend_from_slice(&[9, 9]);
    assert_eq!(writer.into_bytes(), expected);
}
