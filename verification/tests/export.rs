use cad_jww::codec::{Base, BlockDefinition, Record};
use cad_jww::export::{
    builtin_color_number, cp932_text, crate_name, line_type_number, merge_preserved_record,
    nearest_builtin_color_number, paper_code, preserved_blocked_report,
    preserved_dimension_with_label, rgb_hex_to_colorref, stroke_color_number,
    validate_preserved_block_archive, ExportContext, ExportMode, ExportOptions, ExportStatus,
};
use cad_jww::export::{
    dimension_differs_only_by_value, JsonEntity, JsonField,
    build_header, HeaderColorSource, HeaderSource, LayerGroupSource, LayerSource, LayoutSource,
};

fn bits(value: f64) -> u64 {
    value.to_bits()
}

#[test]
fn exposes_crate_name() {
    assert_eq!(crate_name(), "cad-export-jww");
}

#[test]
fn converts_canonical_rgb_to_jww_colorref() {
    assert_eq!(rgb_hex_to_colorref("#123456"), Some(0x00563412));
    assert_eq!(rgb_hex_to_colorref("not-a-color"), None);
    assert_eq!(nearest_builtin_color_number("#F01010"), 2);
    assert_eq!(nearest_builtin_color_number("#FAFAFA"), 8);
    assert_eq!(nearest_builtin_color_number("invalid"), 1);
}

fn block_definition(name: &str, number: u32) -> BlockDefinition {
    BlockDefinition {
        base: Base::default(),
        number,
        is_referenced: 1,
        reserved: 0,
        name: name.to_owned(),
        records: Vec::new(),
    }
}

#[test]
fn preserved_archive_rejects_missing_and_duplicate_block_definitions() {
    let base = Base::default();
    let reference = Record::Block {
        base,
        ref_x: bits(0.0),
        ref_y: bits(0.0),
        scale_x: bits(1.0),
        scale_y: bits(1.0),
        rotation: bits(0.0),
        def_number: 7,
    };
    let mut blockers = Vec::new();
    validate_preserved_block_archive(
        &vec![reference],
        &vec![block_definition("first", 3), block_definition("duplicate", 3)],
        &mut blockers,
    );
    assert!(blockers
        .iter()
        .any(|issue| issue.code == "missing_block_definition"));
    assert!(blockers
        .iter()
        .any(|issue| issue.code == "duplicate_block_definition"));
}

#[test]
fn archive_blockers_come_in_order_with_their_messages() {
    let reference = |def_number| Record::Block {
        base: Base::default(),
        ref_x: 0,
        ref_y: 0,
        scale_x: bits(1.0),
        scale_y: bits(1.0),
        rotation: 0,
        def_number,
    };
    let mut nested = block_definition("nested", 2);
    nested.records.push(reference(9));
    let mut blockers = Vec::new();
    validate_preserved_block_archive(
        &vec![reference(2), reference(4)],
        &vec![block_definition("a", 2), nested],
        &mut blockers,
    );
    let messages: Vec<&str> = blockers.iter().map(|issue| issue.message.as_str()).collect();
    assert_eq!(
        messages,
        vec![
            "JWW block definition number 2 is used more than once",
            "JWW block reference points to missing definition number 4",
            "JWW block reference points to missing definition number 9",
        ]
    );
}

#[test]
fn builtin_colors_ignore_case() {
    assert_eq!(builtin_color_number("#ff00ff"), Some(6));
    assert_eq!(builtin_color_number("#00aa00"), Some(3));
    assert_eq!(builtin_color_number("#123456"), None);
    assert_eq!(rgb_hex_to_colorref("abcdef"), Some(0x00efcdab));
    assert_eq!(rgb_hex_to_colorref("#+F+F+F"), Some(0x000f0f0f));
    assert_eq!(rgb_hex_to_colorref("#12345"), None);
    assert_eq!(rgb_hex_to_colorref("#12345é"), None);
    assert_eq!(nearest_builtin_color_number("#0000F0"), 4);
    assert_eq!(nearest_builtin_color_number("#808080"), 3);
}

#[test]
fn lossy_conversions_block_unless_allowed() {
    let mut strict = ExportContext::new("out.jww", ExportOptions::default());
    assert_eq!(paper_code("a2", &mut strict), 2);
    assert_eq!(paper_code("Letter", &mut strict), 3);
    assert_eq!(strict.blockers.len(), 1);
    assert_eq!(strict.blockers[0].code, "unsupported_paper");
    assert_eq!(
        strict.blockers[0].message,
        "paper \"Letter\" is not supported by the exporter"
    );
    assert_eq!(line_type_number("jww_line_4", Some("e1"), &mut strict), Some(4));
    assert_eq!(line_type_number("solid", Some("e1"), &mut strict), Some(1));
    assert_eq!(line_type_number("dashdot", Some("e1"), &mut strict), None);
    assert_eq!(strict.blockers[1].entity_id.as_deref(), Some("e1"));

    let options = ExportOptions {
        allow_lossy: true,
        ..ExportOptions::default()
    };
    let mut lossy = ExportContext::new("out.jww", options);
    assert_eq!(line_type_number("jww_line_300", None, &mut lossy), Some(1));
    assert_eq!(lossy.warnings.len(), 1);
    assert!(lossy.blockers.is_empty());
    assert_eq!(
        stroke_color_number("pen", Some("#F01010"), None, &mut lossy),
        Some(2)
    );
    assert_eq!(
        lossy.warnings[1].message,
        "color #F01010 is mapped to the nearest built-in JWW pen color"
    );
    assert_eq!(stroke_color_number("jww_color_12", None, None, &mut lossy), Some(12));
    assert_eq!(stroke_color_number("ink", Some("#ff0000"), None, &mut lossy), Some(2));
    assert_eq!(stroke_color_number("ink", None, None, &mut lossy), None);
    assert_eq!(lossy.warnings[2].message, "color \"ink\" is missing");

    let report = lossy.report(ExportStatus::Exported, 3, 1);
    assert_eq!(report.mode, ExportMode::GeneratedBestEffort);
    assert_eq!(report.written_entities, 3);
    assert_eq!(report.warnings.len(), 3);
}

#[test]
fn unencodable_text_is_approximated() {
    let mut context = ExportContext::new("out.jww", ExportOptions::default());
    assert_eq!(cp932_text("寸法", None, &mut context), "寸法");
    assert!(context.warnings.is_empty());
    let approximated = cp932_text("a🚀b", Some("t1"), &mut context);
    assert_ne!(approximated, "a🚀b");
    assert_eq!(context.warnings.len(), 1);
    assert_eq!(context.warnings[0].code, "unencodable_text");

    let strict = ExportOptions {
        strict_approximations: true,
        ..ExportOptions::default()
    };
    let mut context = ExportContext::new("out.jww", strict);
    assert_eq!(cp932_text("a🚀b", None, &mut context), "");
    assert_eq!(context.blockers.len(), 1);
    let report = context.report(ExportStatus::Blocked, 0, 0);
    assert_eq!(report.mode, ExportMode::GeneratedStrict);
}

#[test]
fn preserved_records_keep_text_type_and_font() {
    let original = Record::Text {
        base: Base::default(),
        start: [0, 0],
        end: [0, 0],
        text_type: 42,
        size_x: 0,
        size_y: 0,
        spacing: 0,
        angle_deg: 0,
        font: "MS Gothic".to_owned(),
        value: "old".to_owned(),
    };
    let generated = Record::Text {
        base: Base::default(),
        start: [1, 2],
        end: [3, 4],
        text_type: 0,
        size_x: 5,
        size_y: 6,
        spacing: 7,
        angle_deg: 8,
        font: "Hiragino".to_owned(),
        value: "new".to_owned(),
    };
    match merge_preserved_record(&original, generated) {
        Some(Record::Text {
            text_type,
            font,
            value,
            start,
            ..
        }) => {
            assert_eq!(text_type, 42);
            assert_eq!(font, "MS Gothic");
            assert_eq!(value, "new");
            assert_eq!(start, [1, 2]);
        }
        other => panic!("unexpected {other:?}"),
    }
    let line = Record::Line {
        base: Base::default(),
        p1: [0, 0],
        p2: [1, 1],
    };
    assert!(merge_preserved_record(&original, line).is_none());
}

#[test]
fn dimension_label_replaces_only_the_text_value() {
    let text = Record::Text {
        base: Base::default(),
        start: [0, 0],
        end: [0, 0],
        text_type: 3,
        size_x: 0,
        size_y: 0,
        spacing: 0,
        angle_deg: 0,
        font: "F".to_owned(),
        value: "100".to_owned(),
    };
    let line = Record::Line {
        base: Base::default(),
        p1: [0, 0],
        p2: [1, 1],
    };
    let dimension = Record::Dimension {
        base: Base::default(),
        line: Box::new(line),
        text: Box::new(text),
        sxf_mode: 2,
        aux_lines: Vec::new(),
        aux_points: Vec::new(),
    };
    match preserved_dimension_with_label(&dimension, "250").expect("label") {
        Record::Dimension { text, sxf_mode, .. } => {
            assert_eq!(sxf_mode, 2);
            match *text {
                Record::Text { value, text_type, .. } => {
                    assert_eq!(value, "250");
                    assert_eq!(text_type, 3);
                }
                other => panic!("unexpected {other:?}"),
            }
        }
        other => panic!("unexpected {other:?}"),
    }
    assert_eq!(
        preserved_dimension_with_label(&dimension, "🚀").unwrap_err(),
        "dimension text \"🚀\" cannot be represented in CP932"
    );
    let plain = Record::Line {
        base: Base::default(),
        p1: [0, 0],
        p2: [0, 0],
    };
    assert_eq!(
        preserved_dimension_with_label(&plain, "1").unwrap_err(),
        "the preserved record is not a JWW dimension"
    );
}

#[test]
fn blocked_preserving_report_has_no_output() {
    let report = preserved_blocked_report("x.jww", Vec::new());
    assert_eq!(report.status, ExportStatus::Blocked);
    assert_eq!(report.mode, ExportMode::PreservedEdited);
    assert_eq!(report.schema_version, "0.2");
    assert_eq!(report.output_path, "x.jww");
}

// ---------------------------------------------------------------------------
// Preserved export decisions
// ---------------------------------------------------------------------------

use cad_jww::export::{
    assign_block_numbers, preserved_conversion, record_class_change_issue, ExportIssue,
    PreservedConversion,
};

fn issue(code: &str, message: &str) -> ExportIssue {
    ExportIssue {
        code: code.to_owned(),
        message: message.to_owned(),
        entity_id: Some("ent_1".to_owned()),
    }
}

#[test]
fn new_blocks_are_numbered_after_the_preserved_ones() {
    let preserved = vec![("door".to_owned(), 4), ("window".to_owned(), 9)];
    let project = vec!["chair".to_owned(), "door".to_owned(), "table".to_owned()];
    let (numbers, blockers) = assign_block_numbers(&preserved, &project);
    assert_eq!(
        numbers,
        vec![
            ("door".to_owned(), 4),
            ("window".to_owned(), 9),
            ("chair".to_owned(), 10),
            ("table".to_owned(), 11)
        ]
    );
    assert!(blockers.is_empty());
    let (numbers, _) = assign_block_numbers(&Vec::new(), &vec!["a".to_owned()]);
    assert_eq!(numbers, vec![("a".to_owned(), 1)]);
    let full = vec![("last".to_owned(), u32::MAX)];
    let (numbers, blockers) = assign_block_numbers(&full, &vec!["x".to_owned(), "y".to_owned()]);
    assert_eq!(numbers, full);
    assert_eq!(blockers.len(), 2);
    assert_eq!(blockers[0].code, "block_number_exhausted");
    assert_eq!(blockers[0].message, "no JWW block definition number remains for \"x\"");
    assert_eq!(blockers[1].entity_id, None);
}

#[test]
fn edited_entities_must_regenerate_one_to_one() {
    let text = Record::Text {
        base: Base::default(),
        start: [0, 0],
        end: [0, 0],
        text_type: 0,
        size_x: 0,
        size_y: 0,
        spacing: 0,
        angle_deg: 0,
        font: String::new(),
        value: String::new(),
    };
    assert!(matches!(
        preserved_conversion(1, &vec![], None, false, "ent_1"),
        PreservedConversion::OneToOne
    ));
    assert!(matches!(
        preserved_conversion(
            1,
            &vec![issue("font_substituted", "font"), issue("dimension_style_approximated", "d")],
            Some(&text),
            false,
            "ent_1"
        ),
        PreservedConversion::OneToOne
    ));
    match preserved_conversion(1, &vec![issue("font_substituted", "font changed")], None, false, "ent_1") {
        PreservedConversion::Blocked(blocker) => {
            assert_eq!(blocker.code, "preserved_entity_not_one_to_one");
            assert_eq!(blocker.message, "font changed");
            assert_eq!(blocker.entity_id.as_deref(), Some("ent_1"));
        }
        other => panic!("expected a blocker, got {other:?}"),
    }
    match preserved_conversion(3, &vec![], None, true, "ent_1") {
        PreservedConversion::Expanded(warning) => {
            assert_eq!(warning.code, "preserved_entity_expanded");
            assert_eq!(
                warning.message,
                "edited entity was replaced by 3 generated JWW record(s)"
            );
        }
        other => panic!("expected an expansion, got {other:?}"),
    }
    match preserved_conversion(0, &vec![], None, true, "ent_1") {
        PreservedConversion::Blocked(blocker) => assert_eq!(
            blocker.message,
            "edited preserve export requires one JWW record per CAD entity"
        ),
        other => panic!("expected a blocker, got {other:?}"),
    }
    assert_eq!(
        record_class_change_issue(true, "e").message,
        "the edited entity was regenerated as a different JWW record class"
    );
    assert_eq!(
        record_class_change_issue(false, "e").message,
        "the edit changes the underlying JWW record class"
    );
}

use cad_jww::export::{changed_jww_source_paths, SourceFileRevision};

fn source(path: &str, revision: &str, exists: bool) -> SourceFileRevision {
    SourceFileRevision {
        relative_path: path.to_owned(),
        revision: revision.to_owned(),
        exists,
    }
}

#[test]
fn changed_sources_are_listed_once_in_path_order() {
    let expected = vec![
        source("rules/layers.toml", "a", true),
        source("drawings/plan/entities.ndjson", "b", true),
        source("blocks/door/entities.ndjson", "c", true),
    ];
    let current = vec![
        source("drawings/plan/entities.ndjson", "b2", true),
        source("rules/layers.toml", "a", true),
        source("blocks/door/entities.ndjson", "c", false),
        source("blocks/chair/entities.ndjson", "d", true),
    ];
    assert_eq!(
        changed_jww_source_paths(&expected, &current),
        vec![
            "blocks/chair/entities.ndjson".to_owned(),
            "blocks/door/entities.ndjson".to_owned(),
            "drawings/plan/entities.ndjson".to_owned(),
        ]
    );
    assert!(changed_jww_source_paths(&expected, &expected).is_empty());
    let duplicate = vec![
        source("rules/layers.toml", "old", true),
        source("rules/layers.toml", "a", true),
    ];
    assert!(changed_jww_source_paths(&expected[..1].to_vec(), &duplicate).is_empty());
}

use cad_jww::export::{
    finish_record_provenance, record_provenance_step, ExportError, ProvenanceItem,
    RecordProvenance,
};

fn line_record() -> Record {
    Record::Line {
        base: Base::default(),
        p1: [0, 0],
        p2: [0, 0],
    }
}

fn entity_item(id: &str, bits: Vec<u64>) -> ProvenanceItem {
    ProvenanceItem::Entity {
        owner: "plan".to_owned(),
        entity_id: id.to_owned(),
        canonical: serde_json::Value::Null,
        record: line_record(),
        record_float_bits: bits,
    }
}

fn preservation_message(error: ExportError) -> String {
    error.message()
}

#[test]
fn record_provenance_requires_one_header_and_unique_entries() {
    let mut provenance = RecordProvenance::new();
    let mut saw_header = false;
    assert_eq!(
        preservation_message(finish_record_provenance(saw_header).expect_err("no header")),
        "JWW preservation is unavailable: record provenance header is missing"
    );
    let error = record_provenance_step(
        &mut provenance,
        &mut saw_header,
        ProvenanceItem::Header {
            schema_version: "0.1".to_owned(),
        },
    )
    .expect_err("old schema");
    assert_eq!(
        error.message(),
        "JWW preservation is unavailable: record provenance has an unsupported or duplicate header"
    );
    let header = || ProvenanceItem::Header {
        schema_version: "0.2".to_owned(),
    };
    record_provenance_step(&mut provenance, &mut saw_header, header()).expect("header");
    assert!(saw_header);
    assert!(record_provenance_step(&mut provenance, &mut saw_header, header()).is_err());
    let bits = vec![1.0f64.to_bits(), 2.0f64.to_bits(), 3.0f64.to_bits(), 4.0f64.to_bits()];
    record_provenance_step(&mut provenance, &mut saw_header, entity_item("e1", bits.clone()))
        .expect("entity");
    match &provenance.entities[0].record {
        Record::Line { p1, p2, .. } => {
            assert_eq!(*p1, [bits[0], bits[1]]);
            assert_eq!(*p2, [bits[2], bits[3]]);
        }
        other => panic!("expected a line, got {other:?}"),
    }
    let error = record_provenance_step(&mut provenance, &mut saw_header, entity_item("e1", bits))
        .expect_err("duplicate");
    assert_eq!(
        error.message(),
        "JWW preservation is unavailable: record provenance contains a duplicate entity id"
    );
    let error = record_provenance_step(&mut provenance, &mut saw_header, entity_item("e2", vec![1]))
        .expect_err("bad bits");
    assert_eq!(
        error.message(),
        "JWW preservation is unavailable: record provenance has an invalid float-bit payload"
    );
    let block = || ProvenanceItem::BlockDefinition {
        block_id: "door".to_owned(),
        base: Base::default(),
        number: 3,
        is_referenced: 1,
        reserved: 0,
        name: "DOOR".to_owned(),
    };
    record_provenance_step(&mut provenance, &mut saw_header, block()).expect("block");
    assert_eq!(provenance.blocks[0].1.number, 3);
    assert!(provenance.blocks[0].1.records.is_empty());
    let error = record_provenance_step(&mut provenance, &mut saw_header, block())
        .expect_err("duplicate block");
    assert_eq!(
        error.message(),
        "JWW preservation is unavailable: record provenance contains a duplicate block definition"
    );
    assert!(finish_record_provenance(saw_header).is_ok());
    assert_eq!(
        ExportError::DrawingNotFound("plan".to_owned()).message(),
        "drawing \"plan\" was not found"
    );
}

fn color(id: &str, rgb: &str, print_rgb: Option<&str>, width: u32) -> HeaderColorSource {
    HeaderColorSource {
        id: id.to_owned(),
        rgb: rgb.to_owned(),
        print_rgb: print_rgb.map(|value| value.to_owned()),
        print_width_hundredths: width,
    }
}

fn group(id: &str, order: i64, name: &str, locked: bool) -> LayerGroupSource {
    LayerGroupSource {
        id: id.to_owned(),
        order,
        name: name.to_owned(),
        visible: true,
        locked,
        scale_bits: bits(50.0),
    }
}

fn layer(id: &str, group: Option<&str>, order: i64) -> LayerSource {
    LayerSource {
        id: id.to_owned(),
        group: group.map(|value| value.to_owned()),
        order,
        name: id.to_uppercase(),
        visible: true,
        locked: false,
    }
}

fn a4_layout() -> Option<LayoutSource> {
    Some(LayoutSource {
        paper: "A4".to_owned(),
        scale_text: "1:100".to_owned(),
        scale_bits: Some(bits(100.0)),
        landscape: false,
    })
}

#[test]
fn header_without_active_layout_is_blocked_and_default() {
    let source = HeaderSource {
        project_name: "P".to_owned(),
        layout: None,
        colors: Vec::new(),
        groups: Vec::new(),
        layers: Vec::new(),
        active_layer: None,
    };
    let mut context = ExportContext::new("out.jww", ExportOptions::default());
    let (header, slots) = build_header(&source, &mut context);
    assert!(slots.is_empty());
    assert_eq!(header.memo, "Exported by cadc");
    assert_eq!(context.blockers.len(), 1);
    assert_eq!(context.blockers[0].code, "invalid_active_layout");
    assert_eq!(context.blockers[0].message, "drawing has no active layout");
}

#[test]
fn header_places_groups_and_layers_by_order_and_id() {
    let source = HeaderSource {
        project_name: "House".to_owned(),
        layout: a4_layout(),
        colors: vec![
            color("jww_color_3", "#112233", None, 35),
            color("jww_color_5", "nothex", None, 10),
            color("red", "#ff0000", Some("#000000"), 50),
            color("custom", "#123456", None, 70),
        ],
        groups: vec![group("g2", 1, "Second", true), group("g1", 0, "First", false)],
        layers: vec![
            layer("a", Some("g2"), 5),
            layer("b", Some("g2"), 1),
            layer("c", None, 0),
            layer("d", Some("missing"), 0),
        ],
        active_layer: Some("a".to_owned()),
    };
    let mut context = ExportContext::new("out.jww", ExportOptions::default());
    let (header, slots) = build_header(&source, &mut context);
    assert_eq!(header.memo, "House");
    assert_eq!(header.paper_size, 4);
    assert_eq!(header.screen_pen_colors[3], 0x00332211);
    assert_eq!(header.print_pen_colors[3], 0x00332211);
    assert_eq!(header.print_pen_widths[3], 35);
    assert_eq!(header.screen_pen_colors[2], 0x000000ff);
    assert_eq!(header.print_pen_colors[2], 0);
    assert_eq!(header.print_pen_widths[2], 50);
    assert_eq!(header.print_pen_widths[5], 1);
    assert_eq!(context.blockers.len(), 1);
    assert_eq!(context.blockers[0].code, "invalid_jww_header_color");
    assert_eq!(
        context.blockers[0].message,
        "color \"jww_color_5\" has invalid RGB value \"nothex\""
    );

    assert_eq!(header.layer_groups.len(), 16);
    assert_eq!(header.layer_groups[0].name, "First");
    assert_eq!(header.layer_groups[0].state, 2);
    assert_eq!(header.layer_groups[0].scale, bits(100.0));
    assert_eq!(header.layer_groups[1].name, "Second");
    assert_eq!(header.layer_groups[1].state, 1);
    assert_eq!(header.layer_groups[1].protect, 1);
    assert_eq!(header.layer_groups[2].name, "");
    assert_eq!(header.layer_groups[2].state, 2);

    assert_eq!(header.layer_groups[0].layers[0].name, "C");
    assert_eq!(header.layer_groups[0].layers[1].name, "D");
    assert_eq!(header.layer_groups[0].layers[2].state, 0);
    assert_eq!(header.layer_groups[1].layers[0].name, "B");
    assert_eq!(header.layer_groups[1].layers[0].state, 2);
    assert_eq!(header.layer_groups[1].layers[1].name, "A");
    assert_eq!(header.layer_groups[1].layers[1].state, 3);
    assert_eq!(header.write_layer_group, 1);
    assert_eq!(header.layer_groups[1].write_layer, 1);
    assert_eq!(
        slots,
        vec![
            ("c".to_owned(), (0, 0)),
            ("d".to_owned(), (0, 1)),
            ("b".to_owned(), (1, 0)),
            ("a".to_owned(), (1, 1)),
        ]
    );
}

#[test]
fn header_limits_groups_and_layers_to_sixteen() {
    let groups: Vec<LayerGroupSource> =
        (0..17).map(|index| group(&format!("g{index:02}"), 0, "G", false)).collect();
    let layers: Vec<LayerSource> =
        (0..17).map(|index| layer(&format!("l{index:02}"), Some("g16"), 0)).collect();
    let source = HeaderSource {
        project_name: "P".to_owned(),
        layout: Some(LayoutSource {
            paper: "B5".to_owned(),
            scale_text: "abc".to_owned(),
            scale_bits: None,
            landscape: true,
        }),
        colors: Vec::new(),
        groups,
        layers,
        active_layer: None,
    };
    let mut context = ExportContext::new("out.jww", ExportOptions::default());
    let (header, slots) = build_header(&source, &mut context);
    let codes: Vec<&str> = context.blockers.iter().map(|issue| issue.code.as_str()).collect();
    assert_eq!(
        codes,
        vec!["unsupported_layout_scale", "unsupported_paper", "layer_group_limit", "layer_limit"]
    );
    assert_eq!(
        context.blockers[0].message,
        "layout scale \"abc\" is not a positive numeric scale"
    );
    assert_eq!(context.blockers[3].message, "layer group 0 contains more than 16 layers");
    assert_eq!(context.warnings.len(), 1);
    assert_eq!(context.warnings[0].code, "layout_orientation_approximated");
    assert_eq!(header.paper_size, 3);
    assert_eq!(header.layer_groups[0].scale, bits(50.0));
    assert_eq!(slots.len(), 16);
    assert_eq!(slots[15], ("l15".to_owned(), (0, 15)));
}

fn json_object(fields: &[(&str, &str)]) -> JsonEntity {
    JsonEntity {
        is_object: true,
        fields: fields
            .iter()
            .map(|(key, value)| JsonField { key: key.to_string(), value_json: value.to_string() })
            .collect(),
    }
}

#[test]
fn dimensions_may_differ_only_in_their_value() {
    let canonical = json_object(&[("id", "\"d1\""), ("type", "\"dimension\""), ("value", "\"100\"")]);
    let value_only = json_object(&[("id", "\"d1\""), ("type", "\"dimension\""), ("value", "\"120\"")]);
    let moved = json_object(&[("id", "\"d2\""), ("type", "\"dimension\""), ("value", "\"100\"")]);
    let line = json_object(&[("id", "\"d1\""), ("type", "\"line\"")]);
    let not_object = JsonEntity { is_object: false, fields: Vec::new() };
    assert!(dimension_differs_only_by_value(&canonical, &value_only));
    assert!(dimension_differs_only_by_value(&canonical, &canonical));
    assert!(!dimension_differs_only_by_value(&canonical, &moved));
    assert!(!dimension_differs_only_by_value(&line, &line));
    assert!(!dimension_differs_only_by_value(&canonical, &not_object));
}
