use cad_jww::codec::{DecodedLayer, DecodedLayerGroup};
use cad_jww::import::{
    color_id, crate_name, dash_pattern, geometry_skipped, import_warning, jww_layer_name,
    layer_id, line_type_id, non_empty_string, pen_color_rgb, sanitize_name, sheet_paper,
    toml_escape, unsupported, EntityBase,
};

fn base(layer_group: u16, layer: u16) -> EntityBase {
    EntityBase {
        pen_style: 2,
        pen_color: 5,
        pen_width: 0,
        layer,
        layer_group,
    }
}

#[test]
fn exposes_import_crate_name() {
    assert_eq!(crate_name(), "cad-import-jww");
}

#[test]
fn derives_source_ids_from_pens_and_layers() {
    assert_eq!(layer_id(base(0, 1)), "jww_g0_l1");
    assert_eq!(layer_id(base(10, 15)), "jww_gA_lF");
    assert_eq!(layer_id(base(40, 99)), "jww_gF_lF");
    assert_eq!(color_id(base(0, 0)), "jww_color_5");
    assert_eq!(line_type_id(base(0, 0)), "jww_line_2");
}

#[test]
fn warnings_name_the_layer() {
    let warning = import_warning("code", "line", base(1, 2), "skipped");
    assert_eq!(warning.message, "skipped on jww_g1_l2");
    assert_eq!(warning.record_type, "line");
    assert_eq!(unsupported("ole", base(0, 0), "x").code, "unsupported_record");
    assert_eq!(geometry_skipped("arc", base(0, 0), "x").code, "geometry_skipped");
}

#[test]
fn text_helpers() {
    assert_eq!(non_empty_string("  \t"), None);
    assert_eq!(non_empty_string(" a "), Some(" a "));
    assert_eq!(non_empty_string("\u{3000}"), None);
    assert_eq!(toml_escape("a\"b\\c"), "a\\\"b\\\\c");
    assert_eq!(pen_color_rgb(2), "#FF0000");
    assert_eq!(pen_color_rgb(9), "#333333");
    assert_eq!(dash_pattern(4), "12.0, 4.0, 2.0, 4.0");
    assert_eq!(dash_pattern(1), "");
}

#[test]
fn sanitizes_project_names() {
    assert_eq!(sanitize_name("My Plan (v2).jww"), "my_plan_v2_jww");
    assert_eq!(sanitize_name("__a--b__"), "a--b");
    assert_eq!(sanitize_name("設計図"), "jww_import");
    assert_eq!(sanitize_name("a  b"), "a_b");
}

#[test]
fn maps_paper_sizes() {
    let mut warnings = Vec::new();
    assert_eq!(sheet_paper(2, &mut warnings), "A2");
    assert!(warnings.is_empty());
    assert_eq!(sheet_paper(9, &mut warnings), "A3");
    assert_eq!(warnings.len(), 1);
    assert_eq!(warnings[0].message, "JWW paper size 9 is unsupported; A3 is used");
    assert_eq!(warnings[0].record_type, "header");
}

fn groups(group_name: &str, layer_name: &str) -> Vec<DecodedLayerGroup> {
    (0..16)
        .map(|_| DecodedLayerGroup {
            layers: (0..16)
                .map(|_| DecodedLayer {
                    name: layer_name.to_owned(),
                    state: 2,
                    protect: 0,
                })
                .collect(),
            name: group_name.to_owned(),
            scale: 1.0f64.to_bits(),
            state: 2,
            write_layer: 0,
            protect: 0,
        })
        .collect()
}

#[test]
fn names_layers_from_the_header() {
    assert_eq!(jww_layer_name(&groups("", ""), base(3, 12)), "3-C");
    assert_eq!(jww_layer_name(&groups("Walls", "Doors"), base(0, 0)), "Walls Doors");
    assert_eq!(jww_layer_name(&groups("", "Doors"), base(0, 0)), "Doors");
}

// ---------------------------------------------------------------------------
// Reading JWW files
// ---------------------------------------------------------------------------

use cad_jww::codec::Reader;
use cad_jww::import::{
    BlockExpansion, ConversionLimits, ExpansionBudget, ImportError, ImportedLayer,
    plan_block_expansion, remember_layer,
};
use cad_jww::import_read::{
    parse_block_def_list, parse_document, parse_entity_list, parse_header, Block, BlockDef,
    JwwEntity,
};

#[test]
fn rejects_invalid_signature() {
    let error = parse_document(b"NotJwwData").expect_err("invalid JWW should fail");
    assert!(matches!(error, ImportError::InvalidSignature));
}

#[test]
fn rejects_unknown_entity_class_as_fatal() {
    let mut data = Vec::new();
    data.extend_from_slice(&1u16.to_le_bytes());
    data.extend_from_slice(&0xFFFFu16.to_le_bytes());
    data.extend_from_slice(&600u16.to_le_bytes());
    let class_name = b"CDataUnknown";
    data.extend_from_slice(&(class_name.len() as u16).to_le_bytes());
    data.extend_from_slice(class_name);
    let mut reader = Reader::new(&data);

    let error = parse_entity_list(&mut reader, 600).expect_err("unknown class should fail");

    assert!(matches!(error, ImportError::UnknownEntityClass(name) if name == "CDataUnknown"));
}

#[test]
fn rejects_invalid_block_definition_count() {
    let data = 10_001u32.to_le_bytes();

    let error = parse_block_def_list(&data, 600).expect_err("invalid count should fail");

    assert!(matches!(
        error,
        ImportError::InvalidBlockDefinitionCount(10_001)
    ));
}

fn append_entity_base(data: &mut Vec<u8>) {
    data.extend_from_slice(&0u32.to_le_bytes());
    data.push(1);
    data.extend_from_slice(&1u16.to_le_bytes());
    data.extend_from_slice(&0u16.to_le_bytes());
    data.extend_from_slice(&0u16.to_le_bytes());
    data.extend_from_slice(&0u16.to_le_bytes());
    data.extend_from_slice(&0u16.to_le_bytes());
}

fn minimal_jww_header() -> Vec<u8> {
    let mut data = Vec::<u8>::new();
    data.extend_from_slice(b"JwwData.");
    data.extend_from_slice(&600u32.to_le_bytes());
    data.push(0);
    data.extend_from_slice(&0u32.to_le_bytes());
    data.extend_from_slice(&0u32.to_le_bytes());
    for _ in 0..16 {
        data.extend_from_slice(&0u32.to_le_bytes());
        data.extend_from_slice(&0u32.to_le_bytes());
        data.extend_from_slice(&1.0f64.to_le_bytes());
        data.extend_from_slice(&0u32.to_le_bytes());
        for _ in 0..16 {
            data.extend_from_slice(&0u32.to_le_bytes());
            data.extend_from_slice(&0u32.to_le_bytes());
        }
    }
    data
}

fn minimal_jww_with_line(end_x: f64) -> Vec<u8> {
    let mut data = minimal_jww_header();
    data.extend_from_slice(&1u16.to_le_bytes());
    data.extend_from_slice(&0xFFFFu16.to_le_bytes());
    data.extend_from_slice(&600u16.to_le_bytes());
    let class_name = b"CDataSen";
    data.extend_from_slice(&(class_name.len() as u16).to_le_bytes());
    data.extend_from_slice(class_name);
    append_entity_base(&mut data);
    data.extend_from_slice(&0.0f64.to_le_bytes());
    data.extend_from_slice(&0.0f64.to_le_bytes());
    data.extend_from_slice(&end_x.to_le_bytes());
    data.extend_from_slice(&0.0f64.to_le_bytes());
    data.extend_from_slice(&0u16.to_le_bytes());
    data
}

#[test]
fn reads_minimal_document_with_one_line() {
    let data = minimal_jww_with_line(1000.0);
    let document = parse_document(&data).expect("minimal document should parse");
    assert_eq!(document.header.version, 600);
    assert_eq!(document.header.paper_size, 0);
    assert_eq!(document.header.memo, "");
    assert_eq!(document.header.layer_groups.len(), 16);
    assert_eq!(document.header.layer_groups[0].scale, 1.0f64.to_bits());
    assert_eq!(document.entities.len(), 1);
    match &document.entities[0] {
        JwwEntity::Line(line) => {
            assert_eq!(line.base.pen_style, 1);
            assert_eq!(line.base.pen_color, 1);
            assert_eq!(line.start, [0.0f64.to_bits(), 0.0f64.to_bits()]);
            assert_eq!(line.end, [1000.0f64.to_bits(), 0.0f64.to_bits()]);
        }
        other => panic!("expected a line, got {other:?}"),
    }
    assert!(document.block_defs.is_empty());
}

#[test]
fn header_without_layer_names_uses_default_names() {
    let mut data = minimal_jww_header();
    data.extend_from_slice(&[0u8; 4]);
    let header = parse_header(&data).expect("header should parse");
    assert_eq!(header.layer_groups[0].name, "Group0");
    assert_eq!(header.layer_groups[10].name, "GroupA");
    assert_eq!(header.layer_groups[0].layers[15].name, "0-F");
    assert_eq!(header.layer_groups[15].layers[3].name, "F-3");
}

#[test]
fn truncated_header_reports_missing_bytes() {
    let mut data = Vec::<u8>::new();
    data.extend_from_slice(b"JwwData.");
    data.extend_from_slice(&600u32.to_le_bytes());
    data.push(4);
    data.extend_from_slice(&[0x41, 0x82, 0xa0, 0x00]);
    let error = parse_header(&data).expect_err("truncated header should fail");
    assert!(matches!(error, ImportError::UnexpectedEof("bytes")));
}

#[test]
fn document_without_entity_list_is_rejected() {
    let mut data = minimal_jww_header();
    data.extend_from_slice(&[0u8; 64]);
    let error = parse_document(&data).expect_err("no entity list");
    assert!(matches!(error, ImportError::EntityListNotFound));
}

#[test]
fn entity_list_reads_text_with_lossy_content_and_null_references() {
    let mut data = Vec::new();
    data.extend_from_slice(&2u16.to_le_bytes());
    data.extend_from_slice(&0x8000u16.to_le_bytes());
    data.extend_from_slice(&0xFFFFu16.to_le_bytes());
    data.extend_from_slice(&600u16.to_le_bytes());
    let class_name = b"CDataMoji";
    data.extend_from_slice(&(class_name.len() as u16).to_le_bytes());
    data.extend_from_slice(class_name);
    append_entity_base(&mut data);
    for value in [1.0f64, 2.0, 3.0, 4.0] {
        data.extend_from_slice(&value.to_le_bytes());
    }
    data.extend_from_slice(&0u32.to_le_bytes());
    for value in [2.5f64, 3.5, 0.5, 0.0] {
        data.extend_from_slice(&value.to_le_bytes());
    }
    data.push(0);
    data.push(3);
    data.extend_from_slice(b"AB\0");
    let mut reader = Reader::new(&data);
    let entities = parse_entity_list(&mut reader, 600).expect("list should parse");
    assert_eq!(reader.bytes_read(), data.len());
    assert_eq!(entities.len(), 1);
    match &entities[0] {
        JwwEntity::Text(text) => {
            assert_eq!(text.start, [1.0f64.to_bits(), 2.0f64.to_bits()]);
            assert_eq!(text.size_x, 2.5f64.to_bits());
            assert_eq!(text.size_y, 3.5f64.to_bits());
            assert_eq!(text.spacing, 0.5f64.to_bits());
            assert_eq!(text.font_name, "");
            assert_eq!(text.content, "AB");
            assert!(!text.mirror_y);
        }
        other => panic!("expected a text, got {other:?}"),
    }
}

#[test]
fn entity_list_rejects_reference_to_undeclared_class() {
    let mut data = Vec::new();
    data.extend_from_slice(&1u16.to_le_bytes());
    data.extend_from_slice(&0x8003u16.to_le_bytes());
    let mut reader = Reader::new(&data);
    let error = parse_entity_list(&mut reader, 600).expect_err("undeclared class");
    assert!(matches!(error, ImportError::UnknownClassPid(3)));
}

#[test]
fn block_definition_list_reads_named_definitions() {
    let mut data = Vec::new();
    data.extend_from_slice(&1u32.to_le_bytes());
    data.extend_from_slice(&0xFFFFu16.to_le_bytes());
    data.extend_from_slice(&600u16.to_le_bytes());
    let class_name = b"CDataList";
    data.extend_from_slice(&(class_name.len() as u16).to_le_bytes());
    data.extend_from_slice(class_name);
    append_entity_base(&mut data);
    data.extend_from_slice(&7u32.to_le_bytes());
    data.extend_from_slice(&1u32.to_le_bytes());
    data.extend_from_slice(&[0u8; 4]);
    data.push(4);
    data.extend_from_slice(b"DOOR");
    data.extend_from_slice(&0u16.to_le_bytes());
    let defs = parse_block_def_list(&data, 600).expect("block definitions should parse");
    assert_eq!(defs.len(), 1);
    assert_eq!(defs[0].number, 7);
    assert_eq!(defs[0].name, "DOOR");
    assert!(defs[0].entities.is_empty());
}

#[test]
fn expansion_budget_counts_steps_and_output() {
    let mut budget = ExpansionBudget::new(ConversionLimits {
        max_output_entities: 2,
        max_expansion_steps: 2,
    });
    assert!(budget.consume_expansion_step().is_ok());
    assert!(budget.consume_expansion_step().is_ok());
    let error = budget.consume_expansion_step().expect_err("third step exceeds the limit");
    assert!(matches!(
        error,
        ImportError::ExpansionLimitExceeded { kind: "expansion step", limit: 2 }
    ));
    assert_eq!(budget.expansion_steps, 2);
    assert_eq!(error.message(), "JWW expansion step limit exceeded (2)");
    assert!(budget.ensure_output_capacity(1).is_ok());
    let error = budget.ensure_output_capacity(2).expect_err("output is full");
    assert_eq!(error.message(), "JWW output entity limit exceeded (2)");
    let limits = ConversionLimits::default();
    assert_eq!(limits.max_output_entities, 250_000);
    assert_eq!(limits.max_expansion_steps, 1_000_000);
}

fn block_ref(def_number: u32) -> Block {
    Block {
        base: base(0, 0),
        ref_x: 0,
        ref_y: 0,
        scale_x: 1.0f64.to_bits(),
        scale_y: 1.0f64.to_bits(),
        rotation: 0,
        def_number,
    }
}

fn block_def(number: u32, name: &str) -> BlockDef {
    BlockDef {
        number,
        name: name.to_owned(),
        entities: Vec::new(),
    }
}

#[test]
fn block_expansion_detects_cycles_and_missing_definitions() {
    let defs = vec![block_def(1, "A"), block_def(2, "B"), block_def(1, "A2")];
    match plan_block_expansion(&defs, &vec![], &block_ref(1)) {
        BlockExpansion::Expand(index) => assert_eq!(index, 2),
        other => panic!("expected expansion, got {other:?}"),
    }
    match plan_block_expansion(&defs, &vec![2, 1], &block_ref(1)) {
        BlockExpansion::Skip(warning) => {
            assert_eq!(warning.code, "block_cycle");
            assert_eq!(warning.record_type, "CDataBlock");
            assert_eq!(
                warning.message,
                "block 1 cannot be expanded safely on jww_g0_l0"
            );
        }
        other => panic!("expected a cycle warning, got {other:?}"),
    }
    match plan_block_expansion(&defs, &vec![], &block_ref(9)) {
        BlockExpansion::Skip(warning) => {
            assert_eq!(warning.code, "unresolved_block");
            assert_eq!(warning.message, "block definition 9 was not found on jww_g0_l0");
        }
        other => panic!("expected an unresolved warning, got {other:?}"),
    }
    let deep: Vec<u32> = (100..132).collect();
    assert!(matches!(
        plan_block_expansion(&defs, &deep, &block_ref(2)),
        BlockExpansion::Skip(_)
    ));
}

#[test]
fn remembers_each_layer_once_and_warns_on_pen_conflicts() {
    let groups = groups("Walls", "Doors");
    let mut layers: Vec<ImportedLayer> = Vec::new();
    let mut warnings = Vec::new();
    remember_layer(&groups, &mut layers, &mut warnings, base(1, 2));
    remember_layer(&groups, &mut layers, &mut warnings, base(0, 5));
    remember_layer(&groups, &mut layers, &mut warnings, base(1, 2));
    assert_eq!(layers.len(), 2);
    assert!(warnings.is_empty());
    assert_eq!(layers[0].id, "jww_g0_l5");
    assert_eq!(layers[1].id, "jww_g1_l2");
    assert_eq!(layers[1].name, "Walls Doors");
    let mut other_pen = base(1, 2);
    other_pen.pen_color = 3;
    remember_layer(&groups, &mut layers, &mut warnings, other_pen);
    assert_eq!(layers.len(), 2);
    assert_eq!(layers[1].base.pen_color, 5);
    assert_eq!(warnings.len(), 1);
    assert_eq!(warnings[0].code, "layer_style_conflict");
    assert_eq!(
        warnings[0].message,
        "jww_g1_l2 has multiple JWW pen styles; first style is used because CAD source has no entity-level line style override"
    );
    assert_eq!(warnings[0].record_type, "style");
}
