//! The in-memory forms of JWW documents: the decoded (read) side and the
//! writable record side. Double-precision values are held as their IEEE-754
//! bit patterns, which is all the codec ever moves.
use vstd::prelude::*;
use crate::codec::decode::ONE_BITS;
use crate::codec::header::TENTH_BITS;
use crate::codec::header_read::{default_pen_rgb, default_pen_rgb_spec};

verus! {

// ---------------------------------------------------------------------------
// Writable side
// ---------------------------------------------------------------------------

#[derive(Debug, Clone, Default, PartialEq)]
pub struct Layer {
    pub name: String,
    pub state: u32,
    pub protect: u32,
}

pub struct LayerV {
    pub name: Seq<char>,
    pub state: u32,
    pub protect: u32,
}

impl View for Layer {
    type V = LayerV;

    open spec fn view(&self) -> LayerV {
        LayerV { name: self.name@, state: self.state, protect: self.protect }
    }
}

/// A layer group; `layers` holds the group's sixteen layers.
#[derive(Debug, Clone, PartialEq)]
pub struct LayerGroup {
    pub name: String,
    pub state: u32,
    pub write_layer: u32,
    /// Bit pattern of the group's drawing scale.
    pub scale: u64,
    pub protect: u32,
    pub layers: Vec<Layer>,
}

pub struct LayerGroupV {
    pub name: Seq<char>,
    pub state: u32,
    pub write_layer: u32,
    pub scale: u64,
    pub protect: u32,
    pub layers: Seq<LayerV>,
}

impl View for LayerGroup {
    type V = LayerGroupV;

    open spec fn view(&self) -> LayerGroupV {
        LayerGroupV {
            name: self.name@,
            state: self.state,
            write_layer: self.write_layer,
            scale: self.scale,
            protect: self.protect,
            layers: self.layers@.map_values(|l: Layer| l@),
        }
    }
}

/// The header fields that the writer takes from the document; `layer_groups`
/// holds the sixteen groups.
#[derive(Debug, Clone, PartialEq)]
pub struct Header {
    pub memo: String,
    pub paper_size: u32,
    pub write_layer_group: u32,
    pub layer_groups: Vec<LayerGroup>,
    pub screen_pen_colors: [u32; 10],
    pub screen_pen_widths: [u32; 10],
    pub print_pen_colors: [u32; 10],
    pub print_pen_widths: [u32; 10],
    pub print_point_radii: [u64; 10],
}

pub struct HeaderV {
    pub memo: Seq<char>,
    pub paper_size: u32,
    pub write_layer_group: u32,
    pub layer_groups: Seq<LayerGroupV>,
    pub screen_pen_colors: [u32; 10],
    pub screen_pen_widths: [u32; 10],
    pub print_pen_colors: [u32; 10],
    pub print_pen_widths: [u32; 10],
    pub print_point_radii: [u64; 10],
}

/// The shape the JWW header has: sixteen layer groups of sixteen layers each.
pub open spec fn header_shape(h: HeaderV) -> bool {
    &&& h.layer_groups.len() == 16
    &&& forall|g: int| 0 <= g < 16 ==> (#[trigger] h.layer_groups[g]).layers.len() == 16
}

impl View for Header {
    type V = HeaderV;

    open spec fn view(&self) -> HeaderV {
        HeaderV {
            memo: self.memo@,
            paper_size: self.paper_size,
            write_layer_group: self.write_layer_group,
            layer_groups: self.layer_groups@.map_values(|g: LayerGroup| g@),
            screen_pen_colors: self.screen_pen_colors,
            screen_pen_widths: self.screen_pen_widths,
            print_pen_colors: self.print_pen_colors,
            print_pen_widths: self.print_pen_widths,
            print_point_radii: self.print_point_radii,
        }
    }
}

#[derive(Debug, Clone, Copy, Default, PartialEq, Eq)]
pub struct Base {
    pub group: u32,
    pub pen_style: u8,
    pub pen_color: u16,
    pub pen_width: u16,
    pub layer: u16,
    pub layer_group: u16,
    pub flag: u16,
}

/// One writable entity record. A dimension holds two auxiliary lines and four
/// auxiliary points.
#[derive(Debug)]
pub enum Record {
    Line { base: Base, p1: [u64; 2], p2: [u64; 2] },
    Arc {
        base: Base,
        center: [u64; 2],
        radius: u64,
        start_rad: u64,
        sweep_rad: u64,
        tilt_rad: u64,
        flatness: u64,
        full: bool,
    },
    Point { base: Base, at: [u64; 2], temporary: bool, marker: Option<(u32, u64, u64)> },
    Text {
        base: Base,
        start: [u64; 2],
        end: [u64; 2],
        text_type: u32,
        size_x: u64,
        size_y: u64,
        spacing: u64,
        angle_deg: u64,
        font: String,
        value: String,
    },
    Dimension {
        base: Base,
        line: Box<Record>,
        text: Box<Record>,
        sxf_mode: u16,
        aux_lines: Vec<Record>,
        aux_points: Vec<Record>,
    },
    Solid { base: Base, values: [u64; 8], color: Option<u32> },
    Block {
        base: Base,
        ref_x: u64,
        ref_y: u64,
        scale_x: u64,
        scale_y: u64,
        rotation: u64,
        def_number: u32,
    },
}

pub enum RecordV {
    Line { base: Base, p1: [u64; 2], p2: [u64; 2] },
    Arc {
        base: Base,
        center: [u64; 2],
        radius: u64,
        start_rad: u64,
        sweep_rad: u64,
        tilt_rad: u64,
        flatness: u64,
        full: bool,
    },
    Point { base: Base, at: [u64; 2], temporary: bool, marker: Option<(u32, u64, u64)> },
    Text {
        base: Base,
        start: [u64; 2],
        end: [u64; 2],
        text_type: u32,
        size_x: u64,
        size_y: u64,
        spacing: u64,
        angle_deg: u64,
        font: Seq<char>,
        value: Seq<char>,
    },
    Dimension {
        base: Base,
        line: Box<RecordV>,
        text: Box<RecordV>,
        sxf_mode: u16,
        aux_lines: Seq<RecordV>,
        aux_points: Seq<RecordV>,
    },
    Solid { base: Base, values: [u64; 8], color: Option<u32> },
    Block {
        base: Base,
        ref_x: u64,
        ref_y: u64,
        scale_x: u64,
        scale_y: u64,
        rotation: u64,
        def_number: u32,
    },
}

pub open spec fn records_view(s: Seq<Record>) -> Seq<RecordV>
    decreases s,
{
    if s.len() == 0 {
        Seq::empty()
    } else {
        seq![s[0]@] + records_view(s.drop_first())
    }
}

impl View for Record {
    type V = RecordV;

    open spec fn view(&self) -> RecordV
        decreases self,
    {
        match self {
            Record::Line { base, p1, p2 } => RecordV::Line { base: *base, p1: *p1, p2: *p2 },
            Record::Arc { base, center, radius, start_rad, sweep_rad, tilt_rad, flatness, full } =>
                RecordV::Arc {
                base: *base,
                center: *center,
                radius: *radius,
                start_rad: *start_rad,
                sweep_rad: *sweep_rad,
                tilt_rad: *tilt_rad,
                flatness: *flatness,
                full: *full,
            },
            Record::Point { base, at, temporary, marker } => RecordV::Point {
                base: *base,
                at: *at,
                temporary: *temporary,
                marker: *marker,
            },
            Record::Text {
                base,
                start,
                end,
                text_type,
                size_x,
                size_y,
                spacing,
                angle_deg,
                font,
                value,
            } => RecordV::Text {
                base: *base,
                start: *start,
                end: *end,
                text_type: *text_type,
                size_x: *size_x,
                size_y: *size_y,
                spacing: *spacing,
                angle_deg: *angle_deg,
                font: font@,
                value: value@,
            },
            Record::Dimension { base, line, text, sxf_mode, aux_lines, aux_points } =>
                RecordV::Dimension {
                base: *base,
                line: Box::new((**line).view()),
                text: Box::new((**text).view()),
                sxf_mode: *sxf_mode,
                aux_lines: records_view(aux_lines@),
                aux_points: records_view(aux_points@),
            },
            Record::Solid { base, values, color } => RecordV::Solid {
                base: *base,
                values: *values,
                color: *color,
            },
            Record::Block { base, ref_x, ref_y, scale_x, scale_y, rotation, def_number } =>
                RecordV::Block {
                base: *base,
                ref_x: *ref_x,
                ref_y: *ref_y,
                scale_x: *scale_x,
                scale_y: *scale_y,
                rotation: *rotation,
                def_number: *def_number,
            },
        }
    }
}

#[derive(Debug)]
pub struct BlockDefinition {
    pub base: Base,
    pub number: u32,
    pub is_referenced: u32,
    pub reserved: u32,
    pub name: String,
    pub records: Vec<Record>,
}

pub struct BlockDefinitionV {
    pub base: Base,
    pub number: u32,
    pub is_referenced: u32,
    pub reserved: u32,
    pub name: Seq<char>,
    pub records: Seq<RecordV>,
}

impl View for BlockDefinition {
    type V = BlockDefinitionV;

    open spec fn view(&self) -> BlockDefinitionV {
        BlockDefinitionV {
            base: self.base,
            number: self.number,
            is_referenced: self.is_referenced,
            reserved: self.reserved,
            name: self.name@,
            records: records_view(self.records@),
        }
    }
}

#[derive(Debug, Default)]
pub struct Document {
    pub header: Header,
    pub records: Vec<Record>,
    pub blocks: Vec<BlockDefinition>,
}

pub struct DocumentV {
    pub header: HeaderV,
    pub records: Seq<RecordV>,
    pub blocks: Seq<BlockDefinitionV>,
}

impl View for Document {
    type V = DocumentV;

    open spec fn view(&self) -> DocumentV {
        DocumentV {
            header: self.header@,
            records: records_view(self.records@),
            blocks: self.blocks@.map_values(|b: BlockDefinition| b@),
        }
    }
}

// ---------------------------------------------------------------------------
// Decoded side
// ---------------------------------------------------------------------------

#[derive(Debug, Clone, Copy, PartialEq, Eq)]
pub struct DecodedBase {
    pub group: u32,
    pub pen_style: u8,
    pub pen_color: u16,
    pub pen_width: u16,
    pub layer: u16,
    pub layer_group: u16,
    pub flag: u16,
}

#[derive(Debug, Clone, Copy, PartialEq, Eq)]
pub struct DecodedLine {
    pub base: DecodedBase,
    pub start: [u64; 2],
    pub end: [u64; 2],
}

#[derive(Debug, Clone, Copy, PartialEq, Eq)]
pub struct DecodedArc {
    pub base: DecodedBase,
    pub center: [u64; 2],
    pub radius: u64,
    pub start_rad: u64,
    pub sweep_rad: u64,
    pub tilt_rad: u64,
    pub flatness: u64,
    pub is_full_circle: bool,
}

#[derive(Debug, Clone, Copy, PartialEq, Eq)]
pub struct DecodedPoint {
    pub base: DecodedBase,
    pub at: [u64; 2],
    pub temporary: bool,
    pub marker_code: Option<u32>,
    pub rotation: u64,
    pub scale: u64,
}

#[derive(Debug, Clone, PartialEq)]
pub struct DecodedText {
    pub base: DecodedBase,
    pub start: [u64; 2],
    pub end: [u64; 2],
    pub text_type: u32,
    pub size_x: u64,
    pub size_y: u64,
    pub spacing: u64,
    pub angle: u64,
    pub mirror_y: bool,
    pub font_name: String,
    pub content: String,
}

pub struct DecodedTextV {
    pub base: DecodedBase,
    pub start: [u64; 2],
    pub end: [u64; 2],
    pub text_type: u32,
    pub size_x: u64,
    pub size_y: u64,
    pub spacing: u64,
    pub angle: u64,
    pub mirror_y: bool,
    pub font_name: Seq<char>,
    pub content: Seq<char>,
}

impl View for DecodedText {
    type V = DecodedTextV;

    open spec fn view(&self) -> DecodedTextV {
        DecodedTextV {
            base: self.base,
            start: self.start,
            end: self.end,
            text_type: self.text_type,
            size_x: self.size_x,
            size_y: self.size_y,
            spacing: self.spacing,
            angle: self.angle,
            mirror_y: self.mirror_y,
            font_name: self.font_name@,
            content: self.content@,
        }
    }
}

#[derive(Debug, Clone, Copy, PartialEq, Eq)]
pub struct DecodedSolid {
    pub base: DecodedBase,
    pub points: [[u64; 2]; 4],
    pub color: Option<u32>,
}

#[derive(Debug, Clone, Copy, PartialEq, Eq)]
pub struct DecodedCircleSolid {
    pub base: DecodedBase,
    pub center: [u64; 2],
    pub radius: u64,
    pub flatness: u64,
    pub tilt_rad: u64,
    pub start_rad: u64,
    pub sweep_rad: u64,
    pub solid_param: u64,
    pub color: Option<u32>,
}

#[derive(Debug, Clone, Copy, PartialEq, Eq)]
pub struct DecodedBlock {
    pub base: DecodedBase,
    pub ref_x: u64,
    pub ref_y: u64,
    pub scale_x: u64,
    pub scale_y: u64,
    pub rotation: u64,
    pub def_number: u32,
}

#[derive(Debug, Clone, PartialEq)]
pub struct DecodedDimension {
    pub base: DecodedBase,
    pub line: DecodedLine,
    pub text: DecodedText,
    pub sxf_mode: u16,
    pub aux_lines: [DecodedLine; 2],
    pub aux_points: [DecodedPoint; 4],
}

pub struct DecodedDimensionV {
    pub base: DecodedBase,
    pub line: DecodedLine,
    pub text: DecodedTextV,
    pub sxf_mode: u16,
    pub aux_lines: [DecodedLine; 2],
    pub aux_points: [DecodedPoint; 4],
}

impl View for DecodedDimension {
    type V = DecodedDimensionV;

    open spec fn view(&self) -> DecodedDimensionV {
        DecodedDimensionV {
            base: self.base,
            line: self.line,
            text: self.text@,
            sxf_mode: self.sxf_mode,
            aux_lines: self.aux_lines,
            aux_points: self.aux_points,
        }
    }
}

#[derive(Debug, Clone, PartialEq)]
pub enum DecodedEntity {
    Line(DecodedLine),
    Arc(DecodedArc),
    Point(DecodedPoint),
    Text(DecodedText),
    Solid(DecodedSolid),
    CircleSolid(DecodedCircleSolid),
    Block(DecodedBlock),
    Dimension(DecodedDimension),
}

pub enum DecodedEntityV {
    Line(DecodedLine),
    Arc(DecodedArc),
    Point(DecodedPoint),
    Text(DecodedTextV),
    Solid(DecodedSolid),
    CircleSolid(DecodedCircleSolid),
    Block(DecodedBlock),
    Dimension(DecodedDimensionV),
}

impl View for DecodedEntity {
    type V = DecodedEntityV;

    open spec fn view(&self) -> DecodedEntityV {
        match self {
            DecodedEntity::Line(v) => DecodedEntityV::Line(*v),
            DecodedEntity::Arc(v) => DecodedEntityV::Arc(*v),
            DecodedEntity::Point(v) => DecodedEntityV::Point(*v),
            DecodedEntity::Text(v) => DecodedEntityV::Text(v@),
            DecodedEntity::Solid(v) => DecodedEntityV::Solid(*v),
            DecodedEntity::CircleSolid(v) => DecodedEntityV::CircleSolid(*v),
            DecodedEntity::Block(v) => DecodedEntityV::Block(*v),
            DecodedEntity::Dimension(v) => DecodedEntityV::Dimension(v@),
        }
    }
}

pub open spec fn entities_view(s: Seq<DecodedEntity>) -> Seq<DecodedEntityV> {
    s.map_values(|e: DecodedEntity| e@)
}

#[derive(Debug, Clone)]
pub struct DecodedBlockDefinition {
    pub base: DecodedBase,
    pub number: u32,
    pub is_referenced: u32,
    pub reserved: u32,
    pub name: String,
    pub entities: Vec<DecodedEntity>,
}

pub struct DecodedBlockDefinitionV {
    pub base: DecodedBase,
    pub number: u32,
    pub is_referenced: u32,
    pub reserved: u32,
    pub name: Seq<char>,
    pub entities: Seq<DecodedEntityV>,
}

impl View for DecodedBlockDefinition {
    type V = DecodedBlockDefinitionV;

    open spec fn view(&self) -> DecodedBlockDefinitionV {
        DecodedBlockDefinitionV {
            base: self.base,
            number: self.number,
            is_referenced: self.is_referenced,
            reserved: self.reserved,
            name: self.name@,
            entities: entities_view(self.entities@),
        }
    }
}

#[derive(Debug, Clone)]
pub struct DecodedLayer {
    pub name: String,
    pub state: u32,
    pub protect: u32,
}

pub struct DecodedLayerV {
    pub name: Seq<char>,
    pub state: u32,
    pub protect: u32,
}

impl View for DecodedLayer {
    type V = DecodedLayerV;

    open spec fn view(&self) -> DecodedLayerV {
        DecodedLayerV { name: self.name@, state: self.state, protect: self.protect }
    }
}

/// A decoded layer group; `layers` holds the group's sixteen layers.
#[derive(Debug, Clone)]
pub struct DecodedLayerGroup {
    pub layers: Vec<DecodedLayer>,
    pub name: String,
    /// Bit pattern of the group's drawing scale.
    pub scale: u64,
    pub state: u32,
    pub write_layer: u32,
    pub protect: u32,
}

pub struct DecodedLayerGroupV {
    pub layers: Seq<DecodedLayerV>,
    pub name: Seq<char>,
    pub scale: u64,
    pub state: u32,
    pub write_layer: u32,
    pub protect: u32,
}

impl View for DecodedLayerGroup {
    type V = DecodedLayerGroupV;

    open spec fn view(&self) -> DecodedLayerGroupV {
        DecodedLayerGroupV {
            layers: self.layers@.map_values(|l: DecodedLayer| l@),
            name: self.name@,
            scale: self.scale,
            state: self.state,
            write_layer: self.write_layer,
            protect: self.protect,
        }
    }
}

/// A decoded header; `layer_groups` holds the sixteen groups.
#[derive(Debug, Clone)]
pub struct DecodedHeader {
    pub version: u32,
    pub memo: String,
    pub paper_size: u32,
    pub write_layer_group: u32,
    pub layer_groups: Vec<DecodedLayerGroup>,
    pub screen_pen_colors: [u32; 10],
    pub screen_pen_widths: [u32; 10],
    pub print_pen_colors: [u32; 10],
    pub print_pen_widths: [u32; 10],
    pub print_point_radii: [u64; 10],
}

pub struct DecodedHeaderV {
    pub version: u32,
    pub memo: Seq<char>,
    pub paper_size: u32,
    pub write_layer_group: u32,
    pub layer_groups: Seq<DecodedLayerGroupV>,
    pub screen_pen_colors: Seq<u32>,
    pub screen_pen_widths: Seq<u32>,
    pub print_pen_colors: Seq<u32>,
    pub print_pen_widths: Seq<u32>,
    pub print_point_radii: Seq<u64>,
}

impl View for DecodedHeader {
    type V = DecodedHeaderV;

    open spec fn view(&self) -> DecodedHeaderV {
        DecodedHeaderV {
            version: self.version,
            memo: self.memo@,
            paper_size: self.paper_size,
            write_layer_group: self.write_layer_group,
            layer_groups: self.layer_groups@.map_values(|g: DecodedLayerGroup| g@),
            screen_pen_colors: self.screen_pen_colors@,
            screen_pen_widths: self.screen_pen_widths@,
            print_pen_colors: self.print_pen_colors@,
            print_pen_widths: self.print_pen_widths@,
            print_point_radii: self.print_point_radii@,
        }
    }
}

#[derive(Debug, Clone)]
pub struct DecodedDocument {
    pub header: DecodedHeader,
    pub entities: Vec<DecodedEntity>,
    pub block_defs: Vec<DecodedBlockDefinition>,
}

pub struct DecodedDocumentV {
    pub header: DecodedHeaderV,
    pub entities: Seq<DecodedEntityV>,
    pub block_defs: Seq<DecodedBlockDefinitionV>,
}

impl View for DecodedDocument {
    type V = DecodedDocumentV;

    open spec fn view(&self) -> DecodedDocumentV {
        DecodedDocumentV {
            header: self.header@,
            entities: entities_view(self.entities@),
            block_defs: self.block_defs@.map_values(|b: DecodedBlockDefinition| b@),
        }
    }
}

// ---------------------------------------------------------------------------
// Defaults of a generated header
// ---------------------------------------------------------------------------

/// A layer group as the writer starts it: visible (state 2) with sixteen
/// visible layers, scale 1.
pub open spec fn default_group_spec(g: LayerGroupV) -> bool {
    &&& g.name.len() == 0
    &&& g.state == 2
    &&& g.write_layer == 0
    &&& g.scale == ONE_BITS
    &&& g.protect == 0
    &&& g.layers.len() == 16
    &&& forall|i: int|
        0 <= i < 16 ==> (#[trigger] g.layers[i]).name.len() == 0 && g.layers[i].state == 2
            && g.layers[i].protect == 0
}

impl Default for LayerGroup {
    fn default() -> (g: Self)
        ensures
            default_group_spec(g@),
    {
        let mut layers: Vec<Layer> = Vec::new();
        let mut i: usize = 0;
        while i < 16
            invariant
                i <= 16,
                layers@.len() == i,
                forall|k: int|
                    0 <= k < i ==> (#[trigger] layers@[k]).name@.len() == 0 && layers@[k].state == 2
                        && layers@[k].protect == 0,
            decreases 16 - i,
        {
            layers.push(Layer { name: String::new(), state: 2, protect: 0 });
            i = i + 1;
        }
        LayerGroup { name: String::new(), state: 2, write_layer: 0, scale: ONE_BITS, protect: 0, layers }
    }
}

/// The header the writer uses when none is given: memo `Exported by cadc`,
/// paper code 3, sixteen default groups, and the default pen tables (width 1,
/// point radius 0.1).
pub open spec fn default_header_spec(h: HeaderV) -> bool {
    &&& h.memo == "Exported by cadc"@
    &&& h.paper_size == 3
    &&& h.write_layer_group == 0
    &&& h.layer_groups.len() == 16
    &&& forall|g: int| 0 <= g < 16 ==> default_group_spec(#[trigger] h.layer_groups[g])
    &&& forall|i: int|
        0 <= i < 10 ==> h.screen_pen_colors[i] == default_pen_rgb_spec(i) && h.print_pen_colors[i]
            == default_pen_rgb_spec(i) && h.screen_pen_widths[i] == 1 && h.print_pen_widths[i] == 1
            && h.print_point_radii[i] == TENTH_BITS
}

impl Default for Header {
    fn default() -> (h: Self)
        ensures
            default_header_spec(h@),
    {
        let mut layer_groups: Vec<LayerGroup> = Vec::new();
        let mut i: usize = 0;
        while i < 16
            invariant
                i <= 16,
                layer_groups@.len() == i,
                forall|k: int| 0 <= k < i ==> default_group_spec(#[trigger] layer_groups@[k]@),
            decreases 16 - i,
        {
            layer_groups.push(LayerGroup::default());
            i = i + 1;
        }
        let colors = [
            default_pen_rgb(0),
            default_pen_rgb(1),
            default_pen_rgb(2),
            default_pen_rgb(3),
            default_pen_rgb(4),
            default_pen_rgb(5),
            default_pen_rgb(6),
            default_pen_rgb(7),
            default_pen_rgb(8),
            default_pen_rgb(9),
        ];
        let h = Header {
            memo: "Exported by cadc".to_owned(),
            paper_size: 3,
            write_layer_group: 0,
            layer_groups,
            screen_pen_colors: colors,
            screen_pen_widths: [1; 10],
            print_pen_colors: colors,
            print_pen_widths: [1; 10],
            print_point_radii: [TENTH_BITS; 10],
        };
        assert forall|g: int| 0 <= g < 16 implies default_group_spec(#[trigger] h@.layer_groups[g]) by {
            assert(h@.layer_groups[g] == h.layer_groups@[g]@);
        }
        h
    }
}

/// The schema version of record provenance files.
pub const RECORD_PROVENANCE_SCHEMA_VERSION: &'static str = "0.2";

/// One line of a record provenance file: its header (the decoded header of
/// the original file), an entity with its canonical CAD source and the
/// record it came from (its doubles carried separately as bit patterns),
/// or a block definition.
#[derive(Debug)]
pub enum JwwProvenanceEntry {
    Header { schema_version: String, header: Box<DecodedHeader> },
    Entity {
        owner: String,
        ordinal: usize,
        entity_id: String,
        canonical_entity: String,
        record: Record,
        record_float_bits: Vec<u64>,
    },
    BlockDefinition {
        block_id: String,
        base: Base,
        number: u32,
        is_referenced: u32,
        reserved: u32,
        name: String,
    },
}

} // verus!
