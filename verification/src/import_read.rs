//! Reading JWW files for import: the header with its layer names, the entity
//! list and the block definitions. Unlike the codec, the importer decodes text
//! leniently: malformed CP932 bytes become replacement characters.
use vstd::prelude::*;
use crate::codec::error::{CodecError, CodecErrorV, Parsed};
use crate::codec::reader::{Reader, sp_take, sp_u8, sp_u16, sp_u32, sp_skip, sp_cstring_len};
use crate::codec::header::signature_bytes;
use crate::codec::header_read::{
    GroupFixed, sp_groups_fixed, assemble_groups, groups_fixed_view, read_groups_fixed,
    lemma_groups_fixed_shape, assemble, names_view, has_signature,
};
use crate::codec::locate::{is_entity_marker, first_marker};
use crate::codec::decode::{sp_base, sp_f64s, sp_solid_color, read_base};
use crate::codec::types::{DecodedBase, DecodedLayerGroup, DecodedLayerGroupV};
use crate::import::{EntityBase, ImportError, ImportErrorV};
use crate::codec::archive::{
    SupportedEntityClass, spec_entity_class, supported_entity_class, ClassTableV,
    class_table_view, class_lookup, lookup_class, opt_seq,
};
use crate::text::{
    sjis_decode, decode_sjis, trim_trailing_nul, trim_nul_chars, string_from_chars, utf8_lossy,
    lossy_utf8,
};

verus! {

// ---------------------------------------------------------------------------
// Records as the importer sees them
// ---------------------------------------------------------------------------

#[derive(Debug, Clone, Copy)]
pub struct Line {
    pub base: EntityBase,
    pub start: [u64; 2],
    pub end: [u64; 2],
}

/// An arc or ellipse; every double is held as its IEEE-754 bit pattern.
#[derive(Debug, Clone, Copy)]
pub struct Arc {
    pub base: EntityBase,
    pub center: [u64; 2],
    pub radius: u64,
    pub start_rad: u64,
    pub sweep_rad: u64,
    pub tilt_rad: u64,
    pub flatness: u64,
    pub is_full_circle: bool,
}

#[derive(Debug, Clone, Copy)]
pub struct Point {
    pub base: EntityBase,
}

#[derive(Debug, Clone)]
pub struct Text {
    pub base: EntityBase,
    pub start: [u64; 2],
    pub size_x: u64,
    pub size_y: u64,
    pub spacing: u64,
    pub angle: u64,
    pub mirror_y: bool,
    pub font_name: String,
    pub content: String,
}

pub struct TextV {
    pub base: EntityBase,
    pub start: [u64; 2],
    pub size_x: u64,
    pub size_y: u64,
    pub spacing: u64,
    pub angle: u64,
    pub mirror_y: bool,
    pub font_name: Seq<char>,
    pub content: Seq<char>,
}

impl View for Text {
    type V = TextV;

    open spec fn view(&self) -> TextV {
        TextV {
            base: self.base,
            start: self.start,
            size_x: self.size_x,
            size_y: self.size_y,
            spacing: self.spacing,
            angle: self.angle,
            mirror_y: self.mirror_y,
            font_name: self.font_name@,
            content: self.content@,
        }
    }
}

#[derive(Debug, Clone, Copy)]
pub struct Solid {
    pub base: EntityBase,
}

#[derive(Debug, Clone, Copy)]
pub struct CircleSolid {
    pub base: EntityBase,
}

#[derive(Debug, Clone, Copy)]
pub struct Block {
    pub base: EntityBase,
    pub ref_x: u64,
    pub ref_y: u64,
    pub scale_x: u64,
    pub scale_y: u64,
    pub rotation: u64,
    pub def_number: u32,
}

#[derive(Debug, Clone)]
pub struct Dimension {
    pub base: EntityBase,
    pub line: Line,
    pub text: Text,
}

pub struct DimensionV {
    pub base: EntityBase,
    pub line: Line,
    pub text: TextV,
}

impl View for Dimension {
    type V = DimensionV;

    open spec fn view(&self) -> DimensionV {
        DimensionV { base: self.base, line: self.line, text: self.text@ }
    }
}

#[derive(Debug, Clone)]
pub enum JwwEntity {
    Line(Line),
    Arc(Arc),
    Point(Point),
    Text(Text),
    Solid(Solid),
    CircleSolid(CircleSolid),
    Block(Block),
    Dimension(Dimension),
}

pub enum JwwEntityV {
    Line(Line),
    Arc(Arc),
    Point(Point),
    Text(TextV),
    Solid(Solid),
    CircleSolid(CircleSolid),
    Block(Block),
    Dimension(DimensionV),
}

impl View for JwwEntity {
    type V = JwwEntityV;

    open spec fn view(&self) -> JwwEntityV {
        match self {
            JwwEntity::Line(l) => JwwEntityV::Line(*l),
            JwwEntity::Arc(a) => JwwEntityV::Arc(*a),
            JwwEntity::Point(p) => JwwEntityV::Point(*p),
            JwwEntity::Text(t) => JwwEntityV::Text(t@),
            JwwEntity::Solid(s) => JwwEntityV::Solid(*s),
            JwwEntity::CircleSolid(s) => JwwEntityV::CircleSolid(*s),
            JwwEntity::Block(b) => JwwEntityV::Block(*b),
            JwwEntity::Dimension(d) => JwwEntityV::Dimension(d@),
        }
    }
}

pub open spec fn jww_entities_view(s: Seq<JwwEntity>) -> Seq<JwwEntityV> {
    s.map_values(|e: JwwEntity| e@)
}

// ---------------------------------------------------------------------------
// Reader outcomes in the importer's terms
// ---------------------------------------------------------------------------

/// A decoding outcome of the importer together with the position reached.
pub type IParsed<T> = (Result<T, ImportErrorV>, int);

/// The importer's error for an error of the codec's reader. Reading only ever
/// fails by running out of input, which keeps its name; the codec's errors
/// of writing have no counterpart and never arise here.
pub open spec fn import_error_of(e: CodecErrorV) -> ImportErrorV {
    match e {
        CodecErrorV::UnexpectedEof(what) => ImportErrorV::UnexpectedEof(what),
        CodecErrorV::InvalidSignature => ImportErrorV::InvalidSignature,
        CodecErrorV::EntityListNotFound => ImportErrorV::EntityListNotFound,
        CodecErrorV::UnknownClassPid(pid) => ImportErrorV::UnknownClassPid(pid),
        CodecErrorV::UnknownEntityClass(name) => ImportErrorV::UnknownEntityClass(name),
        CodecErrorV::InvalidBlockDefinitionCount(n) => ImportErrorV::InvalidBlockDefinitionCount(n),
        _ => ImportErrorV::UnexpectedEof(""@),
    }
}

pub open spec fn lift<T>(r: Parsed<T>) -> IParsed<T> {
    match r {
        (Ok(v), q) => (Ok(v), q),
        (Err(e), q) => (Err(import_error_of(e)), q),
    }
}

pub open spec fn ires_plain<T>(r: Result<T, ImportError>) -> Result<T, ImportErrorV> {
    match r {
        Ok(v) => Ok(v),
        Err(e) => Err(e@),
    }
}

pub open spec fn ires_view<T: View>(r: Result<T, ImportError>) -> Result<T::V, ImportErrorV> {
    match r {
        Ok(v) => Ok(v@),
        Err(e) => Err(e@),
    }
}

fn import_error(e: CodecError) -> (out: ImportError)
    ensures
        out@ == import_error_of(e@),
{
    match e {
        CodecError::UnexpectedEof(what) => ImportError::UnexpectedEof(what),
        CodecError::InvalidSignature => ImportError::InvalidSignature,
        CodecError::EntityListNotFound => ImportError::EntityListNotFound,
        CodecError::UnknownClassPid(pid) => ImportError::UnknownClassPid(pid),
        CodecError::UnknownEntityClass(name) => ImportError::UnknownEntityClass(name),
        CodecError::InvalidBlockDefinitionCount(n) => ImportError::InvalidBlockDefinitionCount(n),
        _ => ImportError::UnexpectedEof(""),
    }
}

/// A reader result with its error in the importer's terms.
fn conv<T>(r: Result<T, CodecError>) -> (out: Result<T, ImportError>)
    ensures
        ires_plain(out) == lift((crate::codec::error::res_plain(r), 0int)).0,
{
    match r {
        Ok(v) => Ok(v),
        Err(e) => Err(import_error(e)),
    }
}

// ---------------------------------------------------------------------------
// Strings and records
// ---------------------------------------------------------------------------

/// A CP932 archive string decoded leniently, trailing NULs removed; a zero
/// length is the empty string.
pub open spec fn sp_lossy_cstring(d: Seq<u8>, p: int) -> Parsed<Seq<char>> {
    match sp_cstring_len(d, p) {
        (Err(e), q) => (Err(e), q),
        (Ok(len), q) => if len == 0 {
            (Ok(Seq::empty()), q)
        } else {
            match sp_take(d, q, len as int) {
                (Err(e), r) => (Err(e), r),
                (Ok(bytes), r) => (Ok(trim_trailing_nul(sjis_decode(bytes).0)), r),
            }
        },
    }
}

pub fn read_lossy_cstring(reader: &mut Reader<'_>) -> (res: Result<String, ImportError>)
    requires
        old(reader).wf(),
    ensures
        final(reader).wf(),
        final(reader).data() == old(reader).data(),
        (ires_view(res), final(reader).pos()) == lift(
            sp_lossy_cstring(old(reader).data(), old(reader).pos()),
        ),
{
    let first = conv(reader.read_u8())?;
    let len: u32 = if first < 0xff {
        first as u32
    } else {
        let word = conv(reader.read_u16())?;
        if word < 0xffff {
            word as u32
        } else {
            conv(reader.read_u32())?
        }
    };
    if len == 0 {
        return Ok(String::new());
    }
    let bytes = conv(reader.read_bytes(len as usize))?;
    let (decoded, _had_errors) = decode_sjis(bytes.as_slice());
    let trimmed = trim_nul_chars(&decoded);
    Ok(string_from_chars(trimmed.as_slice()))
}

pub open spec fn entity_base_of(b: DecodedBase) -> EntityBase {
    EntityBase {
        pen_style: b.pen_style,
        pen_color: b.pen_color,
        pen_width: b.pen_width,
        layer: b.layer,
        layer_group: b.layer_group,
    }
}

/// The record header; the group and flag fields are read and dropped.
pub open spec fn ip_base(d: Seq<u8>, p: int, version: u32) -> IParsed<EntityBase> {
    match lift(sp_base(d, p, version)) {
        (Err(e), q) => (Err(e), q),
        (Ok(b), q) => (Ok(entity_base_of(b)), q),
    }
}

pub open spec fn ip_line(d: Seq<u8>, p: int, version: u32) -> IParsed<Line> {
    match ip_base(d, p, version) {
        (Err(e), q) => (Err(e), q),
        (Ok(base), p1) => match lift(sp_f64s(d, p1, 4)) {
            (Err(e), q) => (Err(e), q),
            (Ok(v), p2) => (Ok(Line { base, start: [v[0], v[1]], end: [v[2], v[3]] }), p2),
        },
    }
}

pub open spec fn ip_arc(d: Seq<u8>, p: int, version: u32) -> IParsed<Arc> {
    match ip_base(d, p, version) {
        (Err(e), q) => (Err(e), q),
        (Ok(base), p1) => match lift(sp_f64s(d, p1, 7)) {
            (Err(e), q) => (Err(e), q),
            (Ok(v), p2) => match lift(sp_u32(d, p2)) {
                (Err(e), q) => (Err(e), q),
                (Ok(full), p3) => (
                    Ok(
                        Arc {
                            base,
                            center: [v[0], v[1]],
                            radius: v[2],
                            start_rad: v[3],
                            sweep_rad: v[4],
                            tilt_rad: v[5],
                            flatness: v[6],
                            is_full_circle: full != 0,
                        },
                    ),
                    p3,
                ),
            },
        },
    }
}

/// A point: its position and temporary flag are read and dropped, and so is
/// the marker (code, rotation, scale) that follows when the pen style is 100.
pub open spec fn ip_point(d: Seq<u8>, p: int, version: u32) -> IParsed<Point> {
    match ip_base(d, p, version) {
        (Err(e), q) => (Err(e), q),
        (Ok(base), p1) => match lift(sp_f64s(d, p1, 2)) {
            (Err(e), q) => (Err(e), q),
            (Ok(_at), p2) => match lift(sp_u32(d, p2)) {
                (Err(e), q) => (Err(e), q),
                (Ok(_temporary), p3) => if base.pen_style == 100 {
                    match lift(sp_u32(d, p3)) {
                        (Err(e), q) => (Err(e), q),
                        (Ok(_code), p4) => match lift(sp_f64s(d, p4, 2)) {
                            (Err(e), q) => (Err(e), q),
                            (Ok(_m), p5) => (Ok(Point { base }), p5),
                        },
                    }
                } else {
                    (Ok(Point { base }), p3)
                },
            },
        },
    }
}

/// A text: start and end corners (the end is dropped), the text type
/// (dropped), size, spacing, angle, font name and content.
pub open spec fn ip_text(d: Seq<u8>, p: int, version: u32) -> IParsed<TextV> {
    match ip_base(d, p, version) {
        (Err(e), q) => (Err(e), q),
        (Ok(base), p1) => match lift(sp_f64s(d, p1, 4)) {
            (Err(e), q) => (Err(e), q),
            (Ok(c), p2) => match lift(sp_u32(d, p2)) {
                (Err(e), q) => (Err(e), q),
                (Ok(_text_type), p3) => match lift(sp_f64s(d, p3, 4)) {
                    (Err(e), q) => (Err(e), q),
                    (Ok(s), p4) => match lift(sp_lossy_cstring(d, p4)) {
                        (Err(e), q) => (Err(e), q),
                        (Ok(font_name), p5) => match lift(sp_lossy_cstring(d, p5)) {
                            (Err(e), q) => (Err(e), q),
                            (Ok(content), p6) => (
                                Ok(
                                    TextV {
                                        base,
                                        start: [c[0], c[1]],
                                        size_x: s[0],
                                        size_y: s[1],
                                        spacing: s[2],
                                        angle: s[3],
                                        mirror_y: false,
                                        font_name,
                                        content,
                                    },
                                ),
                                p6,
                            ),
                        },
                    },
                },
            },
        },
    }
}

/// A solid: eight doubles and, when the pen color is 10, a color are read and
/// dropped; a pen style of at least 101 marks a circle solid.
pub open spec fn ip_solid(d: Seq<u8>, p: int, version: u32) -> IParsed<JwwEntityV> {
    match ip_base(d, p, version) {
        (Err(e), q) => (Err(e), q),
        (Ok(base), p1) => match lift(sp_f64s(d, p1, 8)) {
            (Err(e), q) => (Err(e), q),
            (Ok(_v), p2) => match lift(sp_solid_color(d, p2, base.pen_color)) {
                (Err(e), q) => (Err(e), q),
                (Ok(_color), p3) => if base.pen_style >= 101 {
                    (Ok(JwwEntityV::CircleSolid(CircleSolid { base })), p3)
                } else {
                    (Ok(JwwEntityV::Solid(Solid { base })), p3)
                },
            },
        },
    }
}

pub open spec fn ip_block(d: Seq<u8>, p: int, version: u32) -> IParsed<Block> {
    match ip_base(d, p, version) {
        (Err(e), q) => (Err(e), q),
        (Ok(base), p1) => match lift(sp_f64s(d, p1, 5)) {
            (Err(e), q) => (Err(e), q),
            (Ok(v), p2) => match lift(sp_u32(d, p2)) {
                (Err(e), q) => (Err(e), q),
                (Ok(def_number), p3) => (
                    Ok(
                        Block {
                            base,
                            ref_x: v[0],
                            ref_y: v[1],
                            scale_x: v[2],
                            scale_y: v[3],
                            rotation: v[4],
                            def_number,
                        },
                    ),
                    p3,
                ),
            },
        },
    }
}

/// From version 4.20 on a dimension ends with an SXF mode, two auxiliary
/// lines and four auxiliary points, all read and dropped.
pub open spec fn ip_dimension_aux(d: Seq<u8>, p: int, version: u32) -> IParsed<()> {
    if version >= 420 {
        match lift(sp_u16(d, p)) {
            (Err(e), q) => (Err(e), q),
            (Ok(_sxf), p1) => match ip_line(d, p1, version) {
                (Err(e), q) => (Err(e), q),
                (Ok(_), p2) => match ip_line(d, p2, version) {
                    (Err(e), q) => (Err(e), q),
                    (Ok(_), p3) => match ip_point(d, p3, version) {
                        (Err(e), q) => (Err(e), q),
                        (Ok(_), p4) => match ip_point(d, p4, version) {
                            (Err(e), q) => (Err(e), q),
                            (Ok(_), p5) => match ip_point(d, p5, version) {
                                (Err(e), q) => (Err(e), q),
                                (Ok(_), p6) => match ip_point(d, p6, version) {
                                    (Err(e), q) => (Err(e), q),
                                    (Ok(_), p7) => (Ok(()), p7),
                                },
                            },
                        },
                    },
                },
            },
        }
    } else {
        (Ok(()), p)
    }
}

pub open spec fn ip_dimension(d: Seq<u8>, p: int, version: u32) -> IParsed<DimensionV> {
    match ip_base(d, p, version) {
        (Err(e), q) => (Err(e), q),
        (Ok(base), p1) => match ip_line(d, p1, version) {
            (Err(e), q) => (Err(e), q),
            (Ok(line), p2) => match ip_text(d, p2, version) {
                (Err(e), q) => (Err(e), q),
                (Ok(text), p3) => match ip_dimension_aux(d, p3, version) {
                    (Err(e), q) => (Err(e), q),
                    (Ok(_), p4) => (Ok(DimensionV { base, line, text }), p4),
                },
            },
        },
    }
}

fn entity_base_from(b: DecodedBase) -> (base: EntityBase)
    ensures
        base == entity_base_of(b),
{
    EntityBase {
        pen_style: b.pen_style,
        pen_color: b.pen_color,
        pen_width: b.pen_width,
        layer: b.layer,
        layer_group: b.layer_group,
    }
}

pub fn parse_entity_base(reader: &mut Reader<'_>, version: u32) -> (res: Result<
    EntityBase,
    ImportError,
>)
    requires
        old(reader).wf(),
    ensures
        final(reader).wf(),
        final(reader).data() == old(reader).data(),
        (ires_plain(res), final(reader).pos()) == ip_base(
            old(reader).data(),
            old(reader).pos(),
            version,
        ),
{
    let b = conv(read_base(reader, version))?;
    Ok(entity_base_from(b))
}

pub fn parse_line(reader: &mut Reader<'_>, version: u32) -> (res: Result<Line, ImportError>)
    requires
        old(reader).wf(),
    ensures
        final(reader).wf(),
        final(reader).data() == old(reader).data(),
        (ires_plain(res), final(reader).pos()) == ip_line(
            old(reader).data(),
            old(reader).pos(),
            version,
        ),
{
    let base = parse_entity_base(reader, version)?;
    let v = conv(reader.read_f64s(4))?;
    Ok(Line { base, start: [v[0], v[1]], end: [v[2], v[3]] })
}

pub fn parse_arc(reader: &mut Reader<'_>, version: u32) -> (res: Result<Arc, ImportError>)
    requires
        old(reader).wf(),
    ensures
        final(reader).wf(),
        final(reader).data() == old(reader).data(),
        (ires_plain(res), final(reader).pos()) == ip_arc(
            old(reader).data(),
            old(reader).pos(),
            version,
        ),
{
    let base = parse_entity_base(reader, version)?;
    let v = conv(reader.read_f64s(7))?;
    let full = conv(reader.read_u32())?;
    Ok(
        Arc {
            base,
            center: [v[0], v[1]],
            radius: v[2],
            start_rad: v[3],
            sweep_rad: v[4],
            tilt_rad: v[5],
            flatness: v[6],
            is_full_circle: full != 0,
        },
    )
}

pub fn parse_point(reader: &mut Reader<'_>, version: u32) -> (res: Result<Point, ImportError>)
    requires
        old(reader).wf(),
    ensures
        final(reader).wf(),
        final(reader).data() == old(reader).data(),
        (ires_plain(res), final(reader).pos()) == ip_point(
            old(reader).data(),
            old(reader).pos(),
            version,
        ),
{
    let base = parse_entity_base(reader, version)?;
    let _at = conv(reader.read_f64s(2))?;
    let _is_temporary = conv(reader.read_u32())?;
    if base.pen_style == 100 {
        let _code = conv(reader.read_u32())?;
        let _marker = conv(reader.read_f64s(2))?;
    }
    Ok(Point { base })
}

pub fn parse_text(reader: &mut Reader<'_>, version: u32) -> (res: Result<Text, ImportError>)
    requires
        old(reader).wf(),
    ensures
        final(reader).wf(),
        final(reader).data() == old(reader).data(),
        (ires_view(res), final(reader).pos()) == ip_text(
            old(reader).data(),
            old(reader).pos(),
            version,
        ),
{
    let base = parse_entity_base(reader, version)?;
    let c = conv(reader.read_f64s(4))?;
    let _text_type = conv(reader.read_u32())?;
    let s = conv(reader.read_f64s(4))?;
    let font_name = read_lossy_cstring(reader)?;
    let content = read_lossy_cstring(reader)?;
    Ok(
        Text {
            base,
            start: [c[0], c[1]],
            size_x: s[0],
            size_y: s[1],
            spacing: s[2],
            angle: s[3],
            mirror_y: false,
            font_name,
            content,
        },
    )
}

pub fn parse_solid(reader: &mut Reader<'_>, version: u32) -> (res: Result<JwwEntity, ImportError>)
    requires
        old(reader).wf(),
    ensures
        final(reader).wf(),
        final(reader).data() == old(reader).data(),
        (ires_view(res), final(reader).pos()) == ip_solid(
            old(reader).data(),
            old(reader).pos(),
            version,
        ),
{
    let base = parse_entity_base(reader, version)?;
    let _corners = conv(reader.read_f64s(8))?;
    if base.pen_color == 10 {
        let _color = conv(reader.read_u32())?;
    }
    if base.pen_style >= 101 {
        Ok(JwwEntity::CircleSolid(CircleSolid { base }))
    } else {
        Ok(JwwEntity::Solid(Solid { base }))
    }
}

pub fn parse_block(reader: &mut Reader<'_>, version: u32) -> (res: Result<Block, ImportError>)
    requires
        old(reader).wf(),
    ensures
        final(reader).wf(),
        final(reader).data() == old(reader).data(),
        (ires_plain(res), final(reader).pos()) == ip_block(
            old(reader).data(),
            old(reader).pos(),
            version,
        ),
{
    let base = parse_entity_base(reader, version)?;
    let v = conv(reader.read_f64s(5))?;
    let def_number = conv(reader.read_u32())?;
    Ok(
        Block {
            base,
            ref_x: v[0],
            ref_y: v[1],
            scale_x: v[2],
            scale_y: v[3],
            rotation: v[4],
            def_number,
        },
    )
}

pub fn parse_dimension(reader: &mut Reader<'_>, version: u32) -> (res: Result<
    Dimension,
    ImportError,
>)
    requires
        old(reader).wf(),
    ensures
        final(reader).wf(),
        final(reader).data() == old(reader).data(),
        (ires_view(res), final(reader).pos()) == ip_dimension(
            old(reader).data(),
            old(reader).pos(),
            version,
        ),
{
    let base = parse_entity_base(reader, version)?;
    let line = parse_line(reader, version)?;
    let text = parse_text(reader, version)?;
    if version >= 420 {
        let _sxf_mode = conv(reader.read_u16())?;
        let _aux_line0 = parse_line(reader, version)?;
        let _aux_line1 = parse_line(reader, version)?;
        let _aux_point0 = parse_point(reader, version)?;
        let _aux_point1 = parse_point(reader, version)?;
        let _aux_point2 = parse_point(reader, version)?;
        let _aux_point3 = parse_point(reader, version)?;
    }
    Ok(Dimension { base, line, text })
}

// ---------------------------------------------------------------------------
// Entity lists
// ---------------------------------------------------------------------------

/// The body of an entity record whose class has been resolved; a class the
/// importer does not know is fatal, since its length is unknown.
#[verifier::opaque]
pub open spec fn ip_entity_body(d: Seq<u8>, p: int, version: u32, name: Seq<char>) -> IParsed<
    JwwEntityV,
> {
    match spec_entity_class(name) {
        Some(SupportedEntityClass::Line) => match ip_line(d, p, version) {
            (Ok(v), q) => (Ok(JwwEntityV::Line(v)), q),
            (Err(e), q) => (Err(e), q),
        },
        Some(SupportedEntityClass::Arc) => match ip_arc(d, p, version) {
            (Ok(v), q) => (Ok(JwwEntityV::Arc(v)), q),
            (Err(e), q) => (Err(e), q),
        },
        Some(SupportedEntityClass::Point) => match ip_point(d, p, version) {
            (Ok(v), q) => (Ok(JwwEntityV::Point(v)), q),
            (Err(e), q) => (Err(e), q),
        },
        Some(SupportedEntityClass::Text) => match ip_text(d, p, version) {
            (Ok(v), q) => (Ok(JwwEntityV::Text(v)), q),
            (Err(e), q) => (Err(e), q),
        },
        Some(SupportedEntityClass::Solid) => ip_solid(d, p, version),
        Some(SupportedEntityClass::Block) => match ip_block(d, p, version) {
            (Ok(v), q) => (Ok(JwwEntityV::Block(v)), q),
            (Err(e), q) => (Err(e), q),
        },
        Some(SupportedEntityClass::Dimension) => match ip_dimension(d, p, version) {
            (Ok(v), q) => (Ok(JwwEntityV::Dimension(v)), q),
            (Err(e), q) => (Err(e), q),
        },
        None => (Err(ImportErrorV::UnknownEntityClass(name)), p),
    }
}

/// One archive slot: the entity (none for a null reference), the class table
/// and the next archive id afterwards.
pub type ImportStep = (Option<JwwEntityV>, ClassTableV, u32);

/// An entity slot: a class declaration (0xffff, schema, name bytes read as
/// UTF-8 leniently), a null reference (0x8000), or a reference to a declared
/// class (id | 0x8000). A declaration and each object read take one id.
#[verifier::opaque]
pub open spec fn ip_entity(
    d: Seq<u8>,
    p: int,
    version: u32,
    t: ClassTableV,
    next_pid: u32,
) -> IParsed<ImportStep> {
    match lift(sp_u16(d, p)) {
        (Err(e), q) => (Err(e), q),
        (Ok(class_id), p1) => if class_id == 0xffff {
            match lift(sp_u16(d, p1)) {
                (Err(e), q) => (Err(e), q),
                (Ok(_schema), p2) => match lift(sp_u16(d, p2)) {
                    (Err(e), q) => (Err(e), q),
                    (Ok(name_len), p3) => match lift(sp_take(d, p3, name_len as int)) {
                        (Err(e), q) => (Err(e), q),
                        (Ok(bytes), p4) => {
                            let name = utf8_lossy(bytes);
                            match ip_entity_body(d, p4, version, name) {
                                (Err(e), q) => (Err(e), q),
                                (Ok(entity), q) => (
                                    Ok((Some(entity), t.push((next_pid, name)), (next_pid + 2) as u32)),
                                    q,
                                ),
                            }
                        },
                    },
                },
            }
        } else if class_id == 0x8000 {
            (Ok((None, t, next_pid)), p1)
        } else {
            let pid = (class_id & 0x7fff) as u32;
            match class_lookup(t, pid) {
                None => (Err(ImportErrorV::UnknownClassPid(pid)), p1),
                Some(name) => match ip_entity_body(d, p1, version, name) {
                    (Err(e), q) => (Err(e), q),
                    (Ok(entity), q) => (Ok((Some(entity), t, (next_pid + 1) as u32)), q),
                },
            }
        },
    }
}

/// Prefixes the items of a successful outcome.
pub open spec fn iglue<A>(acc: Seq<A>, r: IParsed<Seq<A>>) -> IParsed<Seq<A>> {
    match r {
        (Ok(items), q) => (Ok(acc + items), q),
        (Err(e), q) => (Err(e), q),
    }
}

pub proof fn lemma_iglue_iglue<A>(a: Seq<A>, b: Seq<A>, r: IParsed<Seq<A>>)
    ensures
        iglue(a, iglue(b, r)) == iglue(a + b, r),
{
    match r {
        (Ok(items), q) => {
            assert(a + (b + items) =~= (a + b) + items);
        },
        (Err(e), q) => {},
    }
}

pub proof fn lemma_iglue_empty<A>(r: IParsed<Seq<A>>)
    ensures
        iglue(Seq::empty(), r) == r,
{
    match r {
        (Ok(items), q) => {
            assert(Seq::<A>::empty() + items =~= items);
        },
        (Err(e), q) => {},
    }
}

/// `count` consecutive entity slots.
pub open spec fn ip_entities(
    d: Seq<u8>,
    p: int,
    version: u32,
    count: nat,
    t: ClassTableV,
    next_pid: u32,
) -> IParsed<Seq<JwwEntityV>>
    decreases count,
{
    if count == 0 {
        (Ok(Seq::empty()), p)
    } else {
        match ip_entity(d, p, version, t, next_pid) {
            (Err(e), q) => (Err(e), q),
            (Ok((entity, t2, np2)), q) => iglue(
                opt_seq(entity),
                ip_entities(d, q, version, (count - 1) as nat, t2, np2),
            ),
        }
    }
}

/// An entity list: a 16-bit count, then that many slots with a fresh class
/// table whose first archive id is 1.
pub open spec fn ip_entity_list(d: Seq<u8>, p: int, version: u32) -> IParsed<Seq<JwwEntityV>> {
    match lift(sp_u16(d, p)) {
        (Err(e), q) => (Err(e), q),
        (Ok(count), q) => ip_entities(d, q, version, count as nat, Seq::empty(), 1),
    }
}

fn parse_entity_body(reader: &mut Reader<'_>, version: u32, class_name: &String) -> (res: Result<
    JwwEntity,
    ImportError,
>)
    requires
        old(reader).wf(),
    ensures
        final(reader).wf(),
        final(reader).data() == old(reader).data(),
        (ires_view(res), final(reader).pos()) == ip_entity_body(
            old(reader).data(),
            old(reader).pos(),
            version,
            class_name@,
        ),
{
    reveal(ip_entity_body);
    match supported_entity_class(class_name.as_str()) {
        Some(SupportedEntityClass::Line) => Ok(JwwEntity::Line(parse_line(reader, version)?)),
        Some(SupportedEntityClass::Arc) => Ok(JwwEntity::Arc(parse_arc(reader, version)?)),
        Some(SupportedEntityClass::Point) => Ok(JwwEntity::Point(parse_point(reader, version)?)),
        Some(SupportedEntityClass::Text) => Ok(JwwEntity::Text(parse_text(reader, version)?)),
        Some(SupportedEntityClass::Solid) => parse_solid(reader, version),
        Some(SupportedEntityClass::Block) => Ok(JwwEntity::Block(parse_block(reader, version)?)),
        Some(SupportedEntityClass::Dimension) => Ok(
            JwwEntity::Dimension(parse_dimension(reader, version)?),
        ),
        None => Err(ImportError::UnknownEntityClass(class_name.clone())),
    }
}

pub open spec fn opt_jww_view(o: Option<JwwEntity>) -> Option<JwwEntityV> {
    match o {
        Some(e) => Some(e@),
        None => None,
    }
}

/// Reads one archive slot, keeping the class table and the next archive id.
pub fn parse_entity_with_pid_tracking(
    reader: &mut Reader<'_>,
    version: u32,
    pid_to_class_name: &mut Vec<(u32, String)>,
    next_pid: u32,
) -> (res: Result<(Option<JwwEntity>, u32), ImportError>)
    requires
        old(reader).wf(),
        next_pid <= u32::MAX - 2,
    ensures
        final(reader).wf(),
        final(reader).data() == old(reader).data(),
        ({
            let (r, q) = ip_entity(
                old(reader).data(),
                old(reader).pos(),
                version,
                class_table_view(old(pid_to_class_name)@),
                next_pid,
            );
            &&& final(reader).pos() == q
            &&& match (res, r) {
                (Ok((entity, np)), Ok((e, t, np2))) => opt_jww_view(entity) == e
                    && class_table_view(final(pid_to_class_name)@) == t && np == np2,
                (Err(x), Err(y)) => x@ == y,
                _ => false,
            }
        }),
        res matches Ok((_, np)) ==> np <= next_pid + 2,
{
    reveal(ip_entity);
    let class_id = conv(reader.read_u16())?;
    if class_id == 0xffff {
        let _schema_version = conv(reader.read_u16())?;
        let name_len = conv(reader.read_u16())?;
        let bytes = conv(reader.read_bytes(name_len as usize))?;
        let name = lossy_utf8(bytes.as_slice());
        let ghost old_table = pid_to_class_name@;
        pid_to_class_name.push((next_pid, name.clone()));
        assert(class_table_view(pid_to_class_name@) =~= class_table_view(old_table).push(
            (next_pid, utf8_lossy(bytes@)),
        ));
        let entity = parse_entity_body(reader, version, &name)?;
        Ok((Some(entity), next_pid + 2))
    } else if class_id == 0x8000 {
        Ok((None, next_pid))
    } else {
        let class_pid = (class_id & 0x7fff) as u32;
        let class_name = match lookup_class(pid_to_class_name, class_pid) {
            Some(name) => name,
            None => return Err(ImportError::UnknownClassPid(class_pid)),
        };
        let entity = parse_entity_body(reader, version, &class_name)?;
        Ok((Some(entity), next_pid + 1))
    }
}

/// Reads a 16-bit entity count and that many archive slots; null references
/// yield no entity.
pub fn parse_entity_list(reader: &mut Reader<'_>, version: u32) -> (res: Result<
    Vec<JwwEntity>,
    ImportError,
>)
    requires
        old(reader).wf(),
    ensures
        final(reader).wf(),
        final(reader).data() == old(reader).data(),
        ({
            let (r, q) = ip_entity_list(old(reader).data(), old(reader).pos(), version);
            match (res, r) {
                (Ok(v), Ok(s)) => jww_entities_view(v@) == s && final(reader).pos() == q,
                (Err(x), Err(y)) => x@ == y,
                _ => false,
            }
        }),
{
    let ghost d = reader.data();
    let count = conv(reader.read_u16())?;
    let ghost p0 = reader.pos();
    let mut entities: Vec<JwwEntity> = Vec::new();
    let mut pid_to_class_name: Vec<(u32, String)> = Vec::new();
    let mut next_pid: u32 = 1;
    let mut i: u16 = 0;
    assert(class_table_view(pid_to_class_name@) =~= Seq::empty());
    assert(jww_entities_view(entities@) =~= Seq::empty());
    proof {
        lemma_iglue_empty(ip_entities(d, p0, version, count as nat, Seq::empty(), 1));
    }
    while i < count
        invariant
            reader.wf(),
            reader.data() == d,
            d == old(reader).data(),
            ip_entity_list(d, old(reader).pos(), version) == ip_entities(
                d,
                p0,
                version,
                count as nat,
                Seq::empty(),
                1,
            ),
            i <= count,
            next_pid <= 1 + 2 * (i as int),
            ip_entities(d, p0, version, count as nat, Seq::empty(), 1) == iglue(
                jww_entities_view(entities@),
                ip_entities(
                    d,
                    reader.pos(),
                    version,
                    (count - i) as nat,
                    class_table_view(pid_to_class_name@),
                    next_pid,
                ),
            ),
        decreases count - i,
    {
        let ghost before = jww_entities_view(entities@);
        let ghost t = class_table_view(pid_to_class_name@);
        let ghost pos = reader.pos();
        let (entity, new_pid) = parse_entity_with_pid_tracking(
            reader,
            version,
            &mut pid_to_class_name,
            next_pid,
        )?;
        proof {
            let (r, q) = ip_entity(d, pos, version, t, next_pid);
            lemma_iglue_iglue(
                before,
                opt_seq(opt_jww_view(entity)),
                ip_entities(
                    d,
                    q,
                    version,
                    (count - i - 1) as nat,
                    class_table_view(pid_to_class_name@),
                    new_pid,
                ),
            );
        }
        next_pid = new_pid;
        match entity {
            Some(e) => {
                entities.push(e);
                assert(jww_entities_view(entities@) =~= before + opt_seq(opt_jww_view(Some(e))));
            },
            None => {
                assert(jww_entities_view(entities@) =~= before + opt_seq(opt_jww_view(None)));
            },
        }
        i = i + 1;
    }
    assert(jww_entities_view(entities@) + Seq::empty() =~= jww_entities_view(entities@));
    Ok(entities)
}

// ---------------------------------------------------------------------------
// Block definitions
// ---------------------------------------------------------------------------

#[derive(Debug, Clone)]
pub struct BlockDef {
    pub number: u32,
    pub name: String,
    pub entities: Vec<JwwEntity>,
}

pub struct BlockDefV {
    pub number: u32,
    pub name: Seq<char>,
    pub entities: Seq<JwwEntityV>,
}

impl View for BlockDef {
    type V = BlockDefV;

    open spec fn view(&self) -> BlockDefV {
        BlockDefV { number: self.number, name: self.name@, entities: jww_entities_view(self.entities@) }
    }
}

pub open spec fn block_defs_view(s: Seq<BlockDef>) -> Seq<BlockDefV> {
    s.map_values(|b: BlockDef| b@)
}

/// The fields of a block definition after its class reference: the record
/// header, the number, the referenced flag, four reserved bytes, the name
/// and the definition's own entity list.
pub open spec fn ip_block_def_body(d: Seq<u8>, p: int, version: u32) -> IParsed<BlockDefV> {
    match ip_base(d, p, version) {
        (Err(e), q) => (Err(e), q),
        (Ok(_base), p1) => match lift(sp_u32(d, p1)) {
            (Err(e), q) => (Err(e), q),
            (Ok(number), p2) => match lift(sp_u32(d, p2)) {
                (Err(e), q) => (Err(e), q),
                (Ok(_is_referenced), p3) => match lift(sp_skip(d, p3, 4)) {
                    (Err(e), q) => (Err(e), q),
                    (Ok(_), p4) => match lift(sp_lossy_cstring(d, p4)) {
                        (Err(e), q) => (Err(e), q),
                        (Ok(name), p5) => match ip_entity_list(d, p5, version) {
                            (Err(e), q) => (Err(e), q),
                            (Ok(entities), p6) => (Ok(BlockDefV { number, name, entities }), p6),
                        },
                    },
                },
            },
        },
    }
}

/// One block definition slot: the definition (none for a null reference),
/// the class table and the next archive id.
pub type ImportBlockStep = (Option<BlockDefV>, ClassTableV, u32);

/// A block definition slot. A class declaration is recorded in the table;
/// any other class reference is taken as a block definition without a look
/// at the table.
#[verifier::opaque]
pub open spec fn ip_block_def(
    d: Seq<u8>,
    p: int,
    version: u32,
    t: ClassTableV,
    next_id: u32,
) -> IParsed<ImportBlockStep> {
    match lift(sp_u16(d, p)) {
        (Err(e), q) => (Err(e), q),
        (Ok(class_id), p1) => if class_id == 0xffff {
            match lift(sp_u16(d, p1)) {
                (Err(e), q) => (Err(e), q),
                (Ok(_schema), p2) => match lift(sp_u16(d, p2)) {
                    (Err(e), q) => (Err(e), q),
                    (Ok(name_len), p3) => match lift(sp_take(d, p3, name_len as int)) {
                        (Err(e), q) => (Err(e), q),
                        (Ok(bytes), p4) => match ip_block_def_body(d, p4, version) {
                            (Err(e), q) => (Err(e), q),
                            (Ok(b), q) => (
                                Ok((Some(b), t.push((next_id, utf8_lossy(bytes))), (next_id + 1) as u32)),
                                q,
                            ),
                        },
                    },
                },
            }
        } else if class_id == 0x8000 {
            (Ok((None, t, next_id)), p1)
        } else {
            match ip_block_def_body(d, p1, version) {
                (Err(e), q) => (Err(e), q),
                (Ok(b), q) => (Ok((Some(b), t, next_id)), q),
            }
        },
    }
}

pub open spec fn ip_block_defs(
    d: Seq<u8>,
    p: int,
    version: u32,
    count: nat,
    t: ClassTableV,
    next_id: u32,
) -> IParsed<Seq<BlockDefV>>
    decreases count,
{
    if count == 0 {
        (Ok(Seq::empty()), p)
    } else {
        match ip_block_def(d, p, version, t, next_id) {
            (Err(e), q) => (Err(e), q),
            (Ok((def, t2, n2)), q) => iglue(
                opt_seq(def),
                ip_block_defs(d, q, version, (count - 1) as nat, t2, n2),
            ),
        }
    }
}

/// A block definition list: a 32-bit count of at most 10000, then that many
/// slots.
pub open spec fn ip_block_def_list(d: Seq<u8>, version: u32) -> Result<Seq<BlockDefV>, ImportErrorV> {
    match lift(sp_u32(d, 0)) {
        (Err(e), _) => Err(e),
        (Ok(count), p1) => if count > 10000 {
            Err(ImportErrorV::InvalidBlockDefinitionCount(count))
        } else {
            ip_block_defs(d, p1, version, count as nat, Seq::empty(), 1).0
        },
    }
}

fn parse_block_def_body(reader: &mut Reader<'_>, version: u32) -> (res: Result<BlockDef, ImportError>)
    requires
        old(reader).wf(),
    ensures
        final(reader).wf(),
        final(reader).data() == old(reader).data(),
        ({
            let (r, q) = ip_block_def_body(old(reader).data(), old(reader).pos(), version);
            match (res, r) {
                (Ok(b), Ok(s)) => b@ == s && final(reader).pos() == q,
                (Err(x), Err(y)) => x@ == y,
                _ => false,
            }
        }),
{
    let _base = parse_entity_base(reader, version)?;
    let number = conv(reader.read_u32())?;
    let _is_referenced = conv(reader.read_u32())? != 0;
    conv(reader.skip(4))?;
    let name = read_lossy_cstring(reader)?;
    let entities = parse_entity_list(reader, version)?;
    Ok(BlockDef { number, name, entities })
}

pub open spec fn opt_block_def_view(o: Option<BlockDef>) -> Option<BlockDefV> {
    match o {
        Some(b) => Some(b@),
        None => None,
    }
}

/// Reads one block definition slot, recording a class declaration.
pub fn parse_block_def_with_tracking(
    reader: &mut Reader<'_>,
    version: u32,
    class_map: &mut Vec<(u32, String)>,
    next_id: u32,
) -> (res: Result<(Option<BlockDef>, u32), ImportError>)
    requires
        old(reader).wf(),
        next_id < u32::MAX,
    ensures
        final(reader).wf(),
        final(reader).data() == old(reader).data(),
        ({
            let (r, q) = ip_block_def(
                old(reader).data(),
                old(reader).pos(),
                version,
                class_table_view(old(class_map)@),
                next_id,
            );
            match (res, r) {
                (Ok((def, n)), Ok((b, t, n2))) => opt_block_def_view(def) == b
                    && class_table_view(final(class_map)@) == t && n == n2
                    && final(reader).pos() == q,
                (Err(x), Err(y)) => x@ == y,
                _ => false,
            }
        }),
        res matches Ok((_, n)) ==> n <= next_id + 1,
{
    reveal(ip_block_def);
    let class_id = conv(reader.read_u16())?;
    let mut next = next_id;
    if class_id == 0xffff {
        let _schema = conv(reader.read_u16())?;
        let name_len = conv(reader.read_u16())?;
        let bytes = conv(reader.read_bytes(name_len as usize))?;
        let class_name = lossy_utf8(bytes.as_slice());
        let ghost old_table = class_map@;
        class_map.push((next_id, class_name));
        assert(class_table_view(class_map@) =~= class_table_view(old_table).push(
            (next_id, utf8_lossy(bytes@)),
        ));
        next = next_id + 1;
    } else if class_id == 0x8000 {
        return Ok((None, next_id));
    }
    let block_def = parse_block_def_body(reader, version)?;
    Ok((Some(block_def), next))
}

/// Reads a block definition list from the start of `data`.
pub fn parse_block_def_list(data: &[u8], version: u32) -> (res: Result<Vec<BlockDef>, ImportError>)
    ensures
        match (res, ip_block_def_list(data@, version)) {
            (Ok(v), Ok(s)) => block_defs_view(v@) == s,
            (Err(x), Err(y)) => x@ == y,
            _ => false,
        },
{
    let mut reader = Reader::new(data);
    let ghost d = data@;
    let count = conv(reader.read_u32())?;
    if count > 10_000 {
        return Err(ImportError::InvalidBlockDefinitionCount(count));
    }
    let ghost p1 = reader.pos();
    let mut block_defs: Vec<BlockDef> = Vec::new();
    let mut class_map: Vec<(u32, String)> = Vec::new();
    let mut next_id: u32 = 1;
    let mut i: u32 = 0;
    assert(class_table_view(class_map@) =~= Seq::empty());
    assert(block_defs_view(block_defs@) =~= Seq::empty());
    proof {
        lemma_iglue_empty(ip_block_defs(d, p1, version, count as nat, Seq::empty(), 1));
    }
    while i < count
        invariant
            reader.wf(),
            reader.data() == d,
            d == data@,
            count <= 10_000,
            ip_block_def_list(d, version) == ip_block_defs(
                d,
                p1,
                version,
                count as nat,
                Seq::empty(),
                1,
            ).0,
            i <= count,
            next_id <= 1 + i,
            ip_block_defs(d, p1, version, count as nat, Seq::empty(), 1) == iglue(
                block_defs_view(block_defs@),
                ip_block_defs(
                    d,
                    reader.pos(),
                    version,
                    (count - i) as nat,
                    class_table_view(class_map@),
                    next_id,
                ),
            ),
        decreases count - i,
    {
        let ghost before = block_defs_view(block_defs@);
        let ghost t = class_table_view(class_map@);
        let ghost pos = reader.pos();
        let (block_def, new_next) = match parse_block_def_with_tracking(
            &mut reader,
            version,
            &mut class_map,
            next_id,
        ) {
            Ok(step) => step,
            Err(e) => return Err(e),
        };
        proof {
            let (r, q) = ip_block_def(d, pos, version, t, next_id);
            lemma_iglue_iglue(
                before,
                opt_seq(opt_block_def_view(block_def)),
                ip_block_defs(
                    d,
                    q,
                    version,
                    (count - i - 1) as nat,
                    class_table_view(class_map@),
                    new_next,
                ),
            );
        }
        next_id = new_next;
        match block_def {
            Some(b) => {
                block_defs.push(b);
                assert(block_defs_view(block_defs@) =~= before + opt_seq(opt_block_def_view(Some(b))));
            },
            None => {
                assert(block_defs_view(block_defs@) =~= before + opt_seq(opt_block_def_view(None)));
            },
        }
        i = i + 1;
    }
    assert(block_defs_view(block_defs@) + Seq::empty() =~= block_defs_view(block_defs@));
    Ok(block_defs)
}

// ---------------------------------------------------------------------------
// Header
// ---------------------------------------------------------------------------

/// The header fields the importer keeps. The layer groups are those of the
/// codec's header: names (defaults filled in), scale and the protection
/// fields, which the importer does not look at.
#[derive(Debug, Clone)]
pub struct JwwHeader {
    pub version: u32,
    pub memo: String,
    pub paper_size: u32,
    pub layer_groups: Vec<DecodedLayerGroup>,
}

/// Sixteen layer groups of sixteen layers each.
pub open spec fn groups_shape(gs: Seq<DecodedLayerGroup>) -> bool {
    &&& gs.len() == 16
    &&& forall|g: int| 0 <= g < 16 ==> (#[trigger] gs[g]).layers@.len() == 16
}

pub struct JwwHeaderV {
    pub version: u32,
    pub memo: Seq<char>,
    pub paper_size: u32,
    pub layer_groups: Seq<DecodedLayerGroupV>,
}

impl View for JwwHeader {
    type V = JwwHeaderV;

    open spec fn view(&self) -> JwwHeaderV {
        JwwHeaderV {
            version: self.version,
            memo: self.memo@,
            paper_size: self.paper_size,
            layer_groups: self.layer_groups@.map_values(|g: DecodedLayerGroup| g@),
        }
    }
}

pub open spec fn ip_lossy_cstrings(d: Seq<u8>, p: int, n: nat) -> IParsed<Seq<Seq<char>>>
    decreases n,
{
    if n == 0 {
        (Ok(Seq::empty()), p)
    } else {
        match ip_lossy_cstrings(d, p, (n - 1) as nat) {
            (Err(e), q) => (Err(e), q),
            (Ok(ss), q) => match lift(sp_lossy_cstring(d, q)) {
                (Err(e), r) => (Err(e), r),
                (Ok(s), r) => (Ok(ss.push(s)), r),
            },
        }
    }
}

/// The 256 layer names (group by group) and the 16 group names, after 156
/// bytes of settings. Versions before 3.00 have none.
pub open spec fn ip_layer_names(d: Seq<u8>, p: int, version: u32) -> IParsed<Seq<Seq<char>>> {
    if version < 300 {
        (Err(ImportErrorV::UnexpectedEof("layer names"@)), p)
    } else {
        match lift(sp_skip(d, p, 84)) {
            (Err(e), q) => (Err(e), q),
            (Ok(_), q) => match lift(sp_skip(d, q, 72)) {
                (Err(e), r) => (Err(e), r),
                (Ok(_), r) => ip_lossy_cstrings(d, r, 272),
            },
        }
    }
}

/// The header: the signature, the version, the memo, the paper size, the
/// active group (dropped) and the sixteen layer groups. When the layer names
/// cannot be read every name is its default; otherwise blank names are.
pub open spec fn ip_header(d: Seq<u8>) -> Result<JwwHeaderV, ImportErrorV> {
    if d.len() < 8 || d.subrange(0, 8) != signature_bytes() {
        Err(ImportErrorV::InvalidSignature)
    } else {
        match lift(sp_u32(d, 8)) {
            (Err(e), _) => Err(e),
            (Ok(version), p1) => match lift(sp_lossy_cstring(d, p1)) {
                (Err(e), _) => Err(e),
                (Ok(memo), p2) => match lift(sp_u32(d, p2)) {
                    (Err(e), _) => Err(e),
                    (Ok(paper_size), p3) => match lift(sp_u32(d, p3)) {
                        (Err(e), _) => Err(e),
                        (Ok(_write_layer_group), p4) => match lift(sp_groups_fixed(d, p4, 16)) {
                            (Err(e), _) => Err(e),
                            (Ok(gs), p5) => {
                                let names = match ip_layer_names(d, p5, version).0 {
                                    Ok(ns) => Some(ns),
                                    Err(_) => None,
                                };
                                Ok(
                                    JwwHeaderV {
                                        version,
                                        memo,
                                        paper_size,
                                        layer_groups: assemble_groups(gs, names),
                                    },
                                )
                            },
                        },
                    },
                },
            },
        }
    }
}

proof fn lemma_lossy_cstrings_len(d: Seq<u8>, q: int, n: nat)
    ensures
        ip_lossy_cstrings(d, q, n).0 is Ok ==> ip_lossy_cstrings(d, q, n).0->Ok_0.len() == n,
    decreases n,
{
    if n > 0 {
        lemma_lossy_cstrings_len(d, q, (n - 1) as nat);
    }
}

proof fn lemma_lossy_cstrings_err(d: Seq<u8>, p: int, i: nat, n: nat)
    requires
        i <= n,
        ip_lossy_cstrings(d, p, i).0 is Err,
    ensures
        ip_lossy_cstrings(d, p, n) == ip_lossy_cstrings(d, p, i),
    decreases n - i,
{
    if n > i {
        lemma_lossy_cstrings_err(d, p, i, (n - 1) as nat);
    }
}

fn read_lossy_cstrings(reader: &mut Reader<'_>, n: usize) -> (res: Result<Vec<String>, ImportError>)
    requires
        old(reader).wf(),
    ensures
        final(reader).wf(),
        final(reader).data() == old(reader).data(),
        ({
            let (r, q) = ip_lossy_cstrings(old(reader).data(), old(reader).pos(), n as nat);
            &&& final(reader).pos() == q
            &&& match (res, r) {
                (Ok(v), Ok(s)) => v@.map_values(|x: String| x@) == s,
                (Err(x), Err(y)) => x@ == y,
                _ => false,
            }
        }),
{
    let ghost d = reader.data();
    let ghost p0 = reader.pos();
    let mut out: Vec<String> = Vec::new();
    let mut i: usize = 0;
    assert(out@.map_values(|x: String| x@) =~= Seq::empty());
    while i < n
        invariant
            reader.wf(),
            reader.data() == d,
            d == old(reader).data(),
            p0 == old(reader).pos(),
            i <= n,
            (Ok::<Seq<Seq<char>>, ImportErrorV>(out@.map_values(|x: String| x@)), reader.pos())
                == ip_lossy_cstrings(d, p0, i as nat),
        decreases n - i,
    {
        let s = match read_lossy_cstring(reader) {
            Ok(s) => s,
            Err(e) => {
                proof {
                    lemma_lossy_cstrings_err(d, p0, (i + 1) as nat, n as nat);
                }
                return Err(e);
            },
        };
        let ghost before = out@.map_values(|x: String| x@);
        out.push(s);
        assert(out@.map_values(|x: String| x@) =~= before.push(s@));
        i = i + 1;
    }
    Ok(out)
}

/// Reads the layer and group names that follow the layer groups.
pub fn parse_layer_names(reader: &mut Reader<'_>, version: u32) -> (res: Result<
    Vec<String>,
    ImportError,
>)
    requires
        old(reader).wf(),
    ensures
        final(reader).wf(),
        final(reader).data() == old(reader).data(),
        ({
            let (r, q) = ip_layer_names(old(reader).data(), old(reader).pos(), version);
            &&& final(reader).pos() == q
            &&& match (res, r) {
                (Ok(v), Ok(s)) => v@.map_values(|x: String| x@) == s,
                (Err(x), Err(y)) => x@ == y,
                _ => false,
            }
        }),
{
    if version < 300 {
        return Err(ImportError::UnexpectedEof("layer names"));
    }
    conv(reader.skip((14 + 5 + 1 + 1) * 4))?;
    conv(reader.skip(16 + 8 + 4 + 4 + 8 + 16 + 16))?;
    read_lossy_cstrings(reader, 272)
}

/// Decodes the header of a JWW file for import.
pub fn parse_header(data: &[u8]) -> (res: Result<JwwHeader, ImportError>)
    ensures
        match (res, ip_header(data@)) {
            (Ok(h), Ok(s)) => h@ == s,
            (Err(x), Err(y)) => x@ == y,
            _ => false,
        },
        res matches Ok(h) ==> groups_shape(h.layer_groups@),
{
    if !has_signature(data) {
        return Err(ImportError::InvalidSignature);
    }
    let mut reader = Reader::new(data);
    conv(reader.skip(8))?;
    let version = conv(reader.read_u32())?;
    let memo = read_lossy_cstring(&mut reader)?;
    let paper_size = conv(reader.read_u32())?;
    let _write_layer_group = conv(reader.read_u32())?;
    let ghost p4 = reader.pos();
    let groups = match read_groups_fixed(&mut reader) {
        Ok(groups) => groups,
        Err(e) => return Err(import_error(e)),
    };
    proof {
        let gv = groups_fixed_view(groups@);
        lemma_groups_fixed_shape(data@, p4, 16);
        assert forall|g: int| 0 <= g < 16 implies (#[trigger] groups@[g]).layers@.len() == 16 by {
            assert(gv[g] == groups@[g].spec_view());
        }
    }
    let ghost p5 = reader.pos();
    let names = match parse_layer_names(&mut reader, version) {
        Ok(names) => Some(names),
        Err(_) => None,
    };
    proof {
        if names is Some {
            let (_, a) = sp_skip(data@, p5, 84);
            let (_, b) = sp_skip(data@, a, 72);
            lemma_lossy_cstrings_len(data@, b, 272);
        }
    }
    let layer_groups = assemble(&groups, &names);
    proof {
        let target = assemble_groups(groups_fixed_view(groups@), names_view(names));
        assert(layer_groups@.map_values(|g: DecodedLayerGroup| g@) == target);
        assert forall|g: int| 0 <= g < 16 implies (#[trigger] layer_groups@[g]).layers@.len()
            == 16 by {
            assert(layer_groups@.map_values(|g: DecodedLayerGroup| g@)[g] == layer_groups@[g]@);
            assert(groups_fixed_view(groups@)[g] == groups@[g].spec_view());
            assert(target[g].layers.len() == groups@[g].layers@.len());
            assert(layer_groups@[g]@.layers.len() == layer_groups@[g].layers@.len());
        }
    }
    Ok(JwwHeader { version, memo, paper_size, layer_groups })
}

// ---------------------------------------------------------------------------
// Locating the entity list, and whole documents
// ---------------------------------------------------------------------------

/// Whether a declaration of a `CData…` class starts at `i`, whatever its
/// schema: the 0xffff tag, a name length of 8 to 32 that fits in the data,
/// and a name beginning with `CData`.
pub open spec fn is_class_marker(d: Seq<u8>, i: int) -> bool {
    let name_len = vstd::bytes::spec_u16_from_le_bytes(d.subrange(i + 4, i + 6)) as int;
    &&& vstd::bytes::spec_u16_from_le_bytes(d.subrange(i, i + 2)) == 0xffff
    &&& 8 <= name_len <= 32
    &&& i + 6 + name_len <= d.len()
    &&& d[i + 6] == 0x43
    &&& d[i + 7] == 0x44
    &&& d[i + 8] == 0x61
    &&& d[i + 9] == 0x74
    &&& d[i + 10] == 0x61
}

pub open spec fn first_class_marker(d: Seq<u8>, i: int, end: int) -> Option<int>
    decreases end - i,
{
    if i >= end {
        None
    } else if is_class_marker(d, i) {
        Some(i)
    } else {
        first_class_marker(d, i + 1, end)
    }
}

/// Where the importer takes the entity list to start: two bytes before the
/// first declaration of a `CData…` class whose schema is the version, or,
/// when there is none, before the first such declaration of any schema;
/// searched from byte 100 up to 20 bytes before the end. Files under 128
/// bytes have none.
pub open spec fn import_entity_list_offset(d: Seq<u8>, version: u32) -> Option<int> {
    if d.len() < 128 {
        None
    } else {
        match first_marker(d, 100, d.len() - 20, version as u16) {
            Some(i) => Some(i - 2),
            None => match first_class_marker(d, 100, d.len() - 20) {
                Some(i) => Some(i - 2),
                None => None,
            },
        }
    }
}

proof fn lemma_first_class_marker_range(d: Seq<u8>, i: int, end: int)
    ensures
        first_class_marker(d, i, end) matches Some(k) ==> i <= k < end,
    decreases end - i,
{
    if i < end && !is_class_marker(d, i) {
        lemma_first_class_marker_range(d, i + 1, end);
    }
}

proof fn lemma_first_marker_in(d: Seq<u8>, i: int, end: int, schema: u16)
    ensures
        first_marker(d, i, end, schema) matches Some(k) ==> i <= k < end,
    decreases end - i,
{
    if i < end && !is_entity_marker(d, i, schema) {
        lemma_first_marker_in(d, i + 1, end, schema);
    }
}

pub proof fn lemma_import_offset_range(d: Seq<u8>, version: u32)
    ensures
        import_entity_list_offset(d, version) matches Some(o) ==> 98 <= o && o + 22 < d.len(),
{
    if d.len() >= 128 {
        lemma_first_marker_in(d, 100, d.len() - 20, version as u16);
        lemma_first_class_marker_range(d, 100, d.len() - 20);
    }
}

/// Searches for the start of the entity list, preferring a declaration
/// whose schema is the version.
pub fn find_entity_list_offset(data: &[u8], version: u32) -> (offset: Option<usize>)
    ensures
        match offset {
            Some(o) => import_entity_list_offset(data@, version) == Some(o as int),
            None => import_entity_list_offset(data@, version) is None,
        },
{
    let expected_schema = #[verifier::truncate] (version as u16);
    let mut fallback_offset: Option<usize> = None;
    if data.len() < 128 {
        return None;
    }
    let end = data.len() - 20;
    let mut i: usize = 100;
    while i < end
        invariant
            100 <= i <= end,
            end == data@.len() - 20,
            data@.len() >= 128,
            expected_schema == version as u16,
            first_marker(data@, 100, end as int, expected_schema) == first_marker(
                data@,
                i as int,
                end as int,
                expected_schema,
            ),
            first_class_marker(data@, 100, end as int) == match fallback_offset {
                Some(o) => Some(o + 2),
                None => first_class_marker(data@, i as int, end as int),
            },
        decreases end - i,
    {
        assert(i + 6 <= data.len());
        let tag = vstd::bytes::u16_from_le_bytes(&data[i..i + 2]);
        if tag == 0xffff {
            let schema = vstd::bytes::u16_from_le_bytes(&data[i + 2..i + 4]);
            let name_len = vstd::bytes::u16_from_le_bytes(&data[i + 4..i + 6]) as usize;
            if 8 <= name_len && name_len <= 32 && name_len <= data.len() - i - 6 && data[i + 6]
                == 0x43 && data[i + 7] == 0x44 && data[i + 8] == 0x61 && data[i + 9] == 0x74
                && data[i + 10] == 0x61 {
                assert(is_class_marker(data@, i as int));
                if schema == expected_schema {
                    assert(is_entity_marker(data@, i as int, expected_schema));
                    return Some(i - 2);
                }
                assert(!is_entity_marker(data@, i as int, expected_schema));
                if fallback_offset.is_none() {
                    fallback_offset = Some(i - 2);
                }
                i = i + 1;
                continue;
            }
        }
        assert(!is_entity_marker(data@, i as int, expected_schema));
        assert(!is_class_marker(data@, i as int));
        i = i + 1;
    }
    fallback_offset
}

#[derive(Debug, Clone)]
pub struct JwwDocument {
    pub header: JwwHeader,
    pub entities: Vec<JwwEntity>,
    pub block_defs: Vec<BlockDef>,
}

pub struct JwwDocumentV {
    pub header: JwwHeaderV,
    pub entities: Seq<JwwEntityV>,
    pub block_defs: Seq<BlockDefV>,
}

impl View for JwwDocument {
    type V = JwwDocumentV;

    open spec fn view(&self) -> JwwDocumentV {
        JwwDocumentV {
            header: self.header@,
            entities: jww_entities_view(self.entities@),
            block_defs: block_defs_view(self.block_defs@),
        }
    }
}

/// A JWW file as the importer reads it: the header, the entity list found
/// after it, and the block definitions after the entity list (none when
/// nothing or just two zero bytes follow).
pub open spec fn ip_document(d: Seq<u8>) -> Result<JwwDocumentV, ImportErrorV> {
    match ip_header(d) {
        Err(e) => Err(e),
        Ok(header) => match import_entity_list_offset(d, header.version) {
            None => Err(ImportErrorV::EntityListNotFound),
            Some(offset) => {
                let rest = d.subrange(offset, d.len() as int);
                match ip_entity_list(rest, 0, header.version) {
                    (Err(e), _) => Err(e),
                    (Ok(entities), q) => {
                        let block_data = rest.subrange(q, rest.len() as int);
                        let block_defs = if block_data.len() == 0 || block_data == seq![0u8, 0u8] {
                            Ok(Seq::empty())
                        } else {
                            ip_block_def_list(block_data, header.version)
                        };
                        match block_defs {
                            Err(e) => Err(e),
                            Ok(block_defs) => Ok(JwwDocumentV { header, entities, block_defs }),
                        }
                    },
                }
            },
        },
    }
}

/// Reads a JWW file for import.
pub fn parse_document(data: &[u8]) -> (res: Result<JwwDocument, ImportError>)
    ensures
        match (res, ip_document(data@)) {
            (Ok(doc), Ok(s)) => doc@ == s,
            (Err(x), Err(y)) => x@ == y,
            _ => false,
        },
        res matches Ok(doc) ==> groups_shape(doc.header.layer_groups@),
{
    let header = parse_header(data)?;
    let entity_list_offset = match find_entity_list_offset(data, header.version) {
        Some(o) => o,
        None => return Err(ImportError::EntityListNotFound),
    };
    proof {
        lemma_import_offset_range(data@, header.version);
    }
    let rest = &data[entity_list_offset..data.len()];
    assert(rest@ == data@.subrange(entity_list_offset as int, data@.len() as int));
    let mut reader = Reader::new(rest);
    let entities = parse_entity_list(&mut reader, header.version)?;
    let consumed = reader.bytes_read();
    let block_data = &rest[consumed..rest.len()];
    let block_defs = if block_data.len() == 0 || (block_data.len() == 2 && block_data[0] == 0
        && block_data[1] == 0) {
        assert(block_data@.len() == 0 || block_data@ =~= seq![0u8, 0u8]);
        let v: Vec<BlockDef> = Vec::new();
        assert(block_defs_view(v@) =~= Seq::empty());
        v
    } else {
        assert(block_data@ != seq![0u8, 0u8]) by {
            if block_data@ == seq![0u8, 0u8] {
                assert(block_data@[0] == 0 && block_data@[1] == 0);
            }
        }
        parse_block_def_list(block_data, header.version)?
    };
    Ok(JwwDocument { header, entities, block_defs })
}

/// The importer reads an arc exactly as the codec's decoder does: from the
/// same bytes it gets the same center, radius, start and sweep angles (in that
/// file order), tilt, flatness and full-circle flag, and stops at the same
/// place; where one fails, so does the other.
pub proof fn lemma_import_arc_agrees_with_decoder(d: Seq<u8>, p: int, version: u32)
    ensures
        match (ip_arc(d, p, version), crate::codec::decode::sp_arc(d, p, version)) {
            ((Ok(a), q), (Ok(b), r)) => {
                &&& q == r
                &&& a.base == entity_base_of(b.base)
                &&& a.center == b.center
                &&& a.radius == b.radius
                &&& a.start_rad == b.start_rad
                &&& a.sweep_rad == b.sweep_rad
                &&& a.tilt_rad == b.tilt_rad
                &&& a.flatness == b.flatness
                &&& a.is_full_circle == b.is_full_circle
            },
            ((Err(_), q), (Err(_), r)) => q == r,
            _ => false,
        },
{
}

/// Importing the bytes written for an arc record gives back that arc: its
/// center, radius, start angle, sweep angle, tilt, flatness and full-circle
/// flag.
pub proof fn lemma_import_reads_written_arc(d: Seq<u8>, p: int, r: crate::codec::types::RecordV)
    requires
        r is Arc,
        crate::codec::roundtrip::holds_at(d, p, crate::codec::roundtrip::body_bytes(r)),
    ensures
        ip_arc(d, p, 600).0 matches Ok(a) && a.center == r->Arc_center && a.radius == r->Arc_radius
            && a.start_rad == r->Arc_start_rad && a.sweep_rad == r->Arc_sweep_rad && a.tilt_rad
            == r->Arc_tilt_rad && a.flatness == r->Arc_flatness && a.is_full_circle == r->Arc_full,
{
    crate::codec::roundtrip::lemma_read_arc(d, p, r);
    lemma_import_arc_agrees_with_decoder(d, p, 600);
}

} // verus!
