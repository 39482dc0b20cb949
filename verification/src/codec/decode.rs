//! Decoding of JWW entity records.
use vstd::prelude::*;
use crate::codec::error::{CodecError, CodecErrorV, Parsed, res_view};
use crate::codec::reader::{Reader, sp_u8, sp_u16, sp_u32, sp_f64};
use crate::codec::types::{
    DecodedBase, DecodedLine, DecodedArc, DecodedPoint, DecodedText, DecodedTextV, DecodedSolid,
    DecodedCircleSolid, DecodedBlock, DecodedDimension, DecodedDimensionV, DecodedEntity,
    DecodedEntityV,
};
use crate::codec::reader::sp_cstring;

verus! {

/// Bit pattern of the double `1.0`.
pub const ONE_BITS: u64 = 0x3ff0_0000_0000_0000u64;

/// `count` consecutive doubles, as bit patterns.
pub open spec fn sp_f64s(d: Seq<u8>, p: int, count: nat) -> Parsed<Seq<u64>>
    decreases count,
{
    if count == 0 {
        (Ok(Seq::empty()), p)
    } else {
        match sp_f64(d, p) {
            (Err(e), q) => (Err(e), q),
            (Ok(v), q) => match sp_f64s(d, q, (count - 1) as nat) {
                (Err(e), r) => (Err(e), r),
                (Ok(vs), r) => (Ok(seq![v] + vs), r),
            },
        }
    }
}

/// The pen width field exists from version 3.51 on.
pub open spec fn sp_pen_width(d: Seq<u8>, p: int, version: u32) -> Parsed<u16> {
    if version >= 351 {
        sp_u16(d, p)
    } else {
        (Ok(0u16), p)
    }
}

/// The common header of every entity record.
pub open spec fn sp_base(d: Seq<u8>, p: int, version: u32) -> Parsed<DecodedBase> {
    match sp_u32(d, p) {
        (Err(e), q) => (Err(e), q),
        (Ok(group), p1) => match sp_u8(d, p1) {
            (Err(e), q) => (Err(e), q),
            (Ok(pen_style), p2) => match sp_u16(d, p2) {
                (Err(e), q) => (Err(e), q),
                (Ok(pen_color), p3) => match sp_pen_width(d, p3, version) {
                    (Err(e), q) => (Err(e), q),
                    (Ok(pen_width), p4) => match sp_u16(d, p4) {
                        (Err(e), q) => (Err(e), q),
                        (Ok(layer), p5) => match sp_u16(d, p5) {
                            (Err(e), q) => (Err(e), q),
                            (Ok(layer_group), p6) => match sp_u16(d, p6) {
                                (Err(e), q) => (Err(e), q),
                                (Ok(flag), p7) => (
                                    Ok(
                                        DecodedBase {
                                            group,
                                            pen_style,
                                            pen_color,
                                            pen_width,
                                            layer,
                                            layer_group,
                                            flag,
                                        },
                                    ),
                                    p7,
                                ),
                            },
                        },
                    },
                },
            },
        },
    }
}

pub open spec fn sp_line(d: Seq<u8>, p: int, version: u32) -> Parsed<DecodedLine> {
    match sp_base(d, p, version) {
        (Err(e), q) => (Err(e), q),
        (Ok(base), p1) => match sp_f64s(d, p1, 4) {
            (Err(e), q) => (Err(e), q),
            (Ok(v), p2) => (Ok(DecodedLine { base, start: [v[0], v[1]], end: [v[2], v[3]] }), p2),
        },
    }
}

pub open spec fn sp_arc(d: Seq<u8>, p: int, version: u32) -> Parsed<DecodedArc> {
    match sp_base(d, p, version) {
        (Err(e), q) => (Err(e), q),
        (Ok(base), p1) => match sp_f64s(d, p1, 7) {
            (Err(e), q) => (Err(e), q),
            (Ok(v), p2) => match sp_u32(d, p2) {
                (Err(e), q) => (Err(e), q),
                (Ok(full), p3) => (
                    Ok(
                        DecodedArc {
                            base,
                            center: [v[0], v[1]],
                            radius: v[2],
                            start_rad: v[3],
                            sweep_rad: v[4],
                            tilt_rad: v[5],
                            flatness: v[6],
                            is_full_circle: full != 0,
                        },
                    ),
                    p3,
                ),
            },
        },
    }
}

/// A point; a marker (code, rotation, scale) follows only when the pen style
/// is 100, otherwise rotation is 0.0 and scale 1.0.
pub open spec fn sp_point(d: Seq<u8>, p: int, version: u32) -> Parsed<DecodedPoint> {
    match sp_base(d, p, version) {
        (Err(e), q) => (Err(e), q),
        (Ok(base), p1) => match sp_f64s(d, p1, 2) {
            (Err(e), q) => (Err(e), q),
            (Ok(at), p2) => match sp_u32(d, p2) {
                (Err(e), q) => (Err(e), q),
                (Ok(temporary), p3) => if base.pen_style == 100 {
                    match sp_u32(d, p3) {
                        (Err(e), q) => (Err(e), q),
                        (Ok(code), p4) => match sp_f64s(d, p4, 2) {
                            (Err(e), q) => (Err(e), q),
                            (Ok(m), p5) => (
                                Ok(
                                    DecodedPoint {
                                        base,
                                        at: [at[0], at[1]],
                                        temporary: temporary != 0,
                                        marker_code: Some(code),
                                        rotation: m[0],
                                        scale: m[1],
                                    },
                                ),
                                p5,
                            ),
                        },
                    }
                } else {
                    (
                        Ok(
                            DecodedPoint {
                                base,
                                at: [at[0], at[1]],
                                temporary: temporary != 0,
                                marker_code: None,
                                rotation: 0,
                                scale: ONE_BITS,
                            },
                        ),
                        p3,
                    )
                },
            },
        },
    }
}

pub open spec fn sp_text(d: Seq<u8>, p: int, version: u32) -> Parsed<DecodedTextV> {
    match sp_base(d, p, version) {
        (Err(e), q) => (Err(e), q),
        (Ok(base), p1) => match sp_f64s(d, p1, 4) {
            (Err(e), q) => (Err(e), q),
            (Ok(c), p2) => match sp_u32(d, p2) {
                (Err(e), q) => (Err(e), q),
                (Ok(text_type), p3) => match sp_f64s(d, p3, 4) {
                    (Err(e), q) => (Err(e), q),
                    (Ok(s), p4) => match sp_cstring(d, p4) {
                        (Err(e), q) => (Err(e), q),
                        (Ok(font_name), p5) => match sp_cstring(d, p5) {
                            (Err(e), q) => (Err(e), q),
                            (Ok(content), p6) => (
                                Ok(
                                    DecodedTextV {
                                        base,
                                        start: [c[0], c[1]],
                                        end: [c[2], c[3]],
                                        text_type,
                                        size_x: s[0],
                                        size_y: s[1],
                                        spacing: s[2],
                                        angle: s[3],
                                        mirror_y: false,
                                        font_name,
                                        content,
                                    },
                                ),
                                p6,
                            ),
                        },
                    },
                },
            },
        },
    }
}

/// The solid color follows only when the pen color is 10.
pub open spec fn sp_solid_color(d: Seq<u8>, p: int, pen_color: u16) -> Parsed<Option<u32>> {
    if pen_color == 10 {
        match sp_u32(d, p) {
            (Err(e), q) => (Err(e), q),
            (Ok(c), q) => (Ok(Some(c)), q),
        }
    } else {
        (Ok(None), p)
    }
}

/// A solid: a circle solid when the pen style is at least 101, otherwise a
/// quadrilateral whose stored corners are 0, 3, 1, 2.
pub open spec fn sp_solid(d: Seq<u8>, p: int, version: u32) -> Parsed<DecodedEntityV> {
    match sp_base(d, p, version) {
        (Err(e), q) => (Err(e), q),
        (Ok(base), p1) => match sp_f64s(d, p1, 8) {
            (Err(e), q) => (Err(e), q),
            (Ok(v), p2) => match sp_solid_color(d, p2, base.pen_color) {
                (Err(e), q) => (Err(e), q),
                (Ok(color), p3) => if base.pen_style >= 101 {
                    (
                        Ok(
                            DecodedEntityV::CircleSolid(
                                DecodedCircleSolid {
                                    base,
                                    center: [v[0], v[1]],
                                    radius: v[2],
                                    flatness: v[3],
                                    tilt_rad: v[4],
                                    start_rad: v[5],
                                    sweep_rad: v[6],
                                    solid_param: v[7],
                                    color,
                                },
                            ),
                        ),
                        p3,
                    )
                } else {
                    (
                        Ok(
                            DecodedEntityV::Solid(
                                DecodedSolid {
                                    base,
                                    points: [[v[0], v[1]], [v[4], v[5]], [v[6], v[7]], [v[2], v[3]]],
                                    color,
                                },
                            ),
                        ),
                        p3,
                    )
                },
            },
        },
    }
}

pub open spec fn sp_block(d: Seq<u8>, p: int, version: u32) -> Parsed<DecodedBlock> {
    match sp_base(d, p, version) {
        (Err(e), q) => (Err(e), q),
        (Ok(base), p1) => match sp_f64s(d, p1, 5) {
            (Err(e), q) => (Err(e), q),
            (Ok(v), p2) => match sp_u32(d, p2) {
                (Err(e), q) => (Err(e), q),
                (Ok(def_number), p3) => (
                    Ok(
                        DecodedBlock {
                            base,
                            ref_x: v[0],
                            ref_y: v[1],
                            scale_x: v[2],
                            scale_y: v[3],
                            rotation: v[4],
                            def_number,
                        },
                    ),
                    p3,
                ),
            },
        },
    }
}

pub open spec fn zero_base() -> DecodedBase {
    DecodedBase {
        group: 0,
        pen_style: 0,
        pen_color: 0,
        pen_width: 0,
        layer: 0,
        layer_group: 0,
        flag: 0,
    }
}

/// The auxiliary line used by dimensions written before version 4.20.
pub open spec fn zero_line() -> DecodedLine {
    DecodedLine { base: zero_base(), start: [0, 0], end: [0, 0] }
}

/// The auxiliary point used by dimensions written before version 4.20.
pub open spec fn zero_point() -> DecodedPoint {
    DecodedPoint {
        base: zero_base(),
        at: [0, 0],
        temporary: false,
        marker_code: None,
        rotation: 0,
        scale: ONE_BITS,
    }
}

/// The auxiliary part of a dimension (SXF mode, two lines, four points),
/// present from version 4.20 on.
pub open spec fn sp_dimension_aux(d: Seq<u8>, p: int, version: u32) -> Parsed<
    (u16, [DecodedLine; 2], [DecodedPoint; 4]),
> {
    if version >= 420 {
        match sp_u16(d, p) {
            (Err(e), q) => (Err(e), q),
            (Ok(sxf), p1) => match sp_line(d, p1, version) {
                (Err(e), q) => (Err(e), q),
                (Ok(l0), p2) => match sp_line(d, p2, version) {
                    (Err(e), q) => (Err(e), q),
                    (Ok(l1), p3) => match sp_point(d, p3, version) {
                        (Err(e), q) => (Err(e), q),
                        (Ok(a0), p4) => match sp_point(d, p4, version) {
                            (Err(e), q) => (Err(e), q),
                            (Ok(a1), p5) => match sp_point(d, p5, version) {
                                (Err(e), q) => (Err(e), q),
                                (Ok(a2), p6) => match sp_point(d, p6, version) {
                                    (Err(e), q) => (Err(e), q),
                                    (Ok(a3), p7) => (Ok((sxf, [l0, l1], [a0, a1, a2, a3])), p7),
                                },
                            },
                        },
                    },
                },
            },
        }
    } else {
        (
            Ok(
                (
                    0u16,
                    [zero_line(), zero_line()],
                    [zero_point(), zero_point(), zero_point(), zero_point()],
                ),
            ),
            p,
        )
    }
}

pub open spec fn sp_dimension(d: Seq<u8>, p: int, version: u32) -> Parsed<DecodedDimensionV> {
    match sp_base(d, p, version) {
        (Err(e), q) => (Err(e), q),
        (Ok(base), p1) => match sp_line(d, p1, version) {
            (Err(e), q) => (Err(e), q),
            (Ok(line), p2) => match sp_text(d, p2, version) {
                (Err(e), q) => (Err(e), q),
                (Ok(text), p3) => match sp_dimension_aux(d, p3, version) {
                    (Err(e), q) => (Err(e), q),
                    (Ok(aux), p4) => (
                        Ok(
                            DecodedDimensionV {
                                base,
                                line,
                                text,
                                sxf_mode: aux.0,
                                aux_lines: aux.1,
                                aux_points: aux.2,
                            },
                        ),
                        p4,
                    ),
                },
            },
        },
    }
}

impl<'a> Reader<'a> {
    pub fn read_f64s(&mut self, count: usize) -> (res: Result<Vec<u64>, CodecError>)
        requires
            old(self).wf(),
        ensures
            final(self).wf(),
            final(self).data() == old(self).data(),
            (res_view(res), final(self).pos()) == sp_f64s(
                old(self).data(),
                old(self).pos(),
                count as nat,
            ),
            res matches Ok(v) ==> v@.len() == count,
        decreases count,
    {
        if count == 0 {
            return Ok(Vec::new());
        }
        let first = self.read_f64()?;
        let mut rest = self.read_f64s(count - 1)?;
        let ghost tail = rest@;
        rest.insert(0, first);
        assert(rest@ =~= seq![first] + tail);
        Ok(rest)
    }
}

pub fn read_base(reader: &mut Reader<'_>, version: u32) -> (res: Result<DecodedBase, CodecError>)
    requires
        old(reader).wf(),
    ensures
        final(reader).wf(),
        final(reader).data() == old(reader).data(),
        (crate::codec::error::res_plain(res), final(reader).pos()) == sp_base(
            old(reader).data(),
            old(reader).pos(),
            version,
        ),
{
    let group = reader.read_u32()?;
    let pen_style = reader.read_u8()?;
    let pen_color = reader.read_u16()?;
    let pen_width = if version >= 351 {
        reader.read_u16()?
    } else {
        0
    };
    let layer = reader.read_u16()?;
    let layer_group = reader.read_u16()?;
    let flag = reader.read_u16()?;
    Ok(DecodedBase { group, pen_style, pen_color, pen_width, layer, layer_group, flag })
}

pub fn read_line(reader: &mut Reader<'_>, version: u32) -> (res: Result<DecodedLine, CodecError>)
    requires
        old(reader).wf(),
    ensures
        final(reader).wf(),
        final(reader).data() == old(reader).data(),
        (crate::codec::error::res_plain(res), final(reader).pos()) == sp_line(
            old(reader).data(),
            old(reader).pos(),
            version,
        ),
{
    let base = read_base(reader, version)?;
    let v = reader.read_f64s(4)?;
    Ok(DecodedLine { base, start: [v[0], v[1]], end: [v[2], v[3]] })
}

pub fn read_arc(reader: &mut Reader<'_>, version: u32) -> (res: Result<DecodedArc, CodecError>)
    requires
        old(reader).wf(),
    ensures
        final(reader).wf(),
        final(reader).data() == old(reader).data(),
        (crate::codec::error::res_plain(res), final(reader).pos()) == sp_arc(
            old(reader).data(),
            old(reader).pos(),
            version,
        ),
{
    let base = read_base(reader, version)?;
    let v = reader.read_f64s(7)?;
    let full = reader.read_u32()?;
    Ok(
        DecodedArc {
            base,
            center: [v[0], v[1]],
            radius: v[2],
            start_rad: v[3],
            sweep_rad: v[4],
            tilt_rad: v[5],
            flatness: v[6],
            is_full_circle: full != 0,
        },
    )
}

pub fn read_point(reader: &mut Reader<'_>, version: u32) -> (res: Result<DecodedPoint, CodecError>)
    requires
        old(reader).wf(),
    ensures
        final(reader).wf(),
        final(reader).data() == old(reader).data(),
        (crate::codec::error::res_plain(res), final(reader).pos()) == sp_point(
            old(reader).data(),
            old(reader).pos(),
            version,
        ),
{
    let base = read_base(reader, version)?;
    let at = reader.read_f64s(2)?;
    let temporary = reader.read_u32()?;
    if base.pen_style == 100 {
        let code = reader.read_u32()?;
        let m = reader.read_f64s(2)?;
        Ok(
            DecodedPoint {
                base,
                at: [at[0], at[1]],
                temporary: temporary != 0,
                marker_code: Some(code),
                rotation: m[0],
                scale: m[1],
            },
        )
    } else {
        Ok(
            DecodedPoint {
                base,
                at: [at[0], at[1]],
                temporary: temporary != 0,
                marker_code: None,
                rotation: 0,
                scale: ONE_BITS,
            },
        )
    }
}

pub fn read_text(reader: &mut Reader<'_>, version: u32) -> (res: Result<DecodedText, CodecError>)
    requires
        old(reader).wf(),
    ensures
        final(reader).wf(),
        final(reader).data() == old(reader).data(),
        (res_view(res), final(reader).pos()) == sp_text(
            old(reader).data(),
            old(reader).pos(),
            version,
        ),
{
    let base = read_base(reader, version)?;
    let c = reader.read_f64s(4)?;
    let text_type = reader.read_u32()?;
    let s = reader.read_f64s(4)?;
    let font_name = reader.read_cstring()?;
    let content = reader.read_cstring()?;
    Ok(
        DecodedText {
            base,
            start: [c[0], c[1]],
            end: [c[2], c[3]],
            text_type,
            size_x: s[0],
            size_y: s[1],
            spacing: s[2],
            angle: s[3],
            mirror_y: false,
            font_name,
            content,
        },
    )
}

pub fn read_solid(reader: &mut Reader<'_>, version: u32) -> (res: Result<DecodedEntity, CodecError>)
    requires
        old(reader).wf(),
    ensures
        final(reader).wf(),
        final(reader).data() == old(reader).data(),
        (res_view(res), final(reader).pos()) == sp_solid(
            old(reader).data(),
            old(reader).pos(),
            version,
        ),
{
    let base = read_base(reader, version)?;
    let v = reader.read_f64s(8)?;
    let color = if base.pen_color == 10 {
        Some(reader.read_u32()?)
    } else {
        None
    };
    if base.pen_style >= 101 {
        Ok(
            DecodedEntity::CircleSolid(
                DecodedCircleSolid {
                    base,
                    center: [v[0], v[1]],
                    radius: v[2],
                    flatness: v[3],
                    tilt_rad: v[4],
                    start_rad: v[5],
                    sweep_rad: v[6],
                    solid_param: v[7],
                    color,
                },
            ),
        )
    } else {
        Ok(
            DecodedEntity::Solid(
                DecodedSolid {
                    base,
                    points: [[v[0], v[1]], [v[4], v[5]], [v[6], v[7]], [v[2], v[3]]],
                    color,
                },
            ),
        )
    }
}

pub fn read_block(reader: &mut Reader<'_>, version: u32) -> (res: Result<DecodedBlock, CodecError>)
    requires
        old(reader).wf(),
    ensures
        final(reader).wf(),
        final(reader).data() == old(reader).data(),
        (crate::codec::error::res_plain(res), final(reader).pos()) == sp_block(
            old(reader).data(),
            old(reader).pos(),
            version,
        ),
{
    let base = read_base(reader, version)?;
    let v = reader.read_f64s(5)?;
    let def_number = reader.read_u32()?;
    Ok(
        DecodedBlock {
            base,
            ref_x: v[0],
            ref_y: v[1],
            scale_x: v[2],
            scale_y: v[3],
            rotation: v[4],
            def_number,
        },
    )
}

fn zero_decoded_line() -> (l: DecodedLine)
    ensures
        l == zero_line(),
{
    DecodedLine {
        base: DecodedBase {
            group: 0,
            pen_style: 0,
            pen_color: 0,
            pen_width: 0,
            layer: 0,
            layer_group: 0,
            flag: 0,
        },
        start: [0, 0],
        end: [0, 0],
    }
}

fn zero_decoded_point() -> (p: DecodedPoint)
    ensures
        p == zero_point(),
{
    DecodedPoint {
        base: DecodedBase {
            group: 0,
            pen_style: 0,
            pen_color: 0,
            pen_width: 0,
            layer: 0,
            layer_group: 0,
            flag: 0,
        },
        at: [0, 0],
        temporary: false,
        marker_code: None,
        rotation: 0,
        scale: ONE_BITS,
    }
}

pub fn read_dimension(reader: &mut Reader<'_>, version: u32) -> (res: Result<
    DecodedDimension,
    CodecError,
>)
    requires
        old(reader).wf(),
    ensures
        final(reader).wf(),
        final(reader).data() == old(reader).data(),
        (res_view(res), final(reader).pos()) == sp_dimension(
            old(reader).data(),
            old(reader).pos(),
            version,
        ),
{
    let base = read_base(reader, version)?;
    let line = read_line(reader, version)?;
    let text = read_text(reader, version)?;
    if version >= 420 {
        let sxf_mode = reader.read_u16()?;
        let l0 = read_line(reader, version)?;
        let l1 = read_line(reader, version)?;
        let a0 = read_point(reader, version)?;
        let a1 = read_point(reader, version)?;
        let a2 = read_point(reader, version)?;
        let a3 = read_point(reader, version)?;
        Ok(DecodedDimension { base, line, text, sxf_mode, aux_lines: [l0, l1], aux_points: [a0, a1, a2, a3] })
    } else {
        let z = zero_decoded_line();
        let p = zero_decoded_point();
        Ok(DecodedDimension { base, line, text, sxf_mode: 0, aux_lines: [z, z], aux_points: [p, p, p, p] })
    }
}

} // verus!
