//! What the decoder reads back from what the encoder writes.
use vstd::prelude::*;
use vstd::bytes::*;
use crate::codec::reader::{sp_take, sp_u8, sp_u16, sp_u32, sp_f64, sp_cstring_len, sp_cstring};
use crate::codec::writer::{enc_cstring_len, enc_cstring};
use crate::codec::decode::{
    sp_f64s, sp_base, sp_pen_width, sp_line, sp_arc, sp_point, sp_text, sp_solid, sp_solid_color,
    sp_block, sp_dimension, sp_dimension_aux,
};
use crate::codec::encode::{
    enc_base, enc_f64s, enc_record_body, enc_record_bodies, bool_u32, enc_class_ref, enc_archive,
    enc_entity_list, class_index, class_name_bytes, no_class_ids,
};
use crate::codec::archive::{
    SupportedEntityClass, spec_entity_class, sp_entity_body, sp_entity, sp_entities, sp_entity_list,
    class_lookup, ClassTableV, glue, opt_seq, sp_block_def, sp_block_def_body, sp_block_defs,
    sp_block_definitions,
};
use crate::codec::document::{
    enc_block_definition, enc_block_definition_seq, enc_block_definitions, enc_document,
};
use crate::codec::header::{
    enc_header, header_gap_a, rep, u32b, f64b, signature_bytes, enc_layers_fixed, enc_groups_fixed,
    enc_layer_names, enc_group_layer_names, enc_group_names,
};
use crate::codec::header_read::{
    sp_layers_fixed, sp_group_fixed, sp_groups_fixed, sp_cstrings, sp_layer_names, sp_pen_tables,
    sp_screen_pens, sp_print_pens, header_after_names,
};
use crate::codec::reader::sp_skip;
use crate::codec::types::{LayerV, LayerGroupV, HeaderV, header_shape};
use crate::codec::header_read::sp_header;
use crate::codec::locate::{is_entity_marker, first_marker, entity_list_offset, sp_document, sp_trailing_blocks};
use crate::codec::types::{DocumentV, DecodedDocumentV};
use crate::codec::types::Record;
use crate::text::utf8_lossy;
use crate::codec::writer::{then_bytes, cat_bytes};
use crate::codec::types::{
    Base, DecodedBase, RecordV, DecodedEntityV, BlockDefinitionV, DecodedBlockDefinitionV,
};
use crate::codec::preserve::{base_of, line_record, point_record, text_record, entity_record};
use crate::text::{
    sjis_encode, sjis_decode, trim_trailing_nul, is_ascii_bytes, ascii_chars, lossy_utf8, encode_sjis,
    decode_sjis, chars_of,
};

verus! {

/// The data holds the bytes `b` at position `p` (and fits in memory).
pub open spec fn holds_at(d: Seq<u8>, p: int, b: Seq<u8>) -> bool {
    &&& 0 <= p
    &&& p + b.len() <= d.len()
    &&& d.len() <= usize::MAX
    &&& d.subrange(p, p + b.len()) == b
}

pub proof fn lemma_holds_split(d: Seq<u8>, p: int, a: Seq<u8>, b: Seq<u8>)
    requires
        holds_at(d, p, a + b),
    ensures
        holds_at(d, p, a),
        holds_at(d, p + a.len(), b),
{
    let whole = d.subrange(p, p + (a + b).len());
    assert(whole == a + b);
    assert(d.subrange(p, p + a.len()) =~= whole.subrange(0, a.len() as int));
    assert(whole.subrange(0, a.len() as int) =~= a);
    assert(d.subrange(p + a.len(), p + a.len() + b.len()) =~= whole.subrange(
        a.len() as int,
        whole.len() as int,
    ));
    assert(whole.subrange(a.len() as int, whole.len() as int) =~= b);
}

proof fn lemma_read_u8(d: Seq<u8>, p: int, x: u8)
    requires
        holds_at(d, p, seq![x]),
    ensures
        sp_u8(d, p) == (Ok::<u8, crate::codec::error::CodecErrorV>(x), p + 1),
{
    assert(d.subrange(p, p + 1)[0] == x);
}

proof fn lemma_read_u16(d: Seq<u8>, p: int, x: u16)
    requires
        holds_at(d, p, spec_u16_to_le_bytes(x)),
    ensures
        spec_u16_to_le_bytes(x).len() == 2,
        sp_u16(d, p) == (Ok::<u16, crate::codec::error::CodecErrorV>(x), p + 2),
{
    lemma_auto_spec_u16_to_from_le_bytes();
}

proof fn lemma_read_u32(d: Seq<u8>, p: int, x: u32)
    requires
        holds_at(d, p, spec_u32_to_le_bytes(x)),
    ensures
        spec_u32_to_le_bytes(x).len() == 4,
        sp_u32(d, p) == (Ok::<u32, crate::codec::error::CodecErrorV>(x), p + 4),
{
    lemma_auto_spec_u32_to_from_le_bytes();
}

proof fn lemma_read_f64(d: Seq<u8>, p: int, x: u64)
    requires
        holds_at(d, p, spec_u64_to_le_bytes(x)),
    ensures
        spec_u64_to_le_bytes(x).len() == 8,
        sp_f64(d, p) == (Ok::<u64, crate::codec::error::CodecErrorV>(x), p + 8),
{
    lemma_auto_spec_u64_to_from_le_bytes();
}

pub proof fn lemma_f64s_len(vs: Seq<u64>)
    ensures
        enc_f64s(vs).len() == 8 * vs.len(),
    decreases vs.len(),
{
    lemma_auto_spec_u64_to_from_le_bytes();
    if vs.len() > 0 {
        lemma_f64s_len(vs.drop_first());
    }
}

pub proof fn lemma_read_f64s(d: Seq<u8>, p: int, vs: Seq<u64>)
    requires
        holds_at(d, p, enc_f64s(vs)),
    ensures
        sp_f64s(d, p, vs.len()) == (Ok::<Seq<u64>, crate::codec::error::CodecErrorV>(vs), p + 8
            * vs.len()),
    decreases vs.len(),
{
    lemma_f64s_len(vs);
    if vs.len() > 0 {
        lemma_auto_spec_u64_to_from_le_bytes();
        let head = spec_u64_to_le_bytes(vs[0]);
        lemma_holds_split(d, p, head, enc_f64s(vs.drop_first()));
        lemma_read_f64(d, p, vs[0]);
        lemma_read_f64s(d, p + 8, vs.drop_first());
        assert(seq![vs[0]] + vs.drop_first() =~= vs);
        assert(sp_f64(d, p) == (Ok::<u64, crate::codec::error::CodecErrorV>(vs[0]), p + 8));
    } else {
        assert(vs =~= Seq::<u64>::empty());
    }
}

pub open spec fn decoded_base(b: Base) -> DecodedBase {
    DecodedBase {
        group: b.group,
        pen_style: b.pen_style,
        pen_color: b.pen_color,
        pen_width: b.pen_width,
        layer: b.layer,
        layer_group: b.layer_group,
        flag: b.flag,
    }
}

pub proof fn lemma_base_len(b: Base)
    ensures
        enc_base(b).len() == 15,
{
    lemma_auto_spec_u16_to_from_le_bytes();
    lemma_auto_spec_u32_to_from_le_bytes();
}

pub proof fn lemma_read_base(d: Seq<u8>, p: int, b: Base)
    requires
        holds_at(d, p, enc_base(b)),
    ensures
        sp_base(d, p, 600) == (Ok::<DecodedBase, crate::codec::error::CodecErrorV>(
            decoded_base(b),
        ), p + 15),
        base_of(decoded_base(b)) == b,
{
    lemma_base_len(b);
    lemma_auto_spec_u16_to_from_le_bytes();
    lemma_auto_spec_u32_to_from_le_bytes();
    let s0 = spec_u32_to_le_bytes(b.group);
    let s1 = seq![b.pen_style];
    let s2 = spec_u16_to_le_bytes(b.pen_color);
    let s3 = spec_u16_to_le_bytes(b.pen_width);
    let s4 = spec_u16_to_le_bytes(b.layer);
    let s5 = spec_u16_to_le_bytes(b.layer_group);
    let s6 = spec_u16_to_le_bytes(b.flag);
    lemma_holds_split(d, p, s0 + s1 + s2 + s3 + s4 + s5, s6);
    lemma_holds_split(d, p, s0 + s1 + s2 + s3 + s4, s5);
    lemma_holds_split(d, p, s0 + s1 + s2 + s3, s4);
    lemma_holds_split(d, p, s0 + s1 + s2, s3);
    lemma_holds_split(d, p, s0 + s1, s2);
    lemma_holds_split(d, p, s0, s1);
    lemma_read_u32(d, p, b.group);
    lemma_read_u8(d, p + 4, b.pen_style);
    lemma_read_u16(d, p + 5, b.pen_color);
    lemma_read_u16(d, p + 7, b.pen_width);
    lemma_read_u16(d, p + 9, b.layer);
    lemma_read_u16(d, p + 11, b.layer_group);
    lemma_read_u16(d, p + 13, b.flag);
    assert(sp_pen_width(d, p + 7, 600) == sp_u16(d, p + 7));
}

/// A text that survives CP932: it encodes without error to at most
/// `u32::MAX` bytes, those bytes decode without error back to it, and it does
/// not end with a NUL character (the reader strips trailing NULs).
pub open spec fn text_round_trips(s: Seq<char>) -> bool {
    let (bytes, had_errors) = sjis_encode(s);
    &&& !had_errors
    &&& bytes.len() <= u32::MAX
    &&& sjis_decode(bytes) == (s, false)
    &&& !(s.len() > 0 && s.last() == '\0')
}

pub proof fn lemma_read_cstring(d: Seq<u8>, p: int, s: Seq<char>)
    requires
        text_round_trips(s),
        holds_at(d, p, enc_cstring(s)->Ok_0),
    ensures
        enc_cstring(s) is Ok,
        sp_cstring(d, p) == (Ok::<Seq<char>, crate::codec::error::CodecErrorV>(s), p + enc_cstring(
            s,
        )->Ok_0.len()),
{
    lemma_auto_spec_u16_to_from_le_bytes();
    lemma_auto_spec_u32_to_from_le_bytes();
    let bytes = sjis_encode(s).0;
    let n = bytes.len();
    let prefix = enc_cstring_len(n);
    lemma_holds_split(d, p, prefix, bytes);
    if n < 0xff {
        lemma_read_u8(d, p, n as u8);
        assert(sp_cstring_len(d, p) == (Ok::<u32, crate::codec::error::CodecErrorV>(n as u32), p
            + 1));
    } else if n < 0xffff {
        lemma_holds_split(d, p, seq![0xffu8], spec_u16_to_le_bytes(n as u16));
        lemma_read_u8(d, p, 0xff);
        lemma_read_u16(d, p + 1, n as u16);
        assert(sp_cstring_len(d, p) == (Ok::<u32, crate::codec::error::CodecErrorV>(n as u32), p
            + 3));
    } else {
        lemma_holds_split(
            d,
            p,
            seq![0xffu8] + spec_u16_to_le_bytes(0xffff),
            spec_u32_to_le_bytes(n as u32),
        );
        lemma_holds_split(d, p, seq![0xffu8], spec_u16_to_le_bytes(0xffff));
        lemma_read_u8(d, p, 0xff);
        lemma_read_u16(d, p + 1, 0xffff);
        lemma_read_u32(d, p + 3, n as u32);
        assert(sp_cstring_len(d, p) == (Ok::<u32, crate::codec::error::CodecErrorV>(n as u32), p
            + 7));
    }
    let q = p + prefix.len();
    assert(sp_take(d, q, n as int) == (Ok::<Seq<u8>, crate::codec::error::CodecErrorV>(bytes), q
        + n));
    assert(trim_trailing_nul(s) == s);
}

/// A point reads back as written: it has a marker exactly when its pen style
/// is 100, the style that announces one.
pub open spec fn point_round_trips(r: RecordV) -> bool {
    r matches RecordV::Point { base, marker, .. } && (marker is Some) == (base.pen_style == 100)
}

/// A record that the decoder reads back as written: points as above; texts
/// whose font and value survive CP932; solids that carry a color exactly when
/// their pen color is 10; dimensions made of a line, a text, two lines and
/// four points that read back.
pub open spec fn record_round_trips(r: RecordV) -> bool {
    match r {
        RecordV::Point { .. } => point_round_trips(r),
        RecordV::Text { font, value, .. } => text_round_trips(font) && text_round_trips(value),
        RecordV::Solid { base, color, .. } => (base.pen_color == 10) == (color is Some),
        RecordV::Dimension { line, text, aux_lines, aux_points, .. } => {
            &&& *line is Line
            &&& (match *text {
                RecordV::Text { font, value, .. } => text_round_trips(font) && text_round_trips(
                    value,
                ),
                _ => false,
            })
            &&& aux_lines.len() == 2
            &&& aux_lines[0] is Line
            &&& aux_lines[1] is Line
            &&& aux_points.len() == 4
            &&& forall|i: int| 0 <= i < 4 ==> #[trigger] point_round_trips(aux_points[i])
        },
        _ => true,
    }
}

/// The bytes of a record body that the encoder accepts.
pub open spec fn body_bytes(r: RecordV) -> Seq<u8> {
    enc_record_body(r)->Ok_0
}

proof fn lemma_read_line(d: Seq<u8>, p: int, r: RecordV)
    requires
        r is Line,
        holds_at(d, p, body_bytes(r)),
    ensures
        enc_record_body(r) is Ok,
        body_bytes(r).len() == 47,
        sp_line(d, p, 600).0 matches Ok(v) && line_record(v) == r,
        sp_line(d, p, 600).1 == p + 47,
{
    match r {
        RecordV::Line { base, p1, p2 } => {
            let fs = seq![p1[0], p1[1], p2[0], p2[1]];
            lemma_base_len(base);
            lemma_f64s_len(fs);
            lemma_holds_split(d, p, enc_base(base), enc_f64s(fs));
            lemma_read_base(d, p, base);
            lemma_read_f64s(d, p + 15, fs);
            let v = sp_line(d, p, 600).0->Ok_0;
            assert(v.start =~= p1);
            assert(v.end =~= p2);
        },
        _ => {},
    }
}

pub proof fn lemma_read_arc(d: Seq<u8>, p: int, r: RecordV)
    requires
        r is Arc,
        holds_at(d, p, body_bytes(r)),
    ensures
        body_bytes(r).len() == 75,
        sp_arc(d, p, 600).0 matches Ok(v) && entity_record(DecodedEntityV::Arc(v)) == r,
        sp_arc(d, p, 600).1 == p + 75,
{
    match r {
        RecordV::Arc { base, center, radius, start_rad, sweep_rad, tilt_rad, flatness, full } => {
            let fs = seq![center[0], center[1], radius, start_rad, sweep_rad, tilt_rad, flatness];
            lemma_base_len(base);
            lemma_f64s_len(fs);
            lemma_auto_spec_u32_to_from_le_bytes();
            let x = spec_u32_to_le_bytes(bool_u32(full));
            lemma_holds_split(d, p, enc_base(base) + enc_f64s(fs), x);
            lemma_holds_split(d, p, enc_base(base), enc_f64s(fs));
            lemma_read_base(d, p, base);
            lemma_read_f64s(d, p + 15, fs);
            lemma_read_u32(d, p + 71, bool_u32(full));
            let v = sp_arc(d, p, 600).0->Ok_0;
            assert(v.center =~= center);
        },
        _ => {},
    }
}

proof fn lemma_read_point(d: Seq<u8>, p: int, r: RecordV)
    requires
        point_round_trips(r),
        holds_at(d, p, body_bytes(r)),
    ensures
        body_bytes(r).len() == if r->Point_marker is Some { 55int } else { 35int },
        sp_point(d, p, 600).0 matches Ok(v) && point_record(v) == r,
        sp_point(d, p, 600).1 == p + body_bytes(r).len(),
{
    match r {
        RecordV::Point { base, at, temporary, marker } => {
            let fs = seq![at[0], at[1]];
            lemma_base_len(base);
            lemma_f64s_len(fs);
            lemma_auto_spec_u32_to_from_le_bytes();
            let t = spec_u32_to_le_bytes(bool_u32(temporary));
            let b = if marker is Some {
                Base { pen_style: 100, ..base }
            } else {
                base
            };
            assert(b == base);
            let head = enc_base(base) + enc_f64s(fs) + t;
            match marker {
                Some((code, angle, scale)) => {
                    let ms = seq![angle, scale];
                    lemma_f64s_len(ms);
                    let c = spec_u32_to_le_bytes(code);
                    lemma_holds_split(d, p, head + c, enc_f64s(ms));
                    lemma_holds_split(d, p, head, c);
                    lemma_holds_split(d, p, enc_base(base) + enc_f64s(fs), t);
                    lemma_holds_split(d, p, enc_base(base), enc_f64s(fs));
                    lemma_read_base(d, p, base);
                    lemma_read_f64s(d, p + 15, fs);
                    lemma_read_u32(d, p + 31, bool_u32(temporary));
                    lemma_read_u32(d, p + 35, code);
                    lemma_read_f64s(d, p + 39, ms);
                    let v = sp_point(d, p, 600).0->Ok_0;
                    assert(v.at =~= at);
                },
                None => {
                    lemma_holds_split(d, p, enc_base(base) + enc_f64s(fs), t);
                    lemma_holds_split(d, p, enc_base(base), enc_f64s(fs));
                    lemma_read_base(d, p, base);
                    lemma_read_f64s(d, p + 15, fs);
                    lemma_read_u32(d, p + 31, bool_u32(temporary));
                    let v = sp_point(d, p, 600).0->Ok_0;
                    assert(v.at =~= at);
                },
            }
        },
        _ => {},
    }
}

proof fn lemma_read_text(d: Seq<u8>, p: int, r: RecordV)
    requires
        r matches RecordV::Text { font, value, .. } && text_round_trips(font) && text_round_trips(
            value,
        ),
        holds_at(d, p, body_bytes(r)),
    ensures
        enc_record_body(r) is Ok,
        sp_text(d, p, 600).0 matches Ok(v) && text_record(v) == r,
        sp_text(d, p, 600).1 == p + body_bytes(r).len(),
{
    match r {
        RecordV::Text {
            base,
            start,
            end,
            text_type,
            size_x,
            size_y,
            spacing,
            angle_deg,
            font,
            value,
        } => {
            let c = seq![start[0], start[1], end[0], end[1]];
            let z = seq![size_x, size_y, spacing, angle_deg];
            lemma_base_len(base);
            lemma_f64s_len(c);
            lemma_f64s_len(z);
            lemma_auto_spec_u32_to_from_le_bytes();
            let tt = spec_u32_to_le_bytes(text_type);
            let head = enc_base(base) + enc_f64s(c) + tt + enc_f64s(z);
            let fb = enc_cstring(font)->Ok_0;
            let vb = enc_cstring(value)->Ok_0;
            assert(body_bytes(r) == head + (fb + vb));
            lemma_holds_split(d, p, head, fb + vb);
            lemma_holds_split(d, p + head.len(), fb, vb);
            lemma_holds_split(d, p, enc_base(base) + enc_f64s(c) + tt, enc_f64s(z));
            lemma_holds_split(d, p, enc_base(base) + enc_f64s(c), tt);
            lemma_holds_split(d, p, enc_base(base), enc_f64s(c));
            lemma_read_base(d, p, base);
            lemma_read_f64s(d, p + 15, c);
            lemma_read_u32(d, p + 47, text_type);
            lemma_read_f64s(d, p + 51, z);
            lemma_read_cstring(d, p + 83, font);
            lemma_read_cstring(d, p + 83 + fb.len(), value);
            let v = sp_text(d, p, 600).0->Ok_0;
            assert(v.start =~= start);
            assert(v.end =~= end);
        },
        _ => {},
    }
}

proof fn lemma_read_solid(d: Seq<u8>, p: int, r: RecordV)
    requires
        r matches RecordV::Solid { base, color, .. } && (base.pen_color == 10) == (color is Some),
        holds_at(d, p, body_bytes(r)),
    ensures
        sp_solid(d, p, 600).0 matches Ok(v) && entity_record(v) == r,
        sp_solid(d, p, 600).1 == p + body_bytes(r).len(),
{
    match r {
        RecordV::Solid { base, values, color } => {
            let fs = values@;
            lemma_base_len(base);
            lemma_f64s_len(fs);
            lemma_auto_spec_u32_to_from_le_bytes();
            let tail = if base.pen_color == 10 {
                spec_u32_to_le_bytes(
                    match color {
                        Some(c) => c,
                        None => 0,
                    },
                )
            } else {
                Seq::empty()
            };
            lemma_holds_split(d, p, enc_base(base) + enc_f64s(fs), tail);
            lemma_holds_split(d, p, enc_base(base), enc_f64s(fs));
            lemma_read_base(d, p, base);
            lemma_read_f64s(d, p + 15, fs);
            if base.pen_color == 10 {
                lemma_read_u32(d, p + 79, color->Some_0);
            }
            let v = sp_solid(d, p, 600).0->Ok_0;
            match v {
                DecodedEntityV::CircleSolid(c) => {
                    assert(entity_record(v)->Solid_values =~= values);
                },
                DecodedEntityV::Solid(c) => {
                    assert(entity_record(v)->Solid_values =~= values);
                },
                _ => {},
            }
        },
        _ => {},
    }
}

proof fn lemma_read_block(d: Seq<u8>, p: int, r: RecordV)
    requires
        r is Block,
        holds_at(d, p, body_bytes(r)),
    ensures
        body_bytes(r).len() == 59,
        sp_block(d, p, 600).0 matches Ok(v) && entity_record(DecodedEntityV::Block(v)) == r,
        sp_block(d, p, 600).1 == p + 59,
{
    match r {
        RecordV::Block { base, ref_x, ref_y, scale_x, scale_y, rotation, def_number } => {
            let fs = seq![ref_x, ref_y, scale_x, scale_y, rotation];
            lemma_base_len(base);
            lemma_f64s_len(fs);
            lemma_auto_spec_u32_to_from_le_bytes();
            let x = spec_u32_to_le_bytes(def_number);
            lemma_holds_split(d, p, enc_base(base) + enc_f64s(fs), x);
            lemma_holds_split(d, p, enc_base(base), enc_f64s(fs));
            lemma_read_base(d, p, base);
            lemma_read_f64s(d, p + 15, fs);
            lemma_read_u32(d, p + 55, def_number);
        },
        _ => {},
    }
}

proof fn lemma_text_body_ok(r: RecordV)
    requires
        r matches RecordV::Text { font, value, .. } && text_round_trips(font) && text_round_trips(
            value,
        ),
    ensures
        enc_record_body(r) is Ok,
{
}

proof fn lemma_aux_bodies(aux_lines: Seq<RecordV>, aux_points: Seq<RecordV>)
    requires
        aux_lines.len() == 2,
        aux_lines[0] is Line,
        aux_lines[1] is Line,
        aux_points.len() == 4,
        forall|i: int| 0 <= i < 4 ==> #[trigger] point_round_trips(aux_points[i]),
    ensures
        enc_record_bodies(aux_lines) == Ok::<Seq<u8>, crate::codec::error::CodecErrorV>(
            body_bytes(aux_lines[0]) + body_bytes(aux_lines[1]),
        ),
        enc_record_bodies(aux_points) == Ok::<Seq<u8>, crate::codec::error::CodecErrorV>(
            body_bytes(aux_points[0]) + body_bytes(aux_points[1]) + body_bytes(aux_points[2])
                + body_bytes(aux_points[3]),
        ),
{
    let l1 = aux_lines[1];
    let q1 = aux_lines.drop_first();
    assert(q1[0] == l1);
    assert(q1.drop_first().len() == 0);
    assert(enc_record_bodies(q1.drop_first()) == Ok::<Seq<u8>, crate::codec::error::CodecErrorV>(
        Seq::empty(),
    ));
    assert(enc_record_body(l1) is Ok);
    assert(enc_record_bodies(q1) == Ok::<Seq<u8>, crate::codec::error::CodecErrorV>(
        body_bytes(l1) + Seq::empty(),
    ));
    assert(body_bytes(l1) + Seq::<u8>::empty() =~= body_bytes(l1));
    let a0 = aux_points[0];
    let a1 = aux_points[1];
    let a2 = aux_points[2];
    let a3 = aux_points[3];
    assert(point_round_trips(a0) && point_round_trips(a1) && point_round_trips(a2)
        && point_round_trips(a3));
    let r1 = aux_points.drop_first();
    let r2 = r1.drop_first();
    let r3 = r2.drop_first();
    assert(r1[0] == a1 && r2[0] == a2 && r3[0] == a3);
    assert(r3.drop_first().len() == 0);
    assert(enc_record_bodies(r3.drop_first()) == Ok::<Seq<u8>, crate::codec::error::CodecErrorV>(
        Seq::empty(),
    ));
    assert(enc_record_body(a3) is Ok);
    assert(enc_record_body(a2) is Ok);
    assert(enc_record_body(a1) is Ok);
    let b3 = body_bytes(a3) + Seq::<u8>::empty();
    assert(b3 =~= body_bytes(a3));
    assert(enc_record_bodies(r3) == Ok::<Seq<u8>, crate::codec::error::CodecErrorV>(b3));
    assert(enc_record_bodies(r2) == Ok::<Seq<u8>, crate::codec::error::CodecErrorV>(
        body_bytes(a2) + body_bytes(a3),
    ));
    assert(enc_record_bodies(r1) == Ok::<Seq<u8>, crate::codec::error::CodecErrorV>(
        body_bytes(a1) + (body_bytes(a2) + body_bytes(a3)),
    ));
    assert(body_bytes(a0) + (body_bytes(a1) + (body_bytes(a2) + body_bytes(a3))) =~= body_bytes(a0)
        + body_bytes(a1) + body_bytes(a2) + body_bytes(a3));
}

#[verifier::rlimit(60)]
#[verifier::spinoff_prover]
proof fn lemma_read_aux(
    d: Seq<u8>,
    p: int,
    sxf_mode: u16,
    aux_lines: Seq<RecordV>,
    aux_points: Seq<RecordV>,
)
    requires
        aux_lines.len() == 2,
        aux_lines[0] is Line,
        aux_lines[1] is Line,
        aux_points.len() == 4,
        forall|i: int| 0 <= i < 4 ==> #[trigger] point_round_trips(aux_points[i]),
        holds_at(
            d,
            p,
            spec_u16_to_le_bytes(sxf_mode) + (enc_record_bodies(aux_lines)->Ok_0
                + enc_record_bodies(aux_points)->Ok_0),
        ),
    ensures
        sp_dimension_aux(d, p, 600).0 matches Ok((sx, ls, ps)) && sx == sxf_mode && seq![
            line_record(ls[0]),
            line_record(ls[1]),
        ] == aux_lines && seq![
            point_record(ps[0]),
            point_record(ps[1]),
            point_record(ps[2]),
            point_record(ps[3]),
        ] == aux_points,
        sp_dimension_aux(d, p, 600).1 == p + 2 + enc_record_bodies(aux_lines)->Ok_0.len()
            + enc_record_bodies(aux_points)->Ok_0.len(),
{
    lemma_aux_bodies(aux_lines, aux_points);
    lemma_auto_spec_u16_to_from_le_bytes();
    let l0 = aux_lines[0];
    let l1 = aux_lines[1];
    let a0 = aux_points[0];
    let a1 = aux_points[1];
    let a2 = aux_points[2];
    let a3 = aux_points[3];
    assert(point_round_trips(a0) && point_round_trips(a1) && point_round_trips(a2)
        && point_round_trips(a3));
    let sx = spec_u16_to_le_bytes(sxf_mode);
    let al = body_bytes(l0) + body_bytes(l1);
    let ap = body_bytes(a0) + body_bytes(a1) + body_bytes(a2) + body_bytes(a3);
    lemma_holds_split(d, p, sx, al + ap);
    lemma_read_u16(d, p, sxf_mode);
    let p1 = p + 2;
    lemma_holds_split(d, p1, al, ap);
    lemma_holds_split(d, p1, body_bytes(l0), body_bytes(l1));
    lemma_read_line(d, p1, l0);
    lemma_read_line(d, p1 + 47, l1);
    let p2 = p1 + 94;
    lemma_holds_split(d, p2, body_bytes(a0) + body_bytes(a1) + body_bytes(a2), body_bytes(a3));
    lemma_holds_split(d, p2, body_bytes(a0) + body_bytes(a1), body_bytes(a2));
    lemma_holds_split(d, p2, body_bytes(a0), body_bytes(a1));
    lemma_read_point(d, p2, a0);
    let p3 = p2 + body_bytes(a0).len();
    lemma_read_point(d, p3, a1);
    let p4 = p3 + body_bytes(a1).len();
    lemma_read_point(d, p4, a2);
    let p5 = p4 + body_bytes(a2).len();
    lemma_read_point(d, p5, a3);
    let v = sp_dimension_aux(d, p, 600).0->Ok_0;
    assert(seq![line_record(v.1[0]), line_record(v.1[1])] =~= aux_lines);
    assert(seq![
        point_record(v.2[0]),
        point_record(v.2[1]),
        point_record(v.2[2]),
        point_record(v.2[3]),
    ] =~= aux_points);
}

proof fn lemma_read_dimension(d: Seq<u8>, p: int, r: RecordV)
    requires
        r is Dimension,
        record_round_trips(r),
        holds_at(d, p, body_bytes(r)),
    ensures
        enc_record_body(r) is Ok,
        sp_dimension(d, p, 600).0 matches Ok(v) && entity_record(DecodedEntityV::Dimension(v))
            == r,
        sp_dimension(d, p, 600).1 == p + body_bytes(r).len(),
{
    match r {
        RecordV::Dimension { base, line, text, sxf_mode, aux_lines, aux_points } => {
            let l = *line;
            let t = *text;
            lemma_text_body_ok(t);
            lemma_aux_bodies(aux_lines, aux_points);
            lemma_auto_spec_u16_to_from_le_bytes();
            let sx = spec_u16_to_le_bytes(sxf_mode);
            let eb = enc_base(base);
            let lb = body_bytes(l);
            let tb = body_bytes(t);
            let rest = sx + (enc_record_bodies(aux_lines)->Ok_0 + enc_record_bodies(
                aux_points,
            )->Ok_0);
            assert(body_bytes(r) == eb + (lb + (tb + rest)));
            lemma_base_len(base);
            lemma_holds_split(d, p, eb, lb + (tb + rest));
            let p1 = p + 15;
            lemma_holds_split(d, p1, lb, tb + rest);
            lemma_read_base(d, p, base);
            lemma_read_line(d, p1, l);
            let p2 = p1 + 47;
            lemma_holds_split(d, p2, tb, rest);
            lemma_read_text(d, p2, t);
            let p3 = p2 + tb.len();
            lemma_read_aux(d, p3, sxf_mode, aux_lines, aux_points);
        },
        _ => {},
    }
}

// ---------------------------------------------------------------------------
// Archives
// ---------------------------------------------------------------------------

/// `String::from_utf8_lossy` gives back ASCII bytes as the same characters.
pub open spec fn class_names_lossless() -> bool {
    forall|k: int|
        0 <= k < 7 ==> #[trigger] utf8_lossy(class_name_bytes(k)) == ascii_chars(class_name_bytes(k))
}

/// Decodes the seven entity class names with `String::from_utf8_lossy`. They
/// are ASCII, so they come back as written: after this call the round-trip
/// laws' premise `class_names_lossless` holds.
pub fn decode_class_names()
    ensures
        class_names_lossless(),
{
    let mut k: usize = 0;
    while k < 7
        invariant
            k <= 7,
            forall|j: int|
                0 <= j < k ==> #[trigger] utf8_lossy(class_name_bytes(j)) == ascii_chars(
                    class_name_bytes(j),
                ),
        decreases 7 - k,
    {
        let b = crate::codec::encode::class_bytes(k);
        assert(is_ascii_bytes(b@)) by {
            assert(forall|i: int| 0 <= i < b@.len() ==> b@[i] < 0x80);
        }
        let _ = lossy_utf8(b.as_slice());
        k = k + 1;
    }
}

/// Whether a text survives CP932 as `text_round_trips` says, found by
/// encoding and decoding it.
#[verifier::loop_isolation(false)]
pub fn text_reads_back(text: &str) -> (ok: bool)
    ensures
        ok == text_round_trips(text@),
{
    let (bytes, had_errors) = encode_sjis(text);
    if had_errors || bytes.len() as u64 > 0xffff_ffffu64 {
        return false;
    }
    let (chars, bad) = decode_sjis(bytes.as_slice());
    if bad {
        return false;
    }
    let original = chars_of(text);
    if chars.len() != original.len() {
        return false;
    }
    let mut i: usize = 0;
    while i < chars.len()
        invariant
            i <= chars.len(),
            chars.len() == original.len(),
            original@ == text@,
            forall|j: int| 0 <= j < i ==> chars@[j] == original@[j],
        decreases chars.len() - i,
    {
        if chars[i] != original[i] {
            assert(chars@[i as int] != text@[i as int]);
            return false;
        }
        i = i + 1;
    }
    assert(chars@ =~= text@);
    !(original.len() > 0 && original[original.len() - 1] == '\0')
}

pub open spec fn entity_kind(r: RecordV) -> SupportedEntityClass {
    match r {
        RecordV::Line { .. } => SupportedEntityClass::Line,
        RecordV::Arc { .. } => SupportedEntityClass::Arc,
        RecordV::Point { .. } => SupportedEntityClass::Point,
        RecordV::Text { .. } => SupportedEntityClass::Text,
        RecordV::Dimension { .. } => SupportedEntityClass::Dimension,
        RecordV::Solid { .. } => SupportedEntityClass::Solid,
        RecordV::Block { .. } => SupportedEntityClass::Block,
    }
}

/// The class name the decoder reads for a record's class declaration is the
/// record's class name, and it names the record's kind.
proof fn lemma_class_name_read(r: RecordV)
    requires
        class_names_lossless(),
    ensures
        utf8_lossy(class_name_bytes(class_index(r))) == Record::spec_class_name(r),
        spec_entity_class(Record::spec_class_name(r)) == Some(entity_kind(r)),
{
    reveal_strlit("CDataSen");
    reveal_strlit("CDataEnko");
    reveal_strlit("CDataTen");
    reveal_strlit("CDataMoji");
    reveal_strlit("CDataSunpou");
    reveal_strlit("CDataSolid");
    reveal_strlit("CDataBlock");
    let b = class_name_bytes(class_index(r));
    assert(utf8_lossy(b) == ascii_chars(b));
    assert(ascii_chars(b) =~= Record::spec_class_name(r));
    let n = Record::spec_class_name(r);
    assert(n.len() == 8 ==> n != "CDataEnko"@ && n != "CDataMoji"@);
    if n.len() == 8 {
        assert(n[5] == 'S' ==> n != "CDataTen"@);
    }
    if n.len() == 10 {
        assert(n[5] == 'B' ==> n != "CDataSolid"@);
        assert(n[5] == 'S' ==> n != "CDataBlock"@);
    }
    if n.len() == 9 {
        assert(n[5] == 'E' ==> n != "CDataMoji"@);
        assert(n[5] == 'M' ==> n != "CDataEnko"@);
    }
}

proof fn lemma_read_body(d: Seq<u8>, p: int, r: RecordV)
    requires
        class_names_lossless(),
        record_round_trips(r),
        holds_at(d, p, body_bytes(r)),
    ensures
        enc_record_body(r) is Ok,
        sp_entity_body(d, p, 600, Record::spec_class_name(r)).0 matches Ok(e) && entity_record(e)
            == r,
        sp_entity_body(d, p, 600, Record::spec_class_name(r)).1 == p + body_bytes(r).len(),
{
    reveal(sp_entity_body);
    lemma_class_name_read(r);
    match r {
        RecordV::Line { .. } => {
            lemma_read_line(d, p, r);
        },
        RecordV::Arc { .. } => {
            lemma_read_arc(d, p, r);
        },
        RecordV::Point { .. } => {
            lemma_read_point(d, p, r);
        },
        RecordV::Text { .. } => {
            lemma_text_body_ok(r);
            lemma_read_text(d, p, r);
        },
        RecordV::Dimension { .. } => {
            lemma_read_dimension(d, p, r);
        },
        RecordV::Solid { .. } => {
            lemma_read_solid(d, p, r);
        },
        RecordV::Block { .. } => {
            lemma_read_block(d, p, r);
        },
    }
}

/// How many classes an archive writer has not declared yet.
pub open spec fn undeclared(ids: Seq<Option<u16>>) -> nat
    decreases ids.len(),
{
    if ids.len() == 0 {
        0
    } else {
        undeclared(ids.drop_last()) + if ids.last() is None {
            1nat
        } else {
            0nat
        }
    }
}

proof fn lemma_undeclared_update(ids: Seq<Option<u16>>, k: int, v: u16)
    requires
        0 <= k < ids.len(),
        ids[k] is None,
    ensures
        undeclared(ids.update(k, Some(v))) + 1 == undeclared(ids),
    decreases ids.len(),
{
    let u = ids.update(k, Some(v));
    if k == ids.len() - 1 {
        assert(u.drop_last() =~= ids.drop_last());
    } else {
        assert(u.drop_last() =~= ids.drop_last().update(k, Some(v)));
        lemma_undeclared_update(ids.drop_last(), k, v);
    }
}

/// The writer's class ids and the reader's class table agree: each declared
/// class id is below the next position and is looked up to its class name,
/// and every table entry is below the next position.
pub open spec fn tables_agree(ids: Seq<Option<u16>>, position: int, t: ClassTableV) -> bool {
    &&& ids.len() == 7
    &&& 1 <= position
    &&& forall|k: int|
        0 <= k < 7 ==> (#[trigger] ids[k] matches Some(id) ==> 1 <= id < position && class_lookup(
            t,
            id as u32,
        ) == Some(utf8_lossy(class_name_bytes(k))))
    &&& forall|i: int| 0 <= i < t.len() ==> #[trigger] t[i].0 < position
}

proof fn lemma_lookup_push(t: ClassTableV, pid: u32, name: Seq<char>, q: u32)
    ensures
        class_lookup(t.push((pid, name)), q) == if q == pid {
            Some(name)
        } else {
            class_lookup(t, q)
        },
{
    assert(t.push((pid, name)).drop_last() =~= t);
}

proof fn lemma_class_bits(id: u16)
    requires
        1 <= id < 0x7fff,
    ensures
        id | 0x8000u16 != 0xffffu16,
        id | 0x8000u16 != 0x8000u16,
        ((id | 0x8000u16) & 0x7fffu16) == id,
{
    assert(id | 0x8000u16 != 0xffffu16) by (bit_vector)
        requires
            1 <= id < 0x7fff,
    ;
    assert(id | 0x8000u16 != 0x8000u16) by (bit_vector)
        requires
            1 <= id < 0x7fff,
    ;
    assert(((id | 0x8000u16) & 0x7fffu16) == id) by (bit_vector)
        requires
            1 <= id < 0x7fff,
    ;
}

/// One archive object: what the reader makes of a record that the writer
/// declared or referenced.
proof fn lemma_read_object(
    d: Seq<u8>,
    p: int,
    r: RecordV,
    ids: Seq<Option<u16>>,
    position: int,
    t: ClassTableV,
)
    requires
        class_names_lossless(),
        record_round_trips(r),
        tables_agree(ids, position, t),
        position + 2 < 0x7fff,
        enc_class_ref(r, ids, position) is Ok,
        holds_at(d, p, enc_class_ref(r, ids, position)->Ok_0.0 + body_bytes(r)),
    ensures
        enc_record_body(r) is Ok,
        ({
            let (head, ids2, p2) = enc_class_ref(r, ids, position)->Ok_0;
            let (res, q) = sp_entity(d, p, 600, t, position as u32);
            &&& res matches Ok((Some(e), t2, np2)) && entity_record(e) == r && np2 == p2 + 1
                && tables_agree(ids2, p2 + 1, t2)
            &&& q == p + head.len() + body_bytes(r).len()
            &&& p2 + 1 + undeclared(ids2) == position + 1 + undeclared(ids)
        }),
{
    reveal(sp_entity);
    lemma_auto_spec_u16_to_from_le_bytes();
    let k = class_index(r);
    let (head, ids2, p2) = enc_class_ref(r, ids, position)->Ok_0;
    lemma_holds_split(d, p, head, body_bytes(r));
    lemma_class_name_read(r);
    match ids[k] {
        Some(id) => {
            lemma_class_bits(id);
            lemma_read_u16(d, p, id | 0x8000u16);
            assert(class_lookup(t, id as u32) == Some(Record::spec_class_name(r)));
            lemma_read_body(d, p + 2, r);
        },
        None => {
            let name = class_name_bytes(k);
            let s1 = spec_u16_to_le_bytes(0xffff);
            let s2 = spec_u16_to_le_bytes(600);
            let s3 = spec_u16_to_le_bytes(name.len() as u16);
            lemma_holds_split(d, p, s1 + s2 + s3, name);
            lemma_holds_split(d, p, s1 + s2, s3);
            lemma_holds_split(d, p, s1, s2);
            lemma_read_u16(d, p, 0xffff);
            lemma_read_u16(d, p + 2, 600);
            lemma_read_u16(d, p + 4, name.len() as u16);
            assert(sp_take(d, p + 6, name.len() as int).0 == Ok::<
                Seq<u8>,
                crate::codec::error::CodecErrorV,
            >(name));
            lemma_read_body(d, p + 6 + name.len(), r);
            lemma_undeclared_update(ids, k, position as u16);
            let t2 = t.push((position as u32, utf8_lossy(name)));
            assert forall|j: int| 0 <= j < 7 implies (#[trigger] ids2[j] matches Some(id) ==> 1
                <= id < position + 2 && class_lookup(t2, id as u32) == Some(
                utf8_lossy(class_name_bytes(j)),
            )) by {
                match ids2[j] {
                    Some(id) => {
                        lemma_lookup_push(t, position as u32, utf8_lossy(name), id as u32);
                    },
                    None => {},
                }
            }
            assert forall|i: int| 0 <= i < t2.len() implies #[trigger] t2[i].0 < position + 2 by {
                if i < t.len() {
                    assert(t2[i] == t[i]);
                }
            }
        },
    }
}

proof fn lemma_body_ok(r: RecordV)
    requires
        record_round_trips(r),
    ensures
        enc_record_body(r) is Ok,
{
    match r {
        RecordV::Text { .. } => {
            lemma_text_body_ok(r);
        },
        RecordV::Dimension { base, line, text, sxf_mode, aux_lines, aux_points } => {
            lemma_text_body_ok(*text);
            lemma_aux_bodies(aux_lines, aux_points);
            assert(enc_record_body(*line) is Ok);
        },
        _ => {},
    }
}

pub open spec fn records_of(es: Seq<DecodedEntityV>) -> Seq<RecordV> {
    es.map_values(|e: DecodedEntityV| entity_record(e))
}

proof fn lemma_archive_ok(rs: Seq<RecordV>, ids: Seq<Option<u16>>, position: int)
    requires
        forall|i: int| 0 <= i < rs.len() ==> record_round_trips(#[trigger] rs[i]),
        ids.len() == 7,
        1 <= position,
        position + rs.len() + undeclared(ids) <= 0x7ff0,
    ensures
        enc_archive(rs, ids, position) is Ok,
    decreases rs.len(),
{
    if rs.len() > 0 {
        let r = rs[0];
        lemma_body_ok(r);
        let k = class_index(r);
        let (head, ids2, p2) = enc_class_ref(r, ids, position)->Ok_0;
        if ids[k] is None {
            lemma_undeclared_update(ids, k, position as u16);
        }
        assert forall|i: int| 0 <= i < rs.drop_first().len() implies record_round_trips(
            #[trigger] rs.drop_first()[i],
        ) by {
            assert(rs.drop_first()[i] == rs[i + 1]);
        }
        lemma_archive_ok(rs.drop_first(), ids2, p2 + 1);
    }
}

proof fn lemma_read_archive(
    d: Seq<u8>,
    p: int,
    rs: Seq<RecordV>,
    ids: Seq<Option<u16>>,
    position: int,
    t: ClassTableV,
)
    requires
        class_names_lossless(),
        forall|i: int| 0 <= i < rs.len() ==> record_round_trips(#[trigger] rs[i]),
        tables_agree(ids, position, t),
        position + rs.len() + undeclared(ids) <= 0x7ff0,
        holds_at(d, p, enc_archive(rs, ids, position)->Ok_0),
    ensures
        enc_archive(rs, ids, position) is Ok,
        sp_entities(d, p, 600, rs.len(), t, position as u32).0 matches Ok(es) && records_of(es)
            == rs,
        sp_entities(d, p, 600, rs.len(), t, position as u32).1 == p + enc_archive(
            rs,
            ids,
            position,
        )->Ok_0.len(),
    decreases rs.len(),
{
    lemma_archive_ok(rs, ids, position);
    if rs.len() == 0 {
        assert(records_of(Seq::empty()) =~= rs);
    } else {
        let r = rs[0];
        let rest = rs.drop_first();
        lemma_body_ok(r);
        let k = class_index(r);
        let (head, ids2, p2) = enc_class_ref(r, ids, position)->Ok_0;
        if ids[k] is None {
            lemma_undeclared_update(ids, k, position as u16);
        }
        assert forall|i: int| 0 <= i < rest.len() implies record_round_trips(#[trigger] rest[i]) by {
            assert(rest[i] == rs[i + 1]);
        }
        lemma_archive_ok(rest, ids2, p2 + 1);
        let body = body_bytes(r);
        let tail = enc_archive(rest, ids2, p2 + 1)->Ok_0;
        assert(enc_archive(rs, ids, position)->Ok_0 == head + (body + tail));
        assert(head + (body + tail) =~= (head + body) + tail);
        lemma_holds_split(d, p, head + body, tail);
        lemma_read_object(d, p, r, ids, position, t);
        let (res, q) = sp_entity(d, p, 600, t, position as u32);
        let (e, t2, np2) = res->Ok_0;
        assert(q == p + (head + body).len());
        lemma_read_archive(d, q, rest, ids2, p2 + 1, t2);
        let es2 = sp_entities(d, q, 600, rest.len(), t2, np2).0->Ok_0;
        assert((p2 + 1) as u32 == np2);
        let all = opt_seq(e) + es2;
        assert(sp_entities(d, p, 600, rs.len(), t, position as u32) == glue(
            opt_seq(e),
            sp_entities(d, q, 600, (rs.len() - 1) as nat, t2, np2),
        ));
        assert(records_of(all) =~= rs) by {
            assert(records_of(all)[0] == r);
            assert forall|i: int| 1 <= i < rs.len() implies #[trigger] records_of(all)[i] == rs[i] by {
                assert(all[i] == es2[i - 1]);
                assert(records_of(es2)[i - 1] == rest[i - 1]);
            }
        }
    }
}

/// An entity list that the writer produced, found at position `p`, reads back
/// record for record and ends where it was written to end.
proof fn lemma_read_entity_list(d: Seq<u8>, p: int, rs: Seq<RecordV>)
    requires
        class_names_lossless(),
        rs.len() <= 0x7fe8,
        forall|i: int| 0 <= i < rs.len() ==> record_round_trips(#[trigger] rs[i]),
        holds_at(d, p, enc_entity_list(rs)->Ok_0),
    ensures
        enc_entity_list(rs) is Ok,
        sp_entity_list(d, p, 600).0 matches Ok(es) && records_of(es) == rs,
        sp_entity_list(d, p, 600).1 == p + enc_entity_list(rs)->Ok_0.len(),
{
    lemma_auto_spec_u16_to_from_le_bytes();
    let ids = no_class_ids();
    assert(undeclared(ids) == 7) by {
        reveal_with_fuel(undeclared, 8);
    }
    lemma_archive_ok(rs, ids, 1);
    let n = spec_u16_to_le_bytes(rs.len() as u16);
    let body = enc_archive(rs, ids, 1)->Ok_0;
    lemma_holds_split(d, p, n, body);
    lemma_read_u16(d, p, rs.len() as u16);
    let t: ClassTableV = Seq::empty();
    assert(tables_agree(ids, 1, t));
    lemma_read_archive(d, p + 2, rs, ids, 1, t);
}

/// Reading back an entity list that the writer produced gives one decoded
/// entity per record, in order, each converting back to exactly that record;
/// the reader stops where the list ends, whatever follows it.
///
/// This holds for lists of at most 32 752 records that read back one by one
/// (`record_round_trips`), given that `String::from_utf8_lossy` keeps the
/// class names as they are (`decode_class_names`).
pub proof fn lemma_entity_list_round_trip(rs: Seq<RecordV>, rest: Seq<u8>)
    requires
        class_names_lossless(),
        rs.len() <= 0x7fe8,
        forall|i: int| 0 <= i < rs.len() ==> record_round_trips(#[trigger] rs[i]),
        enc_entity_list(rs)->Ok_0.len() + rest.len() <= usize::MAX,
    ensures
        enc_entity_list(rs) is Ok,
        sp_entity_list(enc_entity_list(rs)->Ok_0 + rest, 0, 600).0 matches Ok(es) && records_of(
            es,
        ) == rs,
        sp_entity_list(enc_entity_list(rs)->Ok_0 + rest, 0, 600).1 == enc_entity_list(
            rs,
        )->Ok_0.len(),
{
    let e = enc_entity_list(rs)->Ok_0;
    let d = e + rest;
    assert(d.subrange(0, e.len() as int) =~= e);
    lemma_read_entity_list(d, 0, rs);
}

/// A block definition that reads back as written: a name that survives CP932
/// and at most 32 752 records that read back one by one.
pub open spec fn block_round_trips(b: BlockDefinitionV) -> bool {
    &&& text_round_trips(b.name)
    &&& b.records.len() <= 0x7fe8
    &&& forall|i: int| 0 <= i < b.records.len() ==> record_round_trips(#[trigger] b.records[i])
}

/// The block definition that a decoded one stands for.
pub open spec fn block_of(b: DecodedBlockDefinitionV) -> BlockDefinitionV {
    BlockDefinitionV {
        base: base_of(b.base),
        number: b.number,
        is_referenced: b.is_referenced,
        reserved: b.reserved,
        name: b.name,
        records: records_of(b.entities),
    }
}

spec fn block_head(b: BlockDefinitionV) -> Seq<u8> {
    spec_u16_to_le_bytes(0xffff) + spec_u16_to_le_bytes(600) + spec_u16_to_le_bytes(9) + seq![
        0x43u8,
        0x44,
        0x61,
        0x74,
        0x61,
        0x4c,
        0x69,
        0x73,
        0x74,
    ] + enc_base(b.base) + spec_u32_to_le_bytes(b.number) + spec_u32_to_le_bytes(b.is_referenced)
        + spec_u32_to_le_bytes(b.reserved)
}

proof fn lemma_block_def_ok(b: BlockDefinitionV)
    requires
        block_round_trips(b),
    ensures
        enc_cstring(b.name) is Ok,
        enc_entity_list(b.records) is Ok,
        enc_block_definition(b) is Ok,
        enc_block_definition(b)->Ok_0 == block_head(b) + (enc_cstring(b.name)->Ok_0
            + enc_entity_list(b.records)->Ok_0),
{
    let ids = no_class_ids();
    assert(undeclared(ids) == 7) by {
        reveal_with_fuel(undeclared, 8);
    }
    lemma_archive_ok(b.records, ids, 1);
}

/// One block definition that the writer produced reads back as written, and
/// the reader goes on right after it.
#[verifier::rlimit(40)]
#[verifier::spinoff_prover]
proof fn lemma_read_block_def(
    d: Seq<u8>,
    p: int,
    b: BlockDefinitionV,
    t: ClassTableV,
    next_pid: u32,
    numbers: Seq<u32>,
)
    requires
        class_names_lossless(),
        block_round_trips(b),
        !numbers.contains(b.number),
        next_pid < u32::MAX,
        holds_at(d, p, enc_block_definition(b)->Ok_0),
    ensures
        enc_block_definition(b) is Ok,
        ({
            let (res, q) = sp_block_def(d, p, 600, t, next_pid, numbers);
            &&& res matches Ok((Some(db), t2, np2, n2)) && block_of(db) == b && np2 == next_pid + 1
                && n2 == numbers.push(b.number)
            &&& q == p + enc_block_definition(b)->Ok_0.len()
        }),
{
    reveal(sp_block_def);
    reveal(sp_block_def_body);
    lemma_auto_spec_u16_to_from_le_bytes();
    lemma_auto_spec_u32_to_from_le_bytes();
    lemma_block_def_ok(b);
    lemma_base_len(b.base);
    let s1 = spec_u16_to_le_bytes(0xffff);
    let s2 = spec_u16_to_le_bytes(600);
    let s3 = spec_u16_to_le_bytes(9);
    let nm = seq![0x43u8, 0x44, 0x61, 0x74, 0x61, 0x4c, 0x69, 0x73, 0x74];
    let eb = enc_base(b.base);
    let n1 = spec_u32_to_le_bytes(b.number);
    let n2 = spec_u32_to_le_bytes(b.is_referenced);
    let n3 = spec_u32_to_le_bytes(b.reserved);
    let cs = enc_cstring(b.name)->Ok_0;
    let el = enc_entity_list(b.records)->Ok_0;
    let head = block_head(b);
    assert(head == s1 + s2 + s3 + nm + eb + n1 + n2 + n3);
    lemma_holds_split(d, p, head, cs + el);
    lemma_holds_split(d, p + 42, cs, el);
    lemma_holds_split(d, p, s1 + s2 + s3 + nm + eb + n1 + n2, n3);
    lemma_holds_split(d, p, s1 + s2 + s3 + nm + eb + n1, n2);
    lemma_holds_split(d, p, s1 + s2 + s3 + nm + eb, n1);
    lemma_holds_split(d, p, s1 + s2 + s3 + nm, eb);
    lemma_holds_split(d, p, s1 + s2 + s3, nm);
    lemma_holds_split(d, p, s1 + s2, s3);
    lemma_holds_split(d, p, s1, s2);
    lemma_read_u16(d, p, 0xffff);
    lemma_read_u16(d, p + 2, 600);
    lemma_read_u16(d, p + 4, 9);
    assert(sp_take(d, p + 6, 9).0 == Ok::<Seq<u8>, crate::codec::error::CodecErrorV>(nm));
    lemma_read_base(d, p + 15, b.base);
    lemma_read_u32(d, p + 30, b.number);
    lemma_read_u32(d, p + 34, b.is_referenced);
    lemma_read_u32(d, p + 38, b.reserved);
    lemma_read_cstring(d, p + 42, b.name);
    lemma_read_entity_list(d, p + 42 + cs.len(), b.records);
}

proof fn lemma_block_seq_front(bs: Seq<BlockDefinitionV>)
    requires
        forall|i: int| 0 <= i < bs.len() ==> block_round_trips(#[trigger] bs[i]),
    ensures
        enc_block_definition_seq(bs) is Ok,
        bs.len() > 0 ==> enc_block_definition_seq(bs)->Ok_0 == enc_block_definition(bs[0])->Ok_0
            + enc_block_definition_seq(bs.drop_first())->Ok_0,
    decreases bs.len(),
{
    if bs.len() > 0 {
        let front = bs.drop_last();
        assert forall|i: int| 0 <= i < front.len() implies block_round_trips(#[trigger] front[i]) by {
            assert(front[i] == bs[i]);
        }
        lemma_block_seq_front(front);
        lemma_block_def_ok(bs.last());
        let rest = bs.drop_first();
        assert forall|i: int| 0 <= i < rest.len() implies block_round_trips(#[trigger] rest[i]) by {
            assert(rest[i] == bs[i + 1]);
        }
        lemma_block_seq_front(rest);
        lemma_block_def_ok(bs[0]);
        if bs.len() == 1 {
            assert(front =~= Seq::<BlockDefinitionV>::empty());
            assert(rest =~= Seq::<BlockDefinitionV>::empty());
            assert(Seq::<u8>::empty() + enc_block_definition(bs[0])->Ok_0 =~= enc_block_definition(
                bs[0],
            )->Ok_0 + Seq::<u8>::empty());
        } else {
            assert(front.drop_first() =~= rest.drop_last());
            assert(front[0] == bs[0]);
            assert(rest.last() == bs.last());
            let a = enc_block_definition(bs[0])->Ok_0;
            let m = enc_block_definition_seq(rest.drop_last())->Ok_0;
            let z = enc_block_definition(bs.last())->Ok_0;
            assert((a + m) + z =~= a + (m + z));
        }
    }
}

proof fn lemma_read_block_defs(
    d: Seq<u8>,
    p: int,
    bs: Seq<BlockDefinitionV>,
    t: ClassTableV,
    next_pid: u32,
    numbers: Seq<u32>,
)
    requires
        class_names_lossless(),
        forall|i: int| 0 <= i < bs.len() ==> block_round_trips(#[trigger] bs[i]),
        forall|i: int| 0 <= i < bs.len() ==> !numbers.contains(#[trigger] bs[i].number),
        forall|i: int, j: int| 0 <= i < j < bs.len() ==> bs[i].number != bs[j].number,
        next_pid + bs.len() < u32::MAX,
        holds_at(d, p, enc_block_definition_seq(bs)->Ok_0),
    ensures
        enc_block_definition_seq(bs) is Ok,
        sp_block_defs(d, p, 600, bs.len(), t, next_pid, numbers).0 matches Ok(dbs) && dbs.len()
            == bs.len() && forall|i: int| 0 <= i < bs.len() ==> block_of(#[trigger] dbs[i]) == bs[i],
    decreases bs.len(),
{
    lemma_block_seq_front(bs);
    if bs.len() == 0 {
    } else {
        let b = bs[0];
        let rest = bs.drop_first();
        let e = enc_block_definition(b)->Ok_0;
        lemma_holds_split(d, p, e, enc_block_definition_seq(rest)->Ok_0);
        lemma_read_block_def(d, p, b, t, next_pid, numbers);
        let (res, q) = sp_block_def(d, p, 600, t, next_pid, numbers);
        let (def, t2, np2, n2) = res->Ok_0;
        let db = def->Some_0;
        assert forall|i: int| 0 <= i < rest.len() implies block_round_trips(#[trigger] rest[i]) by {
            assert(rest[i] == bs[i + 1]);
        }
        assert forall|i: int| 0 <= i < rest.len() implies !n2.contains(#[trigger] rest[i].number) by {
            assert(rest[i] == bs[i + 1]);
            assert(bs[0].number != bs[i + 1].number);
            if n2.contains(rest[i].number) {
                let k = choose|k: int| 0 <= k < n2.len() && n2[k] == rest[i].number;
                if k < numbers.len() {
                    assert(numbers[k] == n2[k]);
                }
            }
        }
        assert forall|i: int, j: int| 0 <= i < j < rest.len() implies rest[i].number
            != rest[j].number by {
            assert(rest[i] == bs[i + 1]);
            assert(rest[j] == bs[j + 1]);
        }
        lemma_read_block_defs(d, q, rest, t2, np2, n2);
        let tail = sp_block_defs(d, q, 600, rest.len(), t2, np2, n2);
        let dbs2 = tail.0->Ok_0;
        assert(sp_block_defs(d, p, 600, bs.len(), t, next_pid, numbers) == glue(seq![db], tail));
        let all = seq![db] + dbs2;
        assert forall|i: int| 0 <= i < bs.len() implies block_of(#[trigger] all[i]) == bs[i] by {
            if i > 0 {
                assert(all[i] == dbs2[i - 1]);
                assert(rest[i - 1] == bs[i]);
            }
        }
    }
}

/// Reading back a block definition list that the writer produced gives one
/// definition per block, in order, each standing for exactly that block.
///
/// This holds for at most 10 000 blocks with distinct numbers that read back
/// one by one (`block_round_trips`), given that `String::from_utf8_lossy` keeps
/// the class names as they are (`decode_class_names`).
pub proof fn lemma_block_definitions_round_trip(bs: Seq<BlockDefinitionV>)
    requires
        class_names_lossless(),
        bs.len() <= 10_000,
        forall|i: int| 0 <= i < bs.len() ==> block_round_trips(#[trigger] bs[i]),
        forall|i: int, j: int| 0 <= i < j < bs.len() ==> bs[i].number != bs[j].number,
        enc_block_definitions(bs)->Ok_0.len() <= usize::MAX,
    ensures
        enc_block_definitions(bs) is Ok,
        sp_block_definitions(enc_block_definitions(bs)->Ok_0, 600) matches Ok(dbs) && dbs.len()
            == bs.len() && forall|i: int| 0 <= i < bs.len() ==> block_of(#[trigger] dbs[i]) == bs[i],
{
    lemma_auto_spec_u32_to_from_le_bytes();
    lemma_block_seq_front(bs);
    let n = spec_u32_to_le_bytes(bs.len() as u32);
    let body = enc_block_definition_seq(bs)->Ok_0;
    let d = enc_block_definitions(bs)->Ok_0;
    assert(d == n + body);
    assert(d.subrange(0, d.len() as int) =~= d);
    lemma_holds_split(d, 0, n, body);
    lemma_read_u32(d, 0, bs.len() as u32);
    let empty: Seq<u32> = Seq::empty();
    lemma_read_block_defs(d, 4, bs, Seq::empty(), 1, empty);
}

proof fn lemma_rep_len(b: Seq<u8>, n: nat)
    requires
        b.len() == 4,
    ensures
        rep(b, n).len() == 4 * n,
    decreases n,
{
    if n > 0 {
        lemma_rep_len(b, (n - 1) as nat);
    }
}

/// A written header starts with the signature and version 600 and is at least
/// 100 bytes long.
proof fn lemma_header_prefix(h: crate::codec::types::HeaderV)
    requires
        enc_header(h) is Ok,
    ensures
        enc_header(h)->Ok_0.len() >= 100,
        enc_header(h)->Ok_0.subrange(0, 12) == signature_bytes() + u32b(600),
{
    reveal(enc_header);
    lemma_auto_spec_u32_to_from_le_bytes();
    lemma_auto_spec_u64_to_from_le_bytes();
    lemma_rep_len(u32b(0), 21);
    assert(header_gap_a().len() >= 100);
    let sv = signature_bytes() + u32b(600);
    assert(sv.len() == 12);
    let hb = enc_header(h)->Ok_0;
    assert(hb.subrange(0, 12) =~= sv);
}

proof fn lemma_header_version(d: Seq<u8>)
    ensures
        sp_header(d) matches Ok(h) ==> sp_u32(d, 8).0 == Ok::<u32, crate::codec::error::CodecErrorV>(
            h.version,
        ),
{
}

proof fn lemma_body_len(r: RecordV)
    requires
        enc_record_body(r) is Ok,
    ensures
        body_bytes(r).len() >= 15,
{
    match r {
        RecordV::Point { base, marker, .. } => {
            let b = if marker is Some {
                Base { pen_style: 100, ..base }
            } else {
                base
            };
            lemma_base_len(b);
        },
        RecordV::Line { base, .. } => lemma_base_len(base),
        RecordV::Arc { base, .. } => lemma_base_len(base),
        RecordV::Text { base, .. } => lemma_base_len(base),
        RecordV::Dimension { base, .. } => lemma_base_len(base),
        RecordV::Solid { base, .. } => lemma_base_len(base),
        RecordV::Block { base, .. } => lemma_base_len(base),
    }
}

proof fn lemma_first_marker_at(d: Seq<u8>, i: int, end: int, schema: u16, m: int)
    requires
        i <= m < end,
        forall|j: int| i <= j < m ==> !is_entity_marker(d, j, schema),
        is_entity_marker(d, m, schema),
    ensures
        first_marker(d, i, end, schema) == Some(m),
    decreases m - i,
{
    if i < m {
        lemma_first_marker_at(d, i + 1, end, schema, m);
    }
}

proof fn lemma_read_layers_fixed(d: Seq<u8>, p: int, ls: Seq<LayerV>)
    requires
        holds_at(d, p, enc_layers_fixed(ls)),
    ensures
        enc_layers_fixed(ls).len() == 8 * ls.len(),
        sp_layers_fixed(d, p, ls.len()).0 is Ok,
        sp_layers_fixed(d, p, ls.len()).1 == p + enc_layers_fixed(ls).len(),
    decreases ls.len(),
{
    lemma_auto_spec_u32_to_from_le_bytes();
    if ls.len() > 0 {
        let dl = ls.drop_last();
        let a = enc_layers_fixed(dl);
        let l = ls.last();
        lemma_holds_split(d, p, a + u32b(l.state), u32b(l.protect));
        lemma_holds_split(d, p, a, u32b(l.state));
        lemma_read_layers_fixed(d, p, dl);
        lemma_read_u32(d, p + a.len(), l.state);
        lemma_read_u32(d, p + a.len() + 4, l.protect);
    }
}

proof fn lemma_read_groups_fixed(d: Seq<u8>, p: int, gs: Seq<LayerGroupV>)
    requires
        forall|g: int| 0 <= g < gs.len() ==> (#[trigger] gs[g]).layers.len() == 16,
        holds_at(d, p, enc_groups_fixed(gs)),
    ensures
        sp_groups_fixed(d, p, gs.len()).0 is Ok,
        sp_groups_fixed(d, p, gs.len()).1 == p + enc_groups_fixed(gs).len(),
    decreases gs.len(),
{
    lemma_auto_spec_u32_to_from_le_bytes();
    lemma_auto_spec_u64_to_from_le_bytes();
    if gs.len() > 0 {
        let dl = gs.drop_last();
        let a = enc_groups_fixed(dl);
        let g = gs.last();
        assert(g.layers.len() == 16);
        let s1 = u32b(g.state);
        let s2 = u32b(g.write_layer);
        let s3 = f64b(g.scale);
        let s4 = u32b(g.protect);
        let s5 = enc_layers_fixed(g.layers);
        assert(enc_groups_fixed(gs) == a + s1 + s2 + s3 + s4 + s5);
        lemma_holds_split(d, p, a + s1 + s2 + s3 + s4, s5);
        lemma_holds_split(d, p, a + s1 + s2 + s3, s4);
        lemma_holds_split(d, p, a + s1 + s2, s3);
        lemma_holds_split(d, p, a + s1, s2);
        lemma_holds_split(d, p, a, s1);
        assert forall|k: int| 0 <= k < dl.len() implies (#[trigger] dl[k]).layers.len() == 16 by {
            assert(dl[k] == gs[k]);
        }
        lemma_read_groups_fixed(d, p, dl);
        let q = p + a.len();
        lemma_read_u32(d, q, g.state);
        lemma_read_u32(d, q + 4, g.write_layer);
        lemma_read_f64(d, q + 8, g.scale);
        lemma_read_u32(d, q + 16, g.protect);
        lemma_read_layers_fixed(d, q + 20, g.layers);
    }
}

/// Texts written one after another as archive strings.
pub open spec fn enc_cstrings(ss: Seq<Seq<char>>) -> Seq<u8>
    decreases ss.len(),
{
    if ss.len() == 0 {
        Seq::empty()
    } else {
        enc_cstrings(ss.drop_last()) + enc_cstring(ss.last())->Ok_0
    }
}

pub open spec fn layer_names_of(ls: Seq<LayerV>) -> Seq<Seq<char>> {
    ls.map_values(|l: LayerV| l.name)
}

pub open spec fn group_layer_names_of(gs: Seq<LayerGroupV>) -> Seq<Seq<char>>
    decreases gs.len(),
{
    if gs.len() == 0 {
        Seq::empty()
    } else {
        group_layer_names_of(gs.drop_last()) + layer_names_of(gs.last().layers)
    }
}

pub open spec fn group_names_of(gs: Seq<LayerGroupV>) -> Seq<Seq<char>> {
    gs.map_values(|g: LayerGroupV| g.name)
}

proof fn lemma_enc_cstrings_cat(a: Seq<Seq<char>>, b: Seq<Seq<char>>)
    ensures
        enc_cstrings(a + b) == enc_cstrings(a) + enc_cstrings(b),
    decreases b.len(),
{
    if b.len() == 0 {
        assert(a + b =~= a);
        assert(enc_cstrings(a) + Seq::<u8>::empty() =~= enc_cstrings(a));
    } else {
        assert((a + b).drop_last() =~= a + b.drop_last());
        assert((a + b).last() == b.last());
        lemma_enc_cstrings_cat(a, b.drop_last());
        assert(enc_cstrings(a) + enc_cstrings(b.drop_last()) + enc_cstring(b.last())->Ok_0
            =~= enc_cstrings(a) + (enc_cstrings(b.drop_last()) + enc_cstring(b.last())->Ok_0));
    }
}

proof fn lemma_layer_names_enc(ls: Seq<LayerV>)
    requires
        forall|i: int| 0 <= i < ls.len() ==> text_round_trips(#[trigger] ls[i].name),
    ensures
        enc_layer_names(ls) == Ok::<Seq<u8>, crate::codec::error::CodecErrorV>(
            enc_cstrings(layer_names_of(ls)),
        ),
    decreases ls.len(),
{
    if ls.len() > 0 {
        let dl = ls.drop_last();
        assert forall|i: int| 0 <= i < dl.len() implies text_round_trips(#[trigger] dl[i].name) by {
            assert(dl[i] == ls[i]);
        }
        lemma_layer_names_enc(dl);
        assert(layer_names_of(ls).drop_last() =~= layer_names_of(dl));
        assert(text_round_trips(ls[ls.len() - 1].name));
    } else {
        assert(layer_names_of(ls) =~= Seq::<Seq<char>>::empty());
    }
}

proof fn lemma_group_layer_names_enc(gs: Seq<LayerGroupV>)
    requires
        forall|g: int, i: int|
            0 <= g < gs.len() && 0 <= i < gs[g].layers.len() ==> text_round_trips(
                #[trigger] gs[g].layers[i].name,
            ),
    ensures
        enc_group_layer_names(gs) == Ok::<Seq<u8>, crate::codec::error::CodecErrorV>(
            enc_cstrings(group_layer_names_of(gs)),
        ),
    decreases gs.len(),
{
    if gs.len() > 0 {
        let dl = gs.drop_last();
        assert forall|g: int, i: int| 0 <= g < dl.len() && 0 <= i < dl[g].layers.len() implies text_round_trips(
            #[trigger] dl[g].layers[i].name,
        ) by {
            assert(dl[g] == gs[g]);
        }
        lemma_group_layer_names_enc(dl);
        let last = gs.last();
        assert forall|i: int| 0 <= i < last.layers.len() implies text_round_trips(
            #[trigger] last.layers[i].name,
        ) by {
            assert(last == gs[gs.len() - 1]);
        }
        lemma_layer_names_enc(last.layers);
        lemma_enc_cstrings_cat(group_layer_names_of(dl), layer_names_of(last.layers));
    }
}

proof fn lemma_group_names_enc(gs: Seq<LayerGroupV>)
    requires
        forall|g: int| 0 <= g < gs.len() ==> text_round_trips(#[trigger] gs[g].name),
    ensures
        enc_group_names(gs) == Ok::<Seq<u8>, crate::codec::error::CodecErrorV>(
            enc_cstrings(group_names_of(gs)),
        ),
    decreases gs.len(),
{
    if gs.len() > 0 {
        let dl = gs.drop_last();
        assert forall|i: int| 0 <= i < dl.len() implies text_round_trips(#[trigger] dl[i].name) by {
            assert(dl[i] == gs[i]);
        }
        lemma_group_names_enc(dl);
        assert(group_names_of(gs).drop_last() =~= group_names_of(dl));
        assert(text_round_trips(gs[gs.len() - 1].name));
    } else {
        assert(group_names_of(gs) =~= Seq::<Seq<char>>::empty());
    }
}

proof fn lemma_read_cstrings(d: Seq<u8>, p: int, ss: Seq<Seq<char>>)
    requires
        forall|i: int| 0 <= i < ss.len() ==> text_round_trips(#[trigger] ss[i]),
        holds_at(d, p, enc_cstrings(ss)),
    ensures
        sp_cstrings(d, p, ss.len()).0 is Ok,
    decreases ss.len(),
{
    if ss.len() > 0 {
        let dl = ss.drop_last();
        assert forall|i: int| 0 <= i < dl.len() implies text_round_trips(#[trigger] dl[i]) by {
            assert(dl[i] == ss[i]);
        }
        let a = enc_cstrings(dl);
        let c = enc_cstring(ss.last())->Ok_0;
        lemma_holds_split(d, p, a, c);
        lemma_read_cstrings(d, p, dl);
        lemma_read_cstrings_end(d, p, dl);
        assert(text_round_trips(ss[ss.len() - 1]));
        lemma_read_cstring(d, p + a.len(), ss.last());
    }
}

proof fn lemma_read_cstrings_end(d: Seq<u8>, p: int, ss: Seq<Seq<char>>)
    requires
        forall|i: int| 0 <= i < ss.len() ==> text_round_trips(#[trigger] ss[i]),
        holds_at(d, p, enc_cstrings(ss)),
    ensures
        sp_cstrings(d, p, ss.len()).1 == p + enc_cstrings(ss).len(),
    decreases ss.len(),
{
    if ss.len() > 0 {
        let dl = ss.drop_last();
        assert forall|i: int| 0 <= i < dl.len() implies text_round_trips(#[trigger] dl[i]) by {
            assert(dl[i] == ss[i]);
        }
        let a = enc_cstrings(dl);
        let c = enc_cstring(ss.last())->Ok_0;
        lemma_holds_split(d, p, a, c);
        lemma_read_cstrings(d, p, dl);
        lemma_read_cstrings_end(d, p, dl);
        assert(text_round_trips(ss[ss.len() - 1]));
        lemma_read_cstring(d, p + a.len(), ss.last());
    }
}

proof fn lemma_screen_pens_eof(d: Seq<u8>, p: int, n: nat)
    ensures
        sp_screen_pens(d, p, n).0 matches Err(e) ==> e is UnexpectedEof,
    decreases n,
{
    if n > 0 {
        lemma_screen_pens_eof(d, p, (n - 1) as nat);
    }
}

proof fn lemma_print_pens_eof(d: Seq<u8>, p: int, n: nat)
    ensures
        sp_print_pens(d, p, n).0 matches Err(e) ==> e is UnexpectedEof,
    decreases n,
{
    if n > 0 {
        lemma_print_pens_eof(d, p, (n - 1) as nat);
    }
}

/// Whatever follows the layer names, the rest of a version 600 header reads.
proof fn lemma_header_after_names_ok(
    d: Seq<u8>,
    p: int,
    memo: Seq<char>,
    paper_size: u32,
    write_layer_group: u32,
    groups: Seq<crate::codec::types::DecodedLayerGroupV>,
)
    ensures
        header_after_names(d, p, 600, memo, paper_size, write_layer_group, groups) is Ok,
{
    let (r, q) = sp_skip(d, p, 464);
    if r is Ok {
        lemma_screen_pens_eof(d, q, 10);
        let (r2, q2) = sp_screen_pens(d, q, 10);
        if r2 is Ok {
            lemma_print_pens_eof(d, q2, 10);
        }
    }
}

proof fn lemma_rep_len8(b: Seq<u8>, n: nat)
    requires
        b.len() == 8,
    ensures
        rep(b, n).len() == 8 * n,
    decreases n,
{
    if n > 0 {
        lemma_rep_len8(b, (n - 1) as nat);
    }
}

proof fn lemma_group_layer_names_len(gs: Seq<LayerGroupV>)
    requires
        forall|g: int| 0 <= g < gs.len() ==> (#[trigger] gs[g]).layers.len() == 16,
    ensures
        group_layer_names_of(gs).len() == 16 * gs.len(),
    decreases gs.len(),
{
    if gs.len() > 0 {
        let dl = gs.drop_last();
        assert forall|k: int| 0 <= k < dl.len() implies (#[trigger] dl[k]).layers.len() == 16 by {
            assert(dl[k] == gs[k]);
        }
        lemma_group_layer_names_len(dl);
        assert(gs.last().layers.len() == 16);
    }
}

proof fn lemma_group_layer_names_elems(gs: Seq<LayerGroupV>)
    requires
        forall|g: int, i: int|
            0 <= g < gs.len() && 0 <= i < gs[g].layers.len() ==> text_round_trips(
                #[trigger] gs[g].layers[i].name,
            ),
    ensures
        forall|k: int|
            0 <= k < group_layer_names_of(gs).len() ==> text_round_trips(
                #[trigger] group_layer_names_of(gs)[k],
            ),
    decreases gs.len(),
{
    if gs.len() > 0 {
        let dl = gs.drop_last();
        assert forall|g: int, i: int| 0 <= g < dl.len() && 0 <= i < dl[g].layers.len() implies text_round_trips(
            #[trigger] dl[g].layers[i].name,
        ) by {
            assert(dl[g] == gs[g]);
        }
        lemma_group_layer_names_elems(dl);
        let a = group_layer_names_of(dl);
        let last = gs.last();
        let b = layer_names_of(last.layers);
        assert forall|k: int| 0 <= k < (a + b).len() implies text_round_trips(#[trigger] (a + b)[k]) by {
            if k >= a.len() {
                assert(last == gs[gs.len() - 1]);
                assert(b[k - a.len()] == last.layers[k - a.len()].name);
            }
        }
    }
}

/// The names that a header carries: every layer name, group by group, then
/// every group name; each reads back as written.
pub open spec fn header_names_round_trip(h: HeaderV) -> bool {
    &&& text_round_trips(h.memo)
    &&& forall|g: int| 0 <= g < h.layer_groups.len() ==> text_round_trips(#[trigger] h.layer_groups[g].name)
    &&& forall|g: int, i: int|
        0 <= g < h.layer_groups.len() && 0 <= i < h.layer_groups[g].layers.len()
            ==> text_round_trips(#[trigger] h.layer_groups[g].layers[i].name)
}

/// The bytes a written header starts with, up to the group names.
pub open spec fn header_front(h: HeaderV) -> Seq<u8> {
    signature_bytes() + u32b(600) + enc_cstring(h.memo)->Ok_0 + u32b(h.paper_size) + u32b(
        h.write_layer_group,
    ) + enc_groups_fixed(h.layer_groups) + header_gap_a() + enc_cstrings(
        group_layer_names_of(h.layer_groups),
    ) + enc_cstrings(group_names_of(h.layer_groups))
}

proof fn lemma_header_front(h: HeaderV)
    requires
        header_shape(h),
        header_names_round_trip(h),
        enc_header(h) is Ok,
    ensures
        header_front(h).len() <= enc_header(h)->Ok_0.len(),
        enc_header(h)->Ok_0.subrange(0, header_front(h).len() as int) == header_front(h),
{
    let gs = h.layer_groups;
    lemma_group_layer_names_enc(gs);
    lemma_group_names_enc(gs);
    let cs = enc_cstring(h.memo)->Ok_0;
    let gln = enc_cstrings(group_layer_names_of(gs));
    let gn = enc_cstrings(group_names_of(gs));
    let mid = u32b(h.paper_size) + u32b(h.write_layer_group) + enc_groups_fixed(gs) + header_gap_a();
    let r4 = signature_bytes() + u32b(600) + cs + mid + gln + gn;
    assert(r4 =~= header_front(h));
    lemma_header_starts(h, r4);
}

#[verifier::spinoff_prover]
proof fn lemma_header_starts(h: HeaderV, r4: Seq<u8>)
    requires
        enc_header(h) is Ok,
        enc_cstring(h.memo) is Ok,
        enc_group_layer_names(h.layer_groups) is Ok,
        enc_group_names(h.layer_groups) is Ok,
        r4 == signature_bytes() + u32b(600) + enc_cstring(h.memo)->Ok_0 + (u32b(h.paper_size) + u32b(
            h.write_layer_group,
        ) + enc_groups_fixed(h.layer_groups) + header_gap_a()) + enc_group_layer_names(
            h.layer_groups,
        )->Ok_0 + enc_group_names(h.layer_groups)->Ok_0,
    ensures
        r4.len() <= enc_header(h)->Ok_0.len(),
        enc_header(h)->Ok_0.subrange(0, r4.len() as int) == r4,
{
    reveal(enc_header);
    let hb = enc_header(h)->Ok_0;
    assert(hb.subrange(0, r4.len() as int) =~= r4);
}

/// A written header reads back, whatever follows it.
proof fn lemma_header_reads(d: Seq<u8>, h: HeaderV)
    requires
        header_shape(h),
        header_names_round_trip(h),
        enc_header(h) is Ok,
        holds_at(d, 0, enc_header(h)->Ok_0),
    ensures
        sp_header(d) is Ok,
{
    lemma_header_front(h);
    let f = header_front(h);
    assert(holds_at(d, 0, f)) by {
        let hb = enc_header(h)->Ok_0;
        assert(d.subrange(0, f.len() as int) =~= hb.subrange(0, f.len() as int));
    }
    lemma_header_front_reads(d, h);
}

#[verifier::rlimit(40)]
#[verifier::spinoff_prover]
proof fn lemma_header_front_reads(d: Seq<u8>, h: HeaderV)
    requires
        header_shape(h),
        header_names_round_trip(h),
        holds_at(d, 0, header_front(h)),
    ensures
        sp_header(d) is Ok,
{
    lemma_auto_spec_u32_to_from_le_bytes();
    let gs = h.layer_groups;
    lemma_auto_spec_u64_to_from_le_bytes();
    lemma_rep_len(u32b(0), 21);
    lemma_rep_len8(f64b(0), 5);
    assert(header_gap_a().len() == 156);
    let sig = signature_bytes();
    let cs = enc_cstring(h.memo)->Ok_0;
    let gf = enc_groups_fixed(gs);
    let gln = enc_cstrings(group_layer_names_of(gs));
    let gn = enc_cstrings(group_names_of(gs));
    let s1 = sig + u32b(600);
    let pa = u32b(h.paper_size);
    let wl = u32b(h.write_layer_group);
    let gap = header_gap_a();
    lemma_holds_split(d, 0, s1 + cs + pa + wl + gf + gap + gln, gn);
    lemma_holds_split(d, 0, s1 + cs + pa + wl + gf + gap, gln);
    lemma_holds_split(d, 0, s1 + cs + pa + wl + gf, gap);
    lemma_holds_split(d, 0, s1 + cs + pa + wl, gf);
    lemma_holds_split(d, 0, s1 + cs + pa, wl);
    lemma_holds_split(d, 0, s1 + cs, pa);
    lemma_holds_split(d, 0, s1, cs);
    lemma_holds_split(d, 0, sig, u32b(600));
    assert(sig.len() == 8);
    lemma_read_u32(d, 8, 600);
    lemma_read_cstring(d, 12, h.memo);
    let p2: int = 12 + cs.len() as int;
    lemma_read_u32(d, p2, h.paper_size);
    lemma_read_u32(d, p2 + 4, h.write_layer_group);
    let p4: int = p2 + 8;
    lemma_read_groups_fixed(d, p4, gs);
    let p5: int = p4 + gf.len() as int;
    let names = group_layer_names_of(gs) + group_names_of(gs);
    lemma_enc_cstrings_cat(group_layer_names_of(gs), group_names_of(gs));
    assert(header_front(h) =~= (s1 + cs + pa + wl + gf + gap) + (gln + gn));
    lemma_holds_split(d, 0, s1 + cs + pa + wl + gf + gap, gln + gn);
    lemma_group_layer_names_len(gs);
    lemma_group_layer_names_elems(gs);
    assert(names.len() == 272);
    assert forall|k: int| 0 <= k < names.len() implies text_round_trips(#[trigger] names[k]) by {
        if k >= group_layer_names_of(gs).len() {
            assert(names[k] == gs[k - 256].name);
        } else {
            assert(names[k] == group_layer_names_of(gs)[k]);
        }
    }
    lemma_read_cstrings(d, p5 + 156, names);
    let (nr, p6) = sp_layer_names(d, p5, 600);
    assert(nr is Ok);
    lemma_header_after_names_ok(
        d,
        p6,
        h.memo,
        h.paper_size,
        h.write_layer_group,
        crate::codec::header_read::assemble_groups(sp_groups_fixed(d, p4, 16).0->Ok_0, Some(nr->Ok_0)),
    );
}

/// Where an entity list of at least one record starts, the first record's
/// class declaration is the first `CData…` declaration.
#[verifier::spinoff_prover]
proof fn lemma_list_marker(d: Seq<u8>, h: int, rs: Seq<RecordV>)
    requires
        1 <= rs.len() <= 0x7fe8,
        forall|i: int| 0 <= i < rs.len() ==> record_round_trips(#[trigger] rs[i]),
        h >= 0,
        h + enc_entity_list(rs)->Ok_0.len() <= d.len(),
        d.subrange(h, h + enc_entity_list(rs)->Ok_0.len()) == enc_entity_list(rs)->Ok_0,
        d.len() <= usize::MAX,
    ensures
        enc_entity_list(rs) is Ok,
        enc_entity_list(rs)->Ok_0.len() >= 31,
        is_entity_marker(d, h + 2, 600),
        !is_entity_marker(d, h, 600),
        !is_entity_marker(d, h + 1, 600),
{
    lemma_auto_spec_u16_to_from_le_bytes();
    let ids = no_class_ids();
    assert(undeclared(ids) == 7) by {
        reveal_with_fuel(undeclared, 8);
    }
    lemma_archive_ok(rs, ids, 1);
    let n = spec_u16_to_le_bytes(rs.len() as u16);
    let arch = enc_archive(rs, ids, 1)->Ok_0;
    let e = enc_entity_list(rs)->Ok_0;
    assert(e == n + arch);
    let big_h = h;
    // The first record's class declaration follows the count.
    let r = rs[0];
    let rest_rs = rs.drop_first();
    lemma_body_ok(r);
    lemma_body_len(r);
    let k = class_index(r);
    let (head, ids2, p2) = enc_class_ref(r, ids, 1)->Ok_0;
    assert(ids[k] is None);
    let name = class_name_bytes(k);
    assert(head == spec_u16_to_le_bytes(0xffff) + spec_u16_to_le_bytes(600) + spec_u16_to_le_bytes(
        name.len() as u16,
    ) + name);
    assert forall|i: int| 0 <= i < rest_rs.len() implies record_round_trips(#[trigger] rest_rs[i]) by {
        assert(rest_rs[i] == rs[i + 1]);
    }
    if ids[k] is None {
        lemma_undeclared_update(ids, k, 1);
    }
    lemma_archive_ok(rest_rs, ids2, p2 + 1);
    let tail = enc_archive(rest_rs, ids2, p2 + 1)->Ok_0;
    assert(arch == head + (body_bytes(r) + tail));
    assert(8 <= name.len() <= 11);
    assert(name[0] == 0x43 && name[1] == 0x44 && name[2] == 0x61 && name[3] == 0x74 && name[4]
        == 0x61);
    let m = big_h + 2;
    let s1 = spec_u16_to_le_bytes(0xffff);
    let s2 = spec_u16_to_le_bytes(600);
    let s3 = spec_u16_to_le_bytes(name.len() as u16);
    assert(holds_at(d, h, e));
    assert(e == n + (head + (body_bytes(r) + tail)));
    lemma_holds_split(d, h, n, head + (body_bytes(r) + tail));
    lemma_holds_split(d, m, head, body_bytes(r) + tail);
    lemma_holds_split(d, m, s1 + s2 + s3, name);
    lemma_holds_split(d, m, s1 + s2, s3);
    lemma_holds_split(d, m, s1, s2);
    assert(d[m + 6] == d.subrange(m + 6, m + 6 + name.len())[0]);
    assert(d[m + 7] == d.subrange(m + 6, m + 6 + name.len())[1]);
    assert(d[m + 8] == d.subrange(m + 6, m + 6 + name.len())[2]);
    assert(d[m + 9] == d.subrange(m + 6, m + 6 + name.len())[3]);
    assert(d[m + 10] == d.subrange(m + 6, m + 6 + name.len())[4]);
    assert(is_entity_marker(d, m, 600));
    // No declaration starts at the count: the first class name follows it.
    assert(d[big_h + 8] == name[0]);
    assert(e.len() >= 31);
}

/// Reading back a document that the writer produced gives back its records
/// and its block definitions.
///
/// This holds for documents of 1 to 32 752 records and at most 10 000 blocks
/// with distinct numbers that read back one by one, whose header has sixteen
/// groups of sixteen layers, encodes, carries a memo and names that read back,
/// and holds no byte sequence from byte 100 on that looks like the declaration
/// of a `CData…` class (the reader finds the entity list by the first such
/// declaration), given that `String::from_utf8_lossy` keeps the class names
/// as they are (`decode_class_names`).
pub proof fn lemma_document_round_trip(doc: DocumentV)
    requires
        class_names_lossless(),
        1 <= doc.records.len() <= 0x7fe8,
        forall|i: int| 0 <= i < doc.records.len() ==> record_round_trips(#[trigger] doc.records[i]),
        doc.blocks.len() <= 10_000,
        forall|i: int| 0 <= i < doc.blocks.len() ==> block_round_trips(#[trigger] doc.blocks[i]),
        forall|i: int, j: int|
            0 <= i < j < doc.blocks.len() ==> doc.blocks[i].number != doc.blocks[j].number,
        header_shape(doc.header),
        header_names_round_trip(doc.header),
        enc_header(doc.header) is Ok,
        enc_document(doc)->Ok_0.len() <= usize::MAX,
        forall|i: int|
            100 <= i < enc_header(doc.header)->Ok_0.len() ==> !is_entity_marker(
                enc_document(doc)->Ok_0,
                i,
                600,
            ),
    ensures
        enc_document(doc) is Ok,
        sp_document(enc_document(doc)->Ok_0) matches Ok(dd) && records_of(dd.entities)
            == doc.records && dd.block_defs.len() == doc.blocks.len() && forall|i: int|
            0 <= i < doc.blocks.len() ==> block_of(#[trigger] dd.block_defs[i]) == doc.blocks[i],
{
    lemma_auto_spec_u16_to_from_le_bytes();
    lemma_auto_spec_u32_to_from_le_bytes();
    let rs = doc.records;
    let bs = doc.blocks;
    let ids = no_class_ids();
    assert(undeclared(ids) == 7) by {
        reveal_with_fuel(undeclared, 8);
    }
    lemma_archive_ok(rs, ids, 1);
    lemma_block_seq_front(bs);
    lemma_header_prefix(doc.header);
    let hb = enc_header(doc.header)->Ok_0;
    let n = spec_u16_to_le_bytes(rs.len() as u16);
    let arch = enc_archive(rs, ids, 1)->Ok_0;
    let e = enc_entity_list(rs)->Ok_0;
    let bb = enc_block_definitions(bs)->Ok_0;
    assert(e == n + arch);
    let d = enc_document(doc)->Ok_0;
    assert(d =~= hb + e + bb);
    lemma_read_document_parts(d, doc.header, rs, bs);
}

#[verifier::spinoff_prover]
#[verifier::rlimit(60)]
proof fn lemma_document_offset(d: Seq<u8>, h: HeaderV, rs: Seq<RecordV>, bs: Seq<BlockDefinitionV>)
    requires
        1 <= rs.len() <= 0x7fe8,
        forall|i: int| 0 <= i < rs.len() ==> record_round_trips(#[trigger] rs[i]),
        enc_header(h) is Ok,
        enc_entity_list(rs) is Ok,
        enc_block_definitions(bs) is Ok,
        d == enc_header(h)->Ok_0 + enc_entity_list(rs)->Ok_0 + enc_block_definitions(bs)->Ok_0,
        d.len() <= usize::MAX,
        forall|i: int| 100 <= i < enc_header(h)->Ok_0.len() ==> !is_entity_marker(d, i, 600),
    ensures
        entity_list_offset(d, 600) == Some(enc_header(h)->Ok_0.len() as int),
{
    lemma_auto_spec_u32_to_from_le_bytes();
    lemma_header_prefix(h);
    let hb = enc_header(h)->Ok_0;
    let e = enc_entity_list(rs)->Ok_0;
    let bb = enc_block_definitions(bs)->Ok_0;
    let big_h = hb.len() as int;
    let m = big_h + 2;
    assert(d.subrange(big_h, big_h + e.len()) =~= e);
    lemma_list_marker(d, big_h, rs);
    assert(bb.len() >= 4);
    assert(d.len() > m + 20);
    assert forall|j: int| 100 <= j < m implies !is_entity_marker(d, j, 600) by {
        if j >= big_h {
            assert(j == big_h || j == big_h + 1);
        }
    }
    lemma_first_marker_at(d, 100, d.len() - 20, 600, m);
}

#[verifier::rlimit(50)]
#[verifier::spinoff_prover]
proof fn lemma_read_document_parts(d: Seq<u8>, h: HeaderV, rs: Seq<RecordV>, bs: Seq<BlockDefinitionV>)
    requires
        class_names_lossless(),
        1 <= rs.len() <= 0x7fe8,
        forall|i: int| 0 <= i < rs.len() ==> record_round_trips(#[trigger] rs[i]),
        bs.len() <= 10_000,
        forall|i: int| 0 <= i < bs.len() ==> block_round_trips(#[trigger] bs[i]),
        forall|i: int, j: int| 0 <= i < j < bs.len() ==> bs[i].number != bs[j].number,
        header_shape(h),
        header_names_round_trip(h),
        enc_header(h) is Ok,
        enc_entity_list(rs) is Ok,
        enc_block_definitions(bs) is Ok,
        d == enc_header(h)->Ok_0 + enc_entity_list(rs)->Ok_0 + enc_block_definitions(bs)->Ok_0,
        d.len() <= usize::MAX,
        forall|i: int| 100 <= i < enc_header(h)->Ok_0.len() ==> !is_entity_marker(d, i, 600),
    ensures
        sp_document(d) matches Ok(dd) && records_of(dd.entities) == rs && dd.block_defs.len()
            == bs.len() && forall|i: int| 0 <= i < bs.len() ==> block_of(#[trigger] dd.block_defs[i]) == bs[i],
{
    lemma_auto_spec_u32_to_from_le_bytes();
    lemma_header_prefix(h);
    let hb = enc_header(h)->Ok_0;
    let e = enc_entity_list(rs)->Ok_0;
    let bb = enc_block_definitions(bs)->Ok_0;
    let big_h = hb.len() as int;
    lemma_document_offset(d, h, rs, bs);
    lemma_block_seq_front(bs);
    assert(bb.len() >= 4);
    let rest = d.subrange(big_h, d.len() as int);
    assert(rest =~= e + bb);
    assert(rest.subrange(0, e.len() as int) =~= e);
    lemma_read_entity_list(rest, 0, rs);
    let q = sp_entity_list(rest, 0, 600).1;
    assert(rest.subrange(q, rest.len() as int) =~= bb);
    assert(bb.len() != 0 && bb != seq![0u8, 0u8]);
    lemma_block_definitions_round_trip(bs);
    assert(sp_trailing_blocks(bb, 600) == sp_block_definitions(bb, 600));
    assert(d.subrange(0, 12) =~= hb.subrange(0, 12));
    lemma_holds_split(d, 0, signature_bytes(), u32b(600));
    lemma_read_u32(d, 8, 600);
    lemma_header_version(d);
    assert(d.subrange(0, hb.len() as int) =~= hb);
    lemma_header_reads(d, h);
}

} // verus!
