//! The preservation boundary: decoded entities become writable records without
//! losing a field, and the double-precision fields of a record can be read out
//! and put back as bit patterns.
use vstd::prelude::*;
use crate::codec::types::{
    Base, Record, RecordV, records_view, DecodedBase, DecodedEntity, DecodedEntityV, DecodedLine,
    DecodedPoint, DecodedText, DecodedTextV,
};
use crate::codec::encode::lemma_records_view;

verus! {

impl From<DecodedBase> for Base {
    fn from(value: DecodedBase) -> (base: Self) {
        Base {
            group: value.group,
            pen_style: value.pen_style,
            pen_color: value.pen_color,
            pen_width: value.pen_width,
            layer: value.layer,
            layer_group: value.layer_group,
            flag: value.flag,
        }
    }
}

impl vstd::std_specs::convert::FromSpecImpl<DecodedBase> for Base {
    open spec fn obeys_from_spec() -> bool {
        true
    }

    open spec fn from_spec(v: DecodedBase) -> Base {
        base_of(v)
    }
}

pub open spec fn base_of(v: DecodedBase) -> Base {
    Base {
        group: v.group,
        pen_style: v.pen_style,
        pen_color: v.pen_color,
        pen_width: v.pen_width,
        layer: v.layer,
        layer_group: v.layer_group,
        flag: v.flag,
    }
}

pub open spec fn line_record(v: DecodedLine) -> RecordV {
    RecordV::Line { base: base_of(v.base), p1: v.start, p2: v.end }
}

/// A point's marker code, if any, travels with its rotation and scale.
pub open spec fn point_record(v: DecodedPoint) -> RecordV {
    RecordV::Point {
        base: base_of(v.base),
        at: v.at,
        temporary: v.temporary,
        marker: match v.marker_code {
            Some(code) => Some((code, v.rotation, v.scale)),
            None => None,
        },
    }
}

pub open spec fn text_record(v: DecodedTextV) -> RecordV {
    RecordV::Text {
        base: base_of(v.base),
        start: v.start,
        end: v.end,
        text_type: v.text_type,
        size_x: v.size_x,
        size_y: v.size_y,
        spacing: v.spacing,
        angle_deg: v.angle,
        font: v.font_name,
        value: v.content,
    }
}

/// The writable record of a decoded entity. A four-point solid is written in
/// the order p0, p3, p1, p2; a circular solid as centre, radius, flatness,
/// tilt, start, sweep and its solid parameter.
pub open spec fn entity_record(e: DecodedEntityV) -> RecordV {
    match e {
        DecodedEntityV::Line(v) => line_record(v),
        DecodedEntityV::Arc(v) => RecordV::Arc {
            base: base_of(v.base),
            center: v.center,
            radius: v.radius,
            start_rad: v.start_rad,
            sweep_rad: v.sweep_rad,
            tilt_rad: v.tilt_rad,
            flatness: v.flatness,
            full: v.is_full_circle,
        },
        DecodedEntityV::Point(v) => point_record(v),
        DecodedEntityV::Text(v) => text_record(v),
        DecodedEntityV::Solid(v) => RecordV::Solid {
            base: base_of(v.base),
            values: [
                v.points[0][0],
                v.points[0][1],
                v.points[3][0],
                v.points[3][1],
                v.points[1][0],
                v.points[1][1],
                v.points[2][0],
                v.points[2][1],
            ],
            color: v.color,
        },
        DecodedEntityV::CircleSolid(v) => RecordV::Solid {
            base: base_of(v.base),
            values: [
                v.center[0],
                v.center[1],
                v.radius,
                v.flatness,
                v.tilt_rad,
                v.start_rad,
                v.sweep_rad,
                v.solid_param,
            ],
            color: v.color,
        },
        DecodedEntityV::Block(v) => RecordV::Block {
            base: base_of(v.base),
            ref_x: v.ref_x,
            ref_y: v.ref_y,
            scale_x: v.scale_x,
            scale_y: v.scale_y,
            rotation: v.rotation,
            def_number: v.def_number,
        },
        DecodedEntityV::Dimension(v) => RecordV::Dimension {
            base: base_of(v.base),
            line: Box::new(line_record(v.line)),
            text: Box::new(text_record(v.text)),
            sxf_mode: v.sxf_mode,
            aux_lines: seq![line_record(v.aux_lines[0]), line_record(v.aux_lines[1])],
            aux_points: seq![
                point_record(v.aux_points[0]),
                point_record(v.aux_points[1]),
                point_record(v.aux_points[2]),
                point_record(v.aux_points[3]),
            ],
        },
    }
}

fn decoded_line_to_record(value: &DecodedLine) -> (r: Record)
    ensures
        r@ == line_record(*value),
{
    Record::Line { base: Base::from(value.base), p1: value.start, p2: value.end }
}

fn decoded_point_to_record(value: &DecodedPoint) -> (r: Record)
    ensures
        r@ == point_record(*value),
{
    let marker = match value.marker_code {
        Some(code) => Some((code, value.rotation, value.scale)),
        None => None,
    };
    Record::Point { base: Base::from(value.base), at: value.at, temporary: value.temporary, marker }
}

fn decoded_text_to_record(value: &DecodedText) -> (r: Record)
    ensures
        r@ == text_record(value@),
{
    Record::Text {
        base: Base::from(value.base),
        start: value.start,
        end: value.end,
        text_type: value.text_type,
        size_x: value.size_x,
        size_y: value.size_y,
        spacing: value.spacing,
        angle_deg: value.angle,
        font: value.font_name.clone(),
        value: value.content.clone(),
    }
}

/// Converts a fully decoded entity into the writable representation without
/// dropping a record field.
pub fn decoded_entity_to_record(entity: &DecodedEntity) -> (r: Record)
    ensures
        r@ == entity_record(entity@),
{
    match entity {
        DecodedEntity::Line(value) => decoded_line_to_record(value),
        DecodedEntity::Arc(value) => Record::Arc {
            base: Base::from(value.base),
            center: value.center,
            radius: value.radius,
            start_rad: value.start_rad,
            sweep_rad: value.sweep_rad,
            tilt_rad: value.tilt_rad,
            flatness: value.flatness,
            full: value.is_full_circle,
        },
        DecodedEntity::Point(value) => decoded_point_to_record(value),
        DecodedEntity::Text(value) => decoded_text_to_record(value),
        DecodedEntity::Solid(value) => Record::Solid {
            base: Base::from(value.base),
            values: [
                value.points[0][0],
                value.points[0][1],
                value.points[3][0],
                value.points[3][1],
                value.points[1][0],
                value.points[1][1],
                value.points[2][0],
                value.points[2][1],
            ],
            color: value.color,
        },
        DecodedEntity::CircleSolid(value) => Record::Solid {
            base: Base::from(value.base),
            values: [
                value.center[0],
                value.center[1],
                value.radius,
                value.flatness,
                value.tilt_rad,
                value.start_rad,
                value.sweep_rad,
                value.solid_param,
            ],
            color: value.color,
        },
        DecodedEntity::Block(value) => Record::Block {
            base: Base::from(value.base),
            ref_x: value.ref_x,
            ref_y: value.ref_y,
            scale_x: value.scale_x,
            scale_y: value.scale_y,
            rotation: value.rotation,
            def_number: value.def_number,
        },
        DecodedEntity::Dimension(value) => {
            let line = decoded_line_to_record(&value.line);
            let text = decoded_text_to_record(&value.text);
            let aux_lines = vec![
                decoded_line_to_record(&value.aux_lines[0]),
                decoded_line_to_record(&value.aux_lines[1]),
            ];
            let aux_points = vec![
                decoded_point_to_record(&value.aux_points[0]),
                decoded_point_to_record(&value.aux_points[1]),
                decoded_point_to_record(&value.aux_points[2]),
                decoded_point_to_record(&value.aux_points[3]),
            ];
            proof {
                lemma_records_view(aux_lines@);
                lemma_records_view(aux_points@);
                assert(records_view(aux_lines@) =~= seq![
                    line_record(value.aux_lines[0]),
                    line_record(value.aux_lines[1]),
                ]);
                assert(records_view(aux_points@) =~= seq![
                    point_record(value.aux_points[0]),
                    point_record(value.aux_points[1]),
                    point_record(value.aux_points[2]),
                    point_record(value.aux_points[3]),
                ]);
            }
            Record::Dimension {
                base: Base::from(value.base),
                line: Box::new(line),
                text: Box::new(text),
                sxf_mode: value.sxf_mode,
                aux_lines,
                aux_points,
            }
        },
    }
}

// ---------------------------------------------------------------------------
// Double-precision fields as bit patterns
// ---------------------------------------------------------------------------

/// The double fields of a record as bit patterns, in record order; a point
/// lists its marker's rotation and scale only when it has a marker, and a
/// dimension lists those of its line, its text, its auxiliary lines and then
/// its auxiliary points.
pub open spec fn float_bits(r: RecordV) -> Seq<u64>
    decreases r,
{
    match r {
        RecordV::Line { p1, p2, .. } => seq![p1[0], p1[1], p2[0], p2[1]],
        RecordV::Arc { center, radius, start_rad, sweep_rad, tilt_rad, flatness, .. } => seq![
            center[0],
            center[1],
            radius,
            start_rad,
            sweep_rad,
            tilt_rad,
            flatness,
        ],
        RecordV::Point { at, marker, .. } => match marker {
            Some((_, rotation, scale)) => seq![at[0], at[1], rotation, scale],
            None => seq![at[0], at[1]],
        },
        RecordV::Text { start, end, size_x, size_y, spacing, angle_deg, .. } => seq![
            start[0],
            start[1],
            end[0],
            end[1],
            size_x,
            size_y,
            spacing,
            angle_deg,
        ],
        RecordV::Dimension { line, text, aux_lines, aux_points, .. } => float_bits(*line)
            + float_bits(*text) + float_bits_seq(aux_lines) + float_bits_seq(aux_points),
        RecordV::Solid { values, .. } => values@,
        RecordV::Block { ref_x, ref_y, scale_x, scale_y, rotation, .. } => seq![
            ref_x,
            ref_y,
            scale_x,
            scale_y,
            rotation,
        ],
    }
}

pub open spec fn float_bits_seq(rs: Seq<RecordV>) -> Seq<u64>
    decreases rs,
{
    if rs.len() == 0 {
        Seq::empty()
    } else {
        float_bits(rs[0]) + float_bits_seq(rs.drop_first())
    }
}

/// The record with its double fields replaced, in the order `float_bits`
/// lists them, by the given bit patterns.
pub open spec fn with_float_bits(r: RecordV, b: Seq<u64>) -> RecordV
    decreases r,
{
    match r {
        RecordV::Line { base, .. } => RecordV::Line { base, p1: [b[0], b[1]], p2: [b[2], b[3]] },
        RecordV::Arc { base, full, .. } => RecordV::Arc {
            base,
            center: [b[0], b[1]],
            radius: b[2],
            start_rad: b[3],
            sweep_rad: b[4],
            tilt_rad: b[5],
            flatness: b[6],
            full,
        },
        RecordV::Point { base, temporary, marker, .. } => RecordV::Point {
            base,
            at: [b[0], b[1]],
            temporary,
            marker: match marker {
                Some((code, _, _)) => Some((code, b[2], b[3])),
                None => None,
            },
        },
        RecordV::Text { base, text_type, font, value, .. } => RecordV::Text {
            base,
            start: [b[0], b[1]],
            end: [b[2], b[3]],
            text_type,
            size_x: b[4],
            size_y: b[5],
            spacing: b[6],
            angle_deg: b[7],
            font,
            value,
        },
        RecordV::Dimension { base, line, text, sxf_mode, aux_lines, aux_points } => {
            let n1 = float_bits(*line).len() as int;
            let n2 = n1 + float_bits(*text).len();
            let n3 = n2 + float_bits_seq(aux_lines).len();
            RecordV::Dimension {
                base,
                line: Box::new(with_float_bits(*line, b.subrange(0, n1))),
                text: Box::new(with_float_bits(*text, b.subrange(n1, n2))),
                sxf_mode,
                aux_lines: with_float_bits_seq(aux_lines, b.subrange(n2, n3)),
                aux_points: with_float_bits_seq(aux_points, b.subrange(n3, b.len() as int)),
            }
        },
        RecordV::Solid { base, color, .. } => RecordV::Solid {
            base,
            values: [b[0], b[1], b[2], b[3], b[4], b[5], b[6], b[7]],
            color,
        },
        RecordV::Block { base, def_number, .. } => RecordV::Block {
            base,
            ref_x: b[0],
            ref_y: b[1],
            scale_x: b[2],
            scale_y: b[3],
            rotation: b[4],
            def_number,
        },
    }
}

pub open spec fn with_float_bits_seq(rs: Seq<RecordV>, b: Seq<u64>) -> Seq<RecordV>
    decreases rs,
{
    if rs.len() == 0 {
        Seq::empty()
    } else {
        let n = float_bits(rs[0]).len() as int;
        seq![with_float_bits(rs[0], b.subrange(0, n))] + with_float_bits_seq(
            rs.drop_first(),
            b.subrange(n, b.len() as int),
        )
    }
}

/// Replacing the double fields with bit patterns of the right number and
/// reading them back gives those bit patterns.
pub proof fn lemma_float_bits_of_with(r: RecordV, b: Seq<u64>)
    requires
        b.len() == float_bits(r).len(),
    ensures
        float_bits(with_float_bits(r, b)) == b,
    decreases r,
{
    match r {
        RecordV::Dimension { base, line, text, sxf_mode, aux_lines, aux_points } => {
            let n1 = float_bits(*line).len() as int;
            let n2 = n1 + float_bits(*text).len();
            let n3 = n2 + float_bits_seq(aux_lines).len();
            lemma_float_bits_of_with(*line, b.subrange(0, n1));
            lemma_float_bits_of_with(*text, b.subrange(n1, n2));
            lemma_float_bits_of_with_seq(aux_lines, b.subrange(n2, n3));
            lemma_float_bits_of_with_seq(aux_points, b.subrange(n3, b.len() as int));
            assert(b =~= b.subrange(0, n1) + b.subrange(n1, n2) + b.subrange(n2, n3) + b.subrange(
                n3,
                b.len() as int,
            ));
        },
        RecordV::Solid { values, .. } => {
            let w = with_float_bits(r, b);
            assert(float_bits(w) =~= b);
        },
        RecordV::Point { marker, .. } => {
            assert(float_bits(with_float_bits(r, b)) =~= b);
        },
        _ => {
            assert(float_bits(with_float_bits(r, b)) =~= b);
        },
    }
}

pub proof fn lemma_float_bits_of_with_seq(rs: Seq<RecordV>, b: Seq<u64>)
    requires
        b.len() == float_bits_seq(rs).len(),
    ensures
        float_bits_seq(with_float_bits_seq(rs, b)) == b,
    decreases rs,
{
    if rs.len() > 0 {
        let n = float_bits(rs[0]).len() as int;
        lemma_float_bits_of_with(rs[0], b.subrange(0, n));
        lemma_float_bits_of_with_seq(rs.drop_first(), b.subrange(n, b.len() as int));
        let w = with_float_bits_seq(rs, b);
        assert(w.drop_first() =~= with_float_bits_seq(rs.drop_first(), b.subrange(n, b.len() as int)));
        assert(b =~= b.subrange(0, n) + b.subrange(n, b.len() as int));
    }
}

/// Putting back a record's own bit patterns leaves it unchanged.
pub proof fn lemma_with_own_float_bits(r: RecordV)
    ensures
        with_float_bits(r, float_bits(r)) == r,
    decreases r,
{
    match r {
        RecordV::Dimension { base, line, text, sxf_mode, aux_lines, aux_points } => {
            let b = float_bits(r);
            let n1 = float_bits(*line).len() as int;
            let n2 = n1 + float_bits(*text).len();
            let n3 = n2 + float_bits_seq(aux_lines).len();
            assert(b.subrange(0, n1) =~= float_bits(*line));
            assert(b.subrange(n1, n2) =~= float_bits(*text));
            assert(b.subrange(n2, n3) =~= float_bits_seq(aux_lines));
            assert(b.subrange(n3, b.len() as int) =~= float_bits_seq(aux_points));
            lemma_with_own_float_bits(*line);
            lemma_with_own_float_bits(*text);
            lemma_with_own_float_bits_seq(aux_lines);
            lemma_with_own_float_bits_seq(aux_points);
            let w = with_float_bits(r, b);
            assert(w == RecordV::Dimension {
                base,
                line: Box::new(with_float_bits(*line, float_bits(*line))),
                text: Box::new(with_float_bits(*text, float_bits(*text))),
                sxf_mode,
                aux_lines: with_float_bits_seq(aux_lines, float_bits_seq(aux_lines)),
                aux_points: with_float_bits_seq(aux_points, float_bits_seq(aux_points)),
            });
            assert(with_float_bits(*line, float_bits(*line)) == *line);
            assert(with_float_bits_seq(aux_lines, float_bits_seq(aux_lines)) == aux_lines);
            assert(w == RecordV::Dimension { base, line: Box::new(*line), text: Box::new(*text), sxf_mode, aux_lines, aux_points });
            assert(r == RecordV::Dimension { base, line: Box::new(*line), text: Box::new(*text), sxf_mode, aux_lines, aux_points });
            assert(w == r);
        },
        RecordV::Solid { values, .. } => {
            let w = with_float_bits(r, float_bits(r));
            assert(w->Solid_values =~= values);
        },
        RecordV::Line { p1, p2, .. } => {
            let w = with_float_bits(r, float_bits(r));
            assert(w->Line_p1 =~= p1);
            assert(w->Line_p2 =~= p2);
        },
        RecordV::Arc { center, .. } => {
            let w = with_float_bits(r, float_bits(r));
            assert(w->Arc_center =~= center);
        },
        RecordV::Point { at, .. } => {
            let w = with_float_bits(r, float_bits(r));
            assert(w->Point_at =~= at);
        },
        RecordV::Text { start, end, .. } => {
            let w = with_float_bits(r, float_bits(r));
            assert(w->Text_start =~= start);
            assert(w->Text_end =~= end);
        },
        RecordV::Block { .. } => {},
    }
}

pub proof fn lemma_with_own_float_bits_seq(rs: Seq<RecordV>)
    ensures
        with_float_bits_seq(rs, float_bits_seq(rs)) == rs,
    decreases rs,
{
    if rs.len() > 0 {
        let b = float_bits_seq(rs);
        let n = float_bits(rs[0]).len() as int;
        assert(b.subrange(0, n) =~= float_bits(rs[0]));
        assert(b.subrange(n, b.len() as int) =~= float_bits_seq(rs.drop_first()));
        lemma_with_own_float_bits(rs[0]);
        lemma_with_own_float_bits_seq(rs.drop_first());
        assert(with_float_bits_seq(rs, b) =~= rs);
    }
}

/// Two records differ at most in their double fields.
pub open spec fn same_shape(a: RecordV, b: RecordV) -> bool {
    &&& float_bits(a).len() == float_bits(b).len()
    &&& with_float_bits(a, float_bits(b)) == b
}

pub open spec fn same_shape_seq(a: Seq<RecordV>, b: Seq<RecordV>) -> bool {
    &&& float_bits_seq(a).len() == float_bits_seq(b).len()
    &&& with_float_bits_seq(a, float_bits_seq(b)) == b
}

proof fn lemma_shape_of_with(r: RecordV, b: Seq<u64>)
    requires
        b.len() == float_bits(r).len(),
    ensures
        same_shape(r, with_float_bits(r, b)),
{
    lemma_float_bits_of_with(r, b);
}

proof fn lemma_shape_refl(r: RecordV)
    ensures
        same_shape(r, r),
{
    lemma_with_own_float_bits(r);
}

proof fn lemma_shape_seq_refl(rs: Seq<RecordV>)
    ensures
        same_shape_seq(rs, rs),
{
    lemma_with_own_float_bits_seq(rs);
}

proof fn lemma_shape_seq_cons(x: RecordV, y: RecordV, rs: Seq<RecordV>, ss: Seq<RecordV>)
    requires
        same_shape(x, y),
        same_shape_seq(rs, ss),
    ensures
        same_shape_seq(seq![x] + rs, seq![y] + ss),
{
    let a = seq![x] + rs;
    let b = seq![y] + ss;
    assert(a[0] == x && a.drop_first() =~= rs);
    assert(b[0] == y && b.drop_first() =~= ss);
    let fb = float_bits_seq(b);
    let n = float_bits(x).len() as int;
    assert(fb.subrange(0, n) =~= float_bits(y));
    assert(fb.subrange(n, fb.len() as int) =~= float_bits_seq(ss));
    assert(with_float_bits_seq(a, fb) =~= b);
}

proof fn lemma_shape_dimension(
    base: Base,
    sxf_mode: u16,
    l1: RecordV,
    t1: RecordV,
    al1: Seq<RecordV>,
    ap1: Seq<RecordV>,
    l2: RecordV,
    t2: RecordV,
    al2: Seq<RecordV>,
    ap2: Seq<RecordV>,
)
    requires
        same_shape(l1, l2),
        same_shape(t1, t2),
        same_shape_seq(al1, al2),
        same_shape_seq(ap1, ap2),
    ensures
        same_shape(
            RecordV::Dimension {
                base,
                line: Box::new(l1),
                text: Box::new(t1),
                sxf_mode,
                aux_lines: al1,
                aux_points: ap1,
            },
            RecordV::Dimension {
                base,
                line: Box::new(l2),
                text: Box::new(t2),
                sxf_mode,
                aux_lines: al2,
                aux_points: ap2,
            },
        ),
{
    let b = float_bits(l2) + float_bits(t2) + float_bits_seq(al2) + float_bits_seq(ap2);
    let n1 = float_bits(l1).len() as int;
    let n2 = n1 + float_bits(t1).len();
    let n3 = n2 + float_bits_seq(al1).len();
    assert(b.subrange(0, n1) =~= float_bits(l2));
    assert(b.subrange(n1, n2) =~= float_bits(t2));
    assert(b.subrange(n2, n3) =~= float_bits_seq(al2));
    assert(b.subrange(n3, b.len() as int) =~= float_bits_seq(ap2));
}

/// How many records a record holds, itself included; it bounds the recursion
/// over dimensions.
pub open spec fn record_size(r: RecordV) -> nat
    decreases r,
{
    match r {
        RecordV::Dimension { line, text, aux_lines, aux_points, .. } => 1 + record_size(*line)
            + record_size(*text) + records_size(aux_lines) + records_size(aux_points),
        _ => 1,
    }
}

pub open spec fn records_size(rs: Seq<RecordV>) -> nat
    decreases rs,
{
    if rs.len() == 0 {
        0
    } else {
        1 + record_size(rs[0]) + records_size(rs.drop_first())
    }
}

fn collect_float_bits(record: &Record, output: &mut Vec<u64>)
    ensures
        final(output)@ == old(output)@ + float_bits(record@),
    decreases record, 1nat,
{
    let ghost start = output@;
    match record {
        Record::Line { p1, p2, .. } => {
            output.push(p1[0]);
            output.push(p1[1]);
            output.push(p2[0]);
            output.push(p2[1]);
        },
        Record::Arc { center, radius, start_rad, sweep_rad, tilt_rad, flatness, .. } => {
            output.push(center[0]);
            output.push(center[1]);
            output.push(*radius);
            output.push(*start_rad);
            output.push(*sweep_rad);
            output.push(*tilt_rad);
            output.push(*flatness);
        },
        Record::Point { at, marker, .. } => {
            output.push(at[0]);
            output.push(at[1]);
            if let Some((_, rotation, scale)) = marker {
                output.push(*rotation);
                output.push(*scale);
            }
        },
        Record::Text { start: s, end, size_x, size_y, spacing, angle_deg, .. } => {
            output.push(s[0]);
            output.push(s[1]);
            output.push(end[0]);
            output.push(end[1]);
            output.push(*size_x);
            output.push(*size_y);
            output.push(*spacing);
            output.push(*angle_deg);
        },
        Record::Dimension { line, text, aux_lines, aux_points, .. } => {
            collect_float_bits(line, output);
            collect_float_bits(text, output);
            collect_float_bits_seq(aux_lines, output);
            collect_float_bits_seq(aux_points, output);
        },
        Record::Solid { values, .. } => {
            let mut k: usize = 0;
            while k < 8
                invariant
                    k <= 8,
                    output@ =~= start + values@.subrange(0, k as int),
                decreases 8 - k,
            {
                output.push(values[k]);
                k = k + 1;
            }
        },
        Record::Block { ref_x, ref_y, scale_x, scale_y, rotation, .. } => {
            output.push(*ref_x);
            output.push(*ref_y);
            output.push(*scale_x);
            output.push(*scale_y);
            output.push(*rotation);
        },
    }
    assert(output@ =~= start + float_bits(record@));
}

fn collect_float_bits_seq(records: &Vec<Record>, output: &mut Vec<u64>)
    ensures
        final(output)@ == old(output)@ + float_bits_seq(records_view(records@)),
    decreases records@, 0nat,
{
    let ghost rs = records_view(records@);
    let ghost start = output@;
    proof {
        lemma_records_view(records@);
        lemma_float_bits_seq_split(rs, 0);
    }
    let mut i: usize = 0;
    while i < records.len()
        invariant
            i <= records@.len(),
            rs == records_view(records@),
            rs.len() == records@.len(),
            forall|j: int| 0 <= j < records@.len() ==> #[trigger] rs[j] == records@[j]@,
            float_bits_seq(rs) == output@.subrange(start.len() as int, output@.len() as int)
                + float_bits_seq(rs.skip(i as int)),
            output@.len() >= start.len(),
            output@.subrange(0, start.len() as int) == start,
        decreases records.len() - i,
    {
        proof {
            assert(decreases_to!(records@ => records@[i as int]));
            assert(rs.skip(i as int).drop_first() =~= rs.skip(i + 1));
            assert(rs.skip(i as int)[0] == rs[i as int]);
        }
        let ghost before = output@;
        collect_float_bits(&records[i], output);
        assert(output@.subrange(start.len() as int, output@.len() as int) =~= before.subrange(
            start.len() as int,
            before.len() as int,
        ) + float_bits(rs[i as int]));
        assert(output@.subrange(0, start.len() as int) =~= before.subrange(0, start.len() as int));
        i = i + 1;
    }
    assert(rs.skip(i as int) =~= Seq::<RecordV>::empty());
    assert(output@ =~= start + output@.subrange(start.len() as int, output@.len() as int));
}

proof fn lemma_float_bits_seq_split(rs: Seq<RecordV>, i: int)
    requires
        0 <= i <= rs.len(),
    ensures
        i == 0 ==> float_bits_seq(rs) == Seq::<u64>::empty() + float_bits_seq(rs.skip(i)),
{
    if i == 0 {
        assert(rs.skip(0) =~= rs);
        assert(Seq::<u64>::empty() + float_bits_seq(rs) =~= float_bits_seq(rs));
    }
}

/// The bit patterns of a record's double fields, in the order `float_bits`
/// gives.
pub fn record_float_bits(record: &Record) -> (bits: Vec<u64>)
    ensures
        bits@ == float_bits(record@),
{
    let mut output: Vec<u64> = Vec::new();
    collect_float_bits(record, &mut output);
    assert(output@ =~= float_bits(record@));
    output
}

fn next_bit(bits: &[u64], index: &mut usize) -> (v: Option<u64>)
    requires
        *old(index) <= bits.len(),
    ensures
        *old(index) < bits.len() ==> v == Some(bits@[*old(index) as int]) && *final(index)
            == *old(index) + 1,
        *old(index) >= bits.len() ==> v is None && *final(index) == *old(index),
{
    if *index < bits.len() {
        let v = bits[*index];
        *index = *index + 1;
        Some(v)
    } else {
        None
    }
}

/// The outcome of putting bit patterns from position `i0` on back into a
/// record: the shape is kept, and it succeeds exactly when enough patterns
/// remain, having then consumed one per double field.
pub open spec fn restored(
    old_r: RecordV,
    new_r: RecordV,
    ok: bool,
    bits: Seq<u64>,
    i0: int,
    i1: int,
) -> bool {
    &&& i0 <= i1 <= bits.len()
    &&& same_shape(old_r, new_r)
    &&& ok == (i0 + float_bits(old_r).len() <= bits.len())
    &&& ok ==> i1 == i0 + float_bits(old_r).len() && new_r == with_float_bits(
        old_r,
        bits.subrange(i0, i1),
    )
}

pub open spec fn restored_seq(
    old_rs: Seq<RecordV>,
    new_rs: Seq<RecordV>,
    ok: bool,
    bits: Seq<u64>,
    i0: int,
    i1: int,
) -> bool {
    &&& i0 <= i1 <= bits.len()
    &&& same_shape_seq(old_rs, new_rs)
    &&& ok == (i0 + float_bits_seq(old_rs).len() <= bits.len())
    &&& ok ==> i1 == i0 + float_bits_seq(old_rs).len() && new_rs == with_float_bits_seq(
        old_rs,
        bits.subrange(i0, i1),
    )
}

proof fn lemma_records_view_cons(x: Record, s: Seq<Record>)
    ensures
        records_view(seq![x] + s) == seq![x@] + records_view(s),
{
    let t = seq![x] + s;
    assert(t.drop_first() =~= s);
    assert(t[0] == x);
}

fn restore_seq(records: Vec<Record>, bits: &[u64], index: &mut usize) -> (out: (Vec<Record>, bool))
    requires
        *old(index) <= bits.len(),
    ensures
        restored_seq(
            records_view(records@),
            records_view(out.0@),
            out.1,
            bits@,
            *old(index) as int,
            *final(index) as int,
        ),
    decreases records_size(records_view(records@)), 2nat,
{
    let ghost i0 = *index as int;
    if records.len() == 0 {
        proof {
            assert(records@ =~= Seq::<Record>::empty());
            lemma_shape_seq_refl(records_view(records@));
        }
        return (records, true);
    }
    let mut records = records;
    let ghost all = records@;
    let first = records.remove(0);
    proof {
        assert(all =~= seq![first] + records@);
        lemma_records_view_cons(first, records@);
        let rv = records_view(all);
        assert(rv[0] == first@);
        assert(rv.drop_first() =~= records_view(records@));
        assert(records_size(rv) == 1 + record_size(first@) + records_size(records_view(records@)));
    }
    let (first2, ok) = restore(first, bits, index);
    let ghost i1 = *index as int;
    if !ok {
        proof {
            lemma_shape_seq_refl(records_view(records@));
            lemma_shape_seq_cons(first@, first2@, records_view(records@), records_view(records@));
        }
        let ghost rest = records@;
        records.insert(0, first2);
        proof {
            assert(records@ =~= seq![first2] + rest);
            lemma_records_view_cons(first2, rest);
        }
        return (records, false);
    }
    let ghost rest_old = records_view(records@);
    let (mut rest, ok2) = restore_seq(records, bits, index);
    let ghost i2 = *index as int;
    let ghost rest_new = rest@;
    rest.insert(0, first2);
    proof {
        assert(rest@ =~= seq![first2] + rest_new);
        lemma_records_view_cons(first2, rest_new);
        lemma_shape_seq_cons(first@, first2@, rest_old, records_view(rest_new));
        let old_rs = seq![first@] + rest_old;
        assert(old_rs[0] == first@);
        assert(old_rs.drop_first() =~= rest_old);
        if ok2 {
            let b = bits@.subrange(i0, i2);
            let n = float_bits(first@).len() as int;
            assert(b.subrange(0, n) =~= bits@.subrange(i0, i1));
            assert(b.subrange(n, b.len() as int) =~= bits@.subrange(i1, i2));
            assert(records_view(rest@) =~= with_float_bits_seq(old_rs, b));
        }
    }
    (rest, ok2)
}

proof fn lemma_dimension_with(
    base: Base,
    sxf_mode: u16,
    l0: RecordV,
    t0: RecordV,
    al0: Seq<RecordV>,
    ap0: Seq<RecordV>,
    bits: Seq<u64>,
    i0: int,
    i1: int,
    i2: int,
    i3: int,
    i4: int,
)
    requires
        0 <= i0,
        i1 == i0 + float_bits(l0).len(),
        i2 == i1 + float_bits(t0).len(),
        i3 == i2 + float_bits_seq(al0).len(),
        i4 == i3 + float_bits_seq(ap0).len(),
        i4 <= bits.len(),
    ensures
        with_float_bits(
            RecordV::Dimension {
                base,
                line: Box::new(l0),
                text: Box::new(t0),
                sxf_mode,
                aux_lines: al0,
                aux_points: ap0,
            },
            bits.subrange(i0, i4),
        ) == (RecordV::Dimension {
            base,
            line: Box::new(with_float_bits(l0, bits.subrange(i0, i1))),
            text: Box::new(with_float_bits(t0, bits.subrange(i1, i2))),
            sxf_mode,
            aux_lines: with_float_bits_seq(al0, bits.subrange(i2, i3)),
            aux_points: with_float_bits_seq(ap0, bits.subrange(i3, i4)),
        }),
{
    let b = bits.subrange(i0, i4);
    let n1 = float_bits(l0).len() as int;
    let n2 = n1 + float_bits(t0).len();
    let n3 = n2 + float_bits_seq(al0).len();
    assert(b.subrange(0, n1) =~= bits.subrange(i0, i1));
    assert(b.subrange(n1, n2) =~= bits.subrange(i1, i2));
    assert(b.subrange(n2, n3) =~= bits.subrange(i2, i3));
    assert(b.subrange(n3, b.len() as int) =~= bits.subrange(i3, i4));
}

fn restore_point(record: Record, bits: &[u64], index: &mut usize) -> (out: (Record, bool))
    requires
        *old(index) <= bits.len(),
        record is Point,
    ensures
        restored(record@, out.0@, out.1, bits@, *old(index) as int, *final(index) as int),
{
    let ghost r0 = record@;
    let ghost i0 = *index as int;
    proof {
        lemma_shape_refl(r0);
    }
    match record {
        Record::Point { base, at, temporary, marker } => {
            let a = next_bit(bits, index);
            let b = next_bit(bits, index);
            match (a, b) {
                (Some(a), Some(b)) => match marker {
                    Some((code, rotation, scale)) => {
                        let c = next_bit(bits, index);
                        let d = next_bit(bits, index);
                        match (c, d) {
                            (Some(c), Some(d)) => {
                                let r = Record::Point {
                                    base,
                                    at: [a, b],
                                    temporary,
                                    marker: Some((code, c, d)),
                                };
                                proof {
                                    let sub = bits@.subrange(i0, i0 + 4);
                                    assert(r@ == with_float_bits(r0, sub));
                                    lemma_shape_of_with(r0, sub);
                                }
                                (r, true)
                            },
                            _ => {
                                let r = Record::Point {
                                    base,
                                    at: [a, b],
                                    temporary,
                                    marker: Some((code, rotation, scale)),
                                };
                                proof {
                                    let fb = float_bits(r@);
                                    assert(with_float_bits(r0, fb)->Point_at =~= r@->Point_at);
                                }
                                (r, false)
                            },
                        }
                    },
                    None => {
                        let r = Record::Point { base, at: [a, b], temporary, marker: None };
                        proof {
                            let sub = bits@.subrange(i0, i0 + 2);
                            assert(r@ == with_float_bits(r0, sub));
                            lemma_shape_of_with(r0, sub);
                        }
                        (r, true)
                    },
                },
                _ => (Record::Point { base, at, temporary, marker }, false),
            }
        },
        _ => (record, false),
    }
}

#[verifier::loop_isolation(false)]
fn restore_solid(record: Record, bits: &[u64], index: &mut usize) -> (out: (Record, bool))
    requires
        *old(index) <= bits.len(),
        record is Solid,
    ensures
        restored(record@, out.0@, out.1, bits@, *old(index) as int, *final(index) as int),
{
    let ghost r0 = record@;
    let ghost i0 = *index as int;
    proof {
        lemma_shape_refl(r0);
    }
    match record {
        Record::Solid { base, values, color } => {
            let mut values = values;
            let mut k: usize = 0;
            while k < 8
                invariant
                    k <= 8,
                    i0 <= *index <= bits.len(),
                    *index == i0 + k,
                    r0 == (RecordV::Solid { base, values: r0->Solid_values, color }),
                    forall|j: int| 0 <= j < k ==> values@[j] == bits@[i0 + j],
                    forall|j: int| k <= j < 8 ==> values@[j] == r0->Solid_values@[j],
                decreases 8 - k,
            {
                match next_bit(bits, index) {
                    Some(v) => {
                        values.set(k, v);
                    },
                    None => {
                        let r = Record::Solid { base, values, color };
                        proof {
                            let w = with_float_bits(r0, float_bits(r@));
                            assert(w->Solid_values =~= values);
                        }
                        return (r, false);
                    },
                }
                k = k + 1;
            }
            let r = Record::Solid { base, values, color };
            proof {
                let sub = bits@.subrange(i0, i0 + 8);
                assert(values =~= [sub[0], sub[1], sub[2], sub[3], sub[4], sub[5], sub[6], sub[7]]);
                assert(r@ == with_float_bits(r0, sub));
                lemma_shape_of_with(r0, sub);
            }
            (r, true)
        },
        _ => (record, false),
    }
}

fn restore_dimension(record: Record, bits: &[u64], index: &mut usize) -> (out: (Record, bool))
    requires
        *old(index) <= bits.len(),
        record is Dimension,
    ensures
        restored(record@, out.0@, out.1, bits@, *old(index) as int, *final(index) as int),
    decreases record_size(record@), 0nat,
{
    let ghost r0 = record@;
    let ghost i0 = *index as int;
    proof {
        lemma_shape_refl(r0);
    }
    match record {
        Record::Dimension { base, line, text, sxf_mode, aux_lines, aux_points } => {
            let ghost l0 = (*line)@;
            let ghost t0 = (*text)@;
            let ghost al0 = records_view(aux_lines@);
            let ghost ap0 = records_view(aux_points@);
            proof {
                lemma_shape_refl(t0);
                lemma_shape_seq_refl(al0);
                lemma_shape_seq_refl(ap0);
            }
            let (l2, ok1) = restore(*line, bits, index);
            let ghost i1 = *index as int;
            if !ok1 {
                proof {
                    lemma_shape_dimension(base, sxf_mode, l0, t0, al0, ap0, l2@, t0, al0, ap0);
                }
                return (
                    Record::Dimension {
                        base,
                        line: Box::new(l2),
                        text,
                        sxf_mode,
                        aux_lines,
                        aux_points,
                    },
                    false,
                );
            }
            let (t2, ok2) = restore(*text, bits, index);
            let ghost i2 = *index as int;
            if !ok2 {
                proof {
                    lemma_shape_dimension(base, sxf_mode, l0, t0, al0, ap0, l2@, t2@, al0, ap0);
                }
                return (
                    Record::Dimension {
                        base,
                        line: Box::new(l2),
                        text: Box::new(t2),
                        sxf_mode,
                        aux_lines,
                        aux_points,
                    },
                    false,
                );
            }
            let (al2, ok3) = restore_seq(aux_lines, bits, index);
            let ghost i3 = *index as int;
            if !ok3 {
                proof {
                    lemma_shape_dimension(
                        base,
                        sxf_mode,
                        l0,
                        t0,
                        al0,
                        ap0,
                        l2@,
                        t2@,
                        records_view(al2@),
                        ap0,
                    );
                }
                return (
                    Record::Dimension {
                        base,
                        line: Box::new(l2),
                        text: Box::new(t2),
                        sxf_mode,
                        aux_lines: al2,
                        aux_points,
                    },
                    false,
                );
            }
            let (ap2, ok4) = restore_seq(aux_points, bits, index);
            let ghost i4 = *index as int;
            let r = Record::Dimension {
                base,
                line: Box::new(l2),
                text: Box::new(t2),
                sxf_mode,
                aux_lines: al2,
                aux_points: ap2,
            };
            proof {
                lemma_shape_dimension(
                    base,
                    sxf_mode,
                    l0,
                    t0,
                    al0,
                    ap0,
                    l2@,
                    t2@,
                    records_view(al2@),
                    records_view(ap2@),
                );
                if ok4 {
                    lemma_dimension_with(base, sxf_mode, l0, t0, al0, ap0, bits@, i0, i1, i2, i3, i4);
                }
            }
            (r, ok4)
        },
        _ => (record, false),
    }
}

/// Puts bit patterns from `*index` on back into a record's double fields.
fn restore(record: Record, bits: &[u64], index: &mut usize) -> (out: (Record, bool))
    requires
        *old(index) <= bits.len(),
    ensures
        restored(record@, out.0@, out.1, bits@, *old(index) as int, *final(index) as int),
    decreases record_size(record@), 1nat,
{
    let ghost r0 = record@;
    let ghost i0 = *index as int;
    proof {
        lemma_shape_refl(r0);
    }
    match record {
        Record::Line { base, p1, p2 } => {
            let a = next_bit(bits, index);
            let b = next_bit(bits, index);
            let c = next_bit(bits, index);
            let d = next_bit(bits, index);
            match (a, b, c, d) {
                (Some(a), Some(b), Some(c), Some(d)) => {
                    let r = Record::Line { base, p1: [a, b], p2: [c, d] };
                    proof {
                        let sub = bits@.subrange(i0, i0 + 4);
                        assert(r@ == with_float_bits(r0, sub));
                        lemma_shape_of_with(r0, sub);
                    }
                    (r, true)
                },
                _ => (Record::Line { base, p1, p2 }, false),
            }
        },
        Record::Arc { base, center, radius, start_rad, sweep_rad, tilt_rad, flatness, full } => {
            let a = next_bit(bits, index);
            let b = next_bit(bits, index);
            let c = next_bit(bits, index);
            let d = next_bit(bits, index);
            let e = next_bit(bits, index);
            let f = next_bit(bits, index);
            let g = next_bit(bits, index);
            match (a, b, c, d, e, f, g) {
                (Some(a), Some(b), Some(c), Some(d), Some(e), Some(f), Some(g)) => {
                    let r = Record::Arc {
                        base,
                        center: [a, b],
                        radius: c,
                        start_rad: d,
                        sweep_rad: e,
                        tilt_rad: f,
                        flatness: g,
                        full,
                    };
                    proof {
                        let sub = bits@.subrange(i0, i0 + 7);
                        assert(r@ == with_float_bits(r0, sub));
                        lemma_shape_of_with(r0, sub);
                    }
                    (r, true)
                },
                _ => (
                    Record::Arc {
                        base,
                        center,
                        radius,
                        start_rad,
                        sweep_rad,
                        tilt_rad,
                        flatness,
                        full,
                    },
                    false,
                ),
            }
        },
        Record::Point { .. } => restore_point(record, bits, index),
        Record::Text {
            base,
            start,
            end,
            text_type,
            size_x,
            size_y,
            spacing,
            angle_deg,
            font,
            value,
        } => {
            let a = next_bit(bits, index);
            let b = next_bit(bits, index);
            let c = next_bit(bits, index);
            let d = next_bit(bits, index);
            let e = next_bit(bits, index);
            let f = next_bit(bits, index);
            let g = next_bit(bits, index);
            let h = next_bit(bits, index);
            match (a, b, c, d, e, f, g, h) {
                (Some(a), Some(b), Some(c), Some(d), Some(e), Some(f), Some(g), Some(h)) => {
                    let r = Record::Text {
                        base,
                        start: [a, b],
                        end: [c, d],
                        text_type,
                        size_x: e,
                        size_y: f,
                        spacing: g,
                        angle_deg: h,
                        font,
                        value,
                    };
                    proof {
                        let sub = bits@.subrange(i0, i0 + 8);
                        assert(r@ == with_float_bits(r0, sub));
                        lemma_shape_of_with(r0, sub);
                    }
                    (r, true)
                },
                _ => (
                    Record::Text {
                        base,
                        start,
                        end,
                        text_type,
                        size_x,
                        size_y,
                        spacing,
                        angle_deg,
                        font,
                        value,
                    },
                    false,
                ),
            }
        },
        Record::Dimension { .. } => restore_dimension(record, bits, index),
        Record::Solid { .. } => restore_solid(record, bits, index),
        Record::Block { base, ref_x, ref_y, scale_x, scale_y, rotation, def_number } => {
            let a = next_bit(bits, index);
            let b = next_bit(bits, index);
            let c = next_bit(bits, index);
            let d = next_bit(bits, index);
            let e = next_bit(bits, index);
            match (a, b, c, d, e) {
                (Some(a), Some(b), Some(c), Some(d), Some(e)) => {
                    let r = Record::Block {
                        base,
                        ref_x: a,
                        ref_y: b,
                        scale_x: c,
                        scale_y: d,
                        rotation: e,
                        def_number,
                    };
                    proof {
                        let sub = bits@.subrange(i0, i0 + 5);
                        assert(r@ == with_float_bits(r0, sub));
                        lemma_shape_of_with(r0, sub);
                    }
                    (r, true)
                },
                _ => (
                    Record::Block { base, ref_x, ref_y, scale_x, scale_y, rotation, def_number },
                    false,
                ),
            }
        },
    }
}

/// Puts bit patterns back into a record's double fields, in the order
/// `record_float_bits` reads them. It succeeds exactly when there is one
/// pattern per double field; when there are at least that many, the record
/// takes the leading ones. Fields other than doubles never change.
pub fn restore_record_float_bits(record: &mut Record, bits: &[u64]) -> (ok: bool)
    ensures
        ok == (bits@.len() == float_bits(old(record)@).len()),
        same_shape(old(record)@, final(record)@),
        float_bits(old(record)@).len() <= bits@.len() ==> final(record)@ == with_float_bits(
            old(record)@,
            bits@.subrange(0, float_bits(old(record)@).len() as int),
        ),
        ok ==> final(record)@ == with_float_bits(old(record)@, bits@),
{
    let mut taken = Record::Line {
        base: Base {
            group: 0,
            pen_style: 0,
            pen_color: 0,
            pen_width: 0,
            layer: 0,
            layer_group: 0,
            flag: 0,
        },
        p1: [0, 0],
        p2: [0, 0],
    };
    std::mem::swap(record, &mut taken);
    let mut index: usize = 0;
    let (restored, ok) = restore(taken, bits, &mut index);
    *record = restored;
    proof {
        if ok && index == bits.len() {
            assert(bits@.subrange(0, index as int) =~= bits@);
        }
    }
    ok && index == bits.len()
}

/// A copy of a record with the same model.
pub fn clone_record(record: &Record) -> (copy: Record)
    ensures
        copy@ == record@,
    decreases record, 1nat,
{
    match record {
        Record::Line { base, p1, p2 } => Record::Line { base: *base, p1: *p1, p2: *p2 },
        Record::Arc { base, center, radius, start_rad, sweep_rad, tilt_rad, flatness, full } =>
            Record::Arc {
            base: *base,
            center: *center,
            radius: *radius,
            start_rad: *start_rad,
            sweep_rad: *sweep_rad,
            tilt_rad: *tilt_rad,
            flatness: *flatness,
            full: *full,
        },
        Record::Point { base, at, temporary, marker } => Record::Point {
            base: *base,
            at: *at,
            temporary: *temporary,
            marker: *marker,
        },
        Record::Text {
            base,
            start,
            end,
            text_type,
            size_x,
            size_y,
            spacing,
            angle_deg,
            font,
            value,
        } => Record::Text {
            base: *base,
            start: *start,
            end: *end,
            text_type: *text_type,
            size_x: *size_x,
            size_y: *size_y,
            spacing: *spacing,
            angle_deg: *angle_deg,
            font: font.clone(),
            value: value.clone(),
        },
        Record::Dimension { base, line, text, sxf_mode, aux_lines, aux_points } => {
            let l = clone_record(line);
            let t = clone_record(text);
            let al = clone_records(aux_lines);
            let ap = clone_records(aux_points);
            Record::Dimension {
                base: *base,
                line: Box::new(l),
                text: Box::new(t),
                sxf_mode: *sxf_mode,
                aux_lines: al,
                aux_points: ap,
            }
        },
        Record::Solid { base, values, color } => Record::Solid {
            base: *base,
            values: *values,
            color: *color,
        },
        Record::Block { base, ref_x, ref_y, scale_x, scale_y, rotation, def_number } =>
            Record::Block {
            base: *base,
            ref_x: *ref_x,
            ref_y: *ref_y,
            scale_x: *scale_x,
            scale_y: *scale_y,
            rotation: *rotation,
            def_number: *def_number,
        },
    }
}

/// Copies of records with the same models.
pub fn clone_records(records: &Vec<Record>) -> (copies: Vec<Record>)
    ensures
        records_view(copies@) == records_view(records@),
    decreases records@, 0nat,
{
    let mut out: Vec<Record> = Vec::new();
    let mut i: usize = 0;
    proof {
        lemma_records_view(records@);
    }
    while i < records.len()
        invariant
            i <= records.len(),
            records_view(records@).len() == records@.len(),
            forall|j: int| 0 <= j < records@.len() ==> #[trigger] records_view(records@)[j]
                == records@[j]@,
            out@.len() == i,
            forall|j: int| 0 <= j < i ==> #[trigger] out@[j]@ == records@[j]@,
        decreases records.len() - i,
    {
        proof {
            assert(decreases_to!(records@ => records@[i as int]));
        }
        let c = clone_record(&records[i]);
        out.push(c);
        i = i + 1;
    }
    proof {
        lemma_records_view(out@);
        assert(records_view(out@) =~= records_view(records@));
    }
    out
}

} // verus!
