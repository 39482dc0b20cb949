//! Encoding of entity records and object archives (format version 6.00).
use vstd::prelude::*;
use vstd::bytes::*;
use crate::codec::error::{CodecError, CodecErrorV};
use crate::codec::writer::{Writer, enc_cstring, then_bytes, cat_bytes, wrote, lemma_wrote_seq};
use crate::codec::types::{Base, Record, RecordV, records_view};

verus! {

/// The format version every written archive declares.
pub const EXPORT_VERSION: u32 = 600;

pub open spec fn enc_base(b: Base) -> Seq<u8> {
    spec_u32_to_le_bytes(b.group) + seq![b.pen_style] + spec_u16_to_le_bytes(b.pen_color)
        + spec_u16_to_le_bytes(b.pen_width) + spec_u16_to_le_bytes(b.layer)
        + spec_u16_to_le_bytes(b.layer_group) + spec_u16_to_le_bytes(b.flag)
}

/// Doubles (given as bit patterns) written one after another.
pub open spec fn enc_f64s(vs: Seq<u64>) -> Seq<u8>
    decreases vs.len(),
{
    if vs.len() == 0 {
        Seq::empty()
    } else {
        spec_u64_to_le_bytes(vs[0]) + enc_f64s(vs.drop_first())
    }
}

pub open spec fn bool_u32(b: bool) -> u32 {
    if b {
        1
    } else {
        0
    }
}

/// The body of a record, without its class reference. A point with a marker
/// is written with pen style 100; a solid with pen color 10 carries its color
/// (0 when absent).
pub open spec fn enc_record_body(r: RecordV) -> Result<Seq<u8>, CodecErrorV>
    decreases r,
{
    match r {
        RecordV::Line { base, p1, p2 } => Ok(
            enc_base(base) + enc_f64s(seq![p1[0], p1[1], p2[0], p2[1]]),
        ),
        RecordV::Arc { base, center, radius, start_rad, sweep_rad, tilt_rad, flatness, full } => Ok(
            enc_base(base) + enc_f64s(
                seq![center[0], center[1], radius, start_rad, sweep_rad, tilt_rad, flatness],
            ) + spec_u32_to_le_bytes(bool_u32(full)),
        ),
        RecordV::Point { base, at, temporary, marker } => {
            let b = if marker is Some {
                Base { pen_style: 100, ..base }
            } else {
                base
            };
            let head = enc_base(b) + enc_f64s(seq![at[0], at[1]]) + spec_u32_to_le_bytes(
                bool_u32(temporary),
            );
            match marker {
                Some((code, angle, scale)) => Ok(
                    head + spec_u32_to_le_bytes(code) + enc_f64s(seq![angle, scale]),
                ),
                None => Ok(head),
            }
        },
        RecordV::Text {
            base,
            start,
            end,
            text_type,
            size_x,
            size_y,
            spacing,
            angle_deg,
            font,
            value,
        } => then_bytes(
            enc_base(base) + enc_f64s(seq![start[0], start[1], end[0], end[1]])
                + spec_u32_to_le_bytes(text_type) + enc_f64s(
                seq![size_x, size_y, spacing, angle_deg],
            ),
            cat_bytes(enc_cstring(font), enc_cstring(value)),
        ),
        RecordV::Dimension { base, line, text, sxf_mode, aux_lines, aux_points } => then_bytes(
            enc_base(base),
            cat_bytes(
                enc_record_body(*line),
                cat_bytes(
                    enc_record_body(*text),
                    then_bytes(
                        spec_u16_to_le_bytes(sxf_mode),
                        cat_bytes(enc_record_bodies(aux_lines), enc_record_bodies(aux_points)),
                    ),
                ),
            ),
        ),
        RecordV::Solid { base, values, color } => Ok(
            enc_base(base) + enc_f64s(values@) + if base.pen_color == 10 {
                spec_u32_to_le_bytes(
                    match color {
                        Some(c) => c,
                        None => 0,
                    },
                )
            } else {
                Seq::empty()
            },
        ),
        RecordV::Block { base, ref_x, ref_y, scale_x, scale_y, rotation, def_number } => Ok(
            enc_base(base) + enc_f64s(seq![ref_x, ref_y, scale_x, scale_y, rotation])
                + spec_u32_to_le_bytes(def_number),
        ),
    }
}

/// Record bodies written one after another.
pub open spec fn enc_record_bodies(rs: Seq<RecordV>) -> Result<Seq<u8>, CodecErrorV>
    decreases rs,
{
    if rs.len() == 0 {
        Ok(Seq::empty())
    } else {
        cat_bytes(enc_record_body(rs[0]), enc_record_bodies(rs.drop_first()))
    }
}

pub proof fn lemma_records_view(s: Seq<Record>)
    ensures
        records_view(s).len() == s.len(),
        forall|i: int| 0 <= i < s.len() ==> #[trigger] records_view(s)[i] == s[i]@,
    decreases s.len(),
{
    if s.len() > 0 {
        lemma_records_view(s.drop_first());
        assert(records_view(s) == seq![s[0]@] + records_view(s.drop_first()));
        assert forall|i: int| 0 <= i < s.len() implies #[trigger] records_view(s)[i] == s[i]@ by {
            if i > 0 {
                assert(s.drop_first()[i - 1] == s[i]);
            }
        }
    }
}

pub proof fn lemma_enc_record_bodies_step(rs: Seq<RecordV>, i: int)
    requires
        0 <= i < rs.len(),
    ensures
        enc_record_bodies(rs.skip(i)) == cat_bytes(
            enc_record_body(rs[i]),
            enc_record_bodies(rs.skip(i + 1)),
        ),
{
    assert(rs.skip(i).drop_first() =~= rs.skip(i + 1));
    assert(rs.skip(i)[0] == rs[i]);
}

pub proof fn lemma_then_then(a: Seq<u8>, b: Seq<u8>, r: Result<Seq<u8>, CodecErrorV>)
    ensures
        then_bytes(a, then_bytes(b, r)) == then_bytes(a + b, r),
{
    match r {
        Ok(x) => {
            assert(a + (b + x) =~= (a + b) + x);
        },
        Err(_) => {},
    }
}

/// Doubles written one after another.
fn write_f64s(writer: &mut Writer, values: &[u64])
    ensures
        final(writer)@ == old(writer)@ + enc_f64s(values@),
{
    let mut i: usize = 0;
    let ghost start = writer@;
    assert(values@.skip(0) =~= values@);
    assert(start + Seq::<u8>::empty() =~= start);
    while i < values.len()
        invariant
            i <= values@.len(),
            start + enc_f64s(values@) == writer@ + enc_f64s(values@.skip(i as int)),
        decreases values.len() - i,
    {
        let ghost before = writer@;
        assert(values@.skip(i as int).drop_first() =~= values@.skip(i + 1));
        writer.f64_bits(values[i]);
        assert(before + enc_f64s(values@.skip(i as int)) =~= writer@ + enc_f64s(values@.skip(i + 1)));
        i = i + 1;
    }
    assert(writer@ + enc_f64s(values@.skip(i as int)) =~= writer@);
}

pub fn write_base(writer: &mut Writer, base: Base)
    ensures
        final(writer)@ == old(writer)@ + enc_base(base),
{
    let ghost start = writer@;
    writer.u32(base.group);
    writer.u8(base.pen_style);
    writer.u16(base.pen_color);
    writer.u16(base.pen_width);
    writer.u16(base.layer);
    writer.u16(base.layer_group);
    writer.u16(base.flag);
    assert(writer@ =~= start + enc_base(base));
}

fn write_record_bodies(writer: &mut Writer, records: &Vec<Record>) -> (res: Result<(), CodecError>)
    ensures
        wrote(old(writer)@, final(writer)@, res, enc_record_bodies(records_view(records@))),
    decreases records@, 0nat,
{
    let ghost rs = records_view(records@);
    let ghost start = writer@;
    proof {
        lemma_records_view(records@);
        assert(rs.skip(0) =~= rs);
    }
    let mut i: usize = 0;
    while i < records.len()
        invariant
            i <= records@.len(),
            rs == records_view(records@),
            start == old(writer)@,
            rs.len() == records@.len(),
            forall|j: int| 0 <= j < records@.len() ==> #[trigger] rs[j] == records@[j]@,
            writer@.len() >= start.len(),
            writer@.subrange(0, start.len() as int) == start,
            enc_record_bodies(rs) == then_bytes(
                writer@.subrange(start.len() as int, writer@.len() as int),
                enc_record_bodies(rs.skip(i as int)),
            ),
        decreases records.len() - i,
    {
        let ghost before = writer@;
        proof {
            lemma_enc_record_bodies_step(rs, i as int);
            assert(decreases_to!(records@ => records@[i as int]));
        }
        let r = write_record_body(writer, &records[i]);
        assert(rs[i as int] == records@[i as int]@);
        match r {
            Ok(()) => {},
            Err(e) => {
                proof {
                    assert(enc_record_body(rs[i as int]) is Err);
                    assert(enc_record_bodies(rs.skip(i as int)) is Err);
                    assert(enc_record_bodies(rs) == enc_record_body(rs[i as int]));
                    assert(e@ == enc_record_bodies(rs)->Err_0);
                    assert(writer@.len() >= start.len());
                    assert(writer@.subrange(0, start.len() as int) =~= writer@.subrange(
                        0,
                        before.len() as int,
                    ).subrange(0, start.len() as int));
                }
                return Err(e);
            },
        }
        proof {
            let x = before.subrange(start.len() as int, before.len() as int);
            let y = writer@.subrange(before.len() as int, writer@.len() as int);
            assert(writer@ == before + enc_record_body(rs[i as int])->Ok_0);
            assert(y =~= enc_record_body(rs[i as int])->Ok_0);
            assert(enc_record_bodies(rs.skip(i as int)) == then_bytes(y, enc_record_bodies(rs.skip(i + 1))));
            assert(writer@.subrange(start.len() as int, writer@.len() as int) =~= x + y);
            lemma_then_then(x, y, enc_record_bodies(rs.skip(i + 1)));
            assert(writer@.subrange(0, start.len() as int) =~= before.subrange(0, start.len() as int));
        }
        i = i + 1;
    }
    proof {
        assert(rs.skip(i as int) =~= Seq::<RecordV>::empty());
        assert(writer@ =~= start + writer@.subrange(start.len() as int, writer@.len() as int));
        assert(writer@.subrange(start.len() as int, writer@.len() as int) + Seq::<u8>::empty()
            =~= writer@.subrange(start.len() as int, writer@.len() as int));
    }
    Ok(())
}


fn write_text_body(writer: &mut Writer, record: &Record) -> (res: Result<(), CodecError>)
    requires
        record is Text,
    ensures
        wrote(old(writer)@, final(writer)@, res, enc_record_body(record@)),
{
    let ghost start = writer@;
    match record {
        Record::Text {
            base,
            start: s,
            end,
            text_type,
            size_x,
            size_y,
            spacing,
            angle_deg,
            font,
            value,
        } => {
            write_base(writer, *base);
            let c = [s[0], s[1], end[0], end[1]];
            write_f64s(writer, &c);
            writer.u32(*text_type);
            let z = [*size_x, *size_y, *spacing, *angle_deg];
            write_f64s(writer, &z);
            assert(c@ =~= seq![s[0], s[1], end[0], end[1]]);
            assert(z@ =~= seq![*size_x, *size_y, *spacing, *angle_deg]);
            let ghost mid = writer@;
            let ghost head = enc_base(*base) + enc_f64s(seq![s[0], s[1], end[0], end[1]])
                + spec_u32_to_le_bytes(*text_type) + enc_f64s(seq![*size_x, *size_y, *spacing, *angle_deg]);
            assert(mid =~= start + head);
            let r1 = writer.cstring(font.as_str());
            if let Err(e) = r1 {
                assert(writer@.subrange(0, start.len() as int) =~= start);
                return Err(e);
            }
            let r2 = writer.cstring(value.as_str());
            if let Err(e) = r2 {
                assert(writer@.subrange(0, start.len() as int) =~= start);
                return Err(e);
            }
            assert(writer@ =~= start + (head + (enc_cstring(font@)->Ok_0 + enc_cstring(value@)->Ok_0)));
            Ok(())
        },
        _ => Ok(()),
    }
}

fn write_dimension_body(writer: &mut Writer, record: &Record) -> (res: Result<(), CodecError>)
    requires
        record is Dimension,
    ensures
        wrote(old(writer)@, final(writer)@, res, enc_record_body(record@)),
    decreases record, 0nat,
{
    let ghost start = writer@;
    match record {
        Record::Dimension { base, line, text, sxf_mode, aux_lines, aux_points } => {
            write_base(writer, *base);
            let ghost a = writer@;
            let r1 = write_record_body(writer, line);
            if let Err(e) = r1 {
                assert(writer@.subrange(0, start.len() as int) =~= writer@.subrange(0, a.len() as int).subrange(0, start.len() as int));
                assert(a.subrange(0, start.len() as int) =~= start);
                return Err(e);
            }
            let ghost b = writer@;
            let r2 = write_record_body(writer, text);
            if let Err(e) = r2 {
                assert(writer@.subrange(0, start.len() as int) =~= writer@.subrange(0, b.len() as int).subrange(0, start.len() as int));
                assert(b.subrange(0, start.len() as int) =~= start);
                return Err(e);
            }
            writer.u16(*sxf_mode);
            let ghost c = writer@;
            let r3 = write_record_bodies(writer, aux_lines);
            if let Err(e) = r3 {
                assert(writer@.subrange(0, start.len() as int) =~= writer@.subrange(0, c.len() as int).subrange(0, start.len() as int));
                assert(c.subrange(0, start.len() as int) =~= start);
                return Err(e);
            }
            let ghost d = writer@;
            let r4 = write_record_bodies(writer, aux_points);
            if let Err(e) = r4 {
                assert(writer@.subrange(0, start.len() as int) =~= writer@.subrange(0, d.len() as int).subrange(0, start.len() as int));
                assert(d.subrange(0, start.len() as int) =~= start);
                return Err(e);
            }
            proof {
                let eb = enc_base(*base);
                let x1 = enc_record_body((**line)@)->Ok_0;
                let x2 = enc_record_body((**text)@)->Ok_0;
                let x3 = enc_record_bodies(records_view(aux_lines@))->Ok_0;
                let x4 = enc_record_bodies(records_view(aux_points@))->Ok_0;
                assert(writer@ =~= start + (eb + (x1 + (x2 + (spec_u16_to_le_bytes(*sxf_mode) + (x3 + x4))))));
            }
            Ok(())
        },
        _ => Ok(()),
    }
}

/// Writes the body of one record.
pub fn write_record_body(writer: &mut Writer, record: &Record) -> (res: Result<(), CodecError>)
    ensures
        wrote(old(writer)@, final(writer)@, res, enc_record_body(record@)),
    decreases record, 1nat,
{
    let ghost start = writer@;
    match record {
        Record::Line { base, p1, p2 } => {
            write_base(writer, *base);
            let v = [p1[0], p1[1], p2[0], p2[1]];
            write_f64s(writer, &v);
            assert(v@ =~= seq![p1[0], p1[1], p2[0], p2[1]]);
            assert(writer@ =~= start + enc_record_body(record@)->Ok_0);
            Ok(())
        },
        Record::Arc { base, center, radius, start_rad, sweep_rad, tilt_rad, flatness, full } => {
            write_base(writer, *base);
            let v = [center[0], center[1], *radius, *start_rad, *sweep_rad, *tilt_rad, *flatness];
            write_f64s(writer, &v);
            writer.u32(if *full { 1 } else { 0 });
            assert(v@ =~= seq![center[0], center[1], *radius, *start_rad, *sweep_rad, *tilt_rad, *flatness]);
            assert(writer@ =~= start + enc_record_body(record@)->Ok_0);
            Ok(())
        },
        Record::Point { base, at, temporary, marker } => {
            let mut b = *base;
            if marker.is_some() {
                b.pen_style = 100;
            }
            write_base(writer, b);
            let v = [at[0], at[1]];
            write_f64s(writer, &v);
            writer.u32(if *temporary { 1 } else { 0 });
            assert(v@ =~= seq![at[0], at[1]]);
            match marker {
                Some((code, angle, scale)) => {
                    writer.u32(*code);
                    let m = [*angle, *scale];
                    write_f64s(writer, &m);
                    assert(m@ =~= seq![*angle, *scale]);
                },
                None => {},
            }
            assert(writer@ =~= start + enc_record_body(record@)->Ok_0);
            Ok(())
        },
        Record::Text { .. } => write_text_body(writer, record),
        Record::Dimension { .. } => write_dimension_body(writer, record),
        Record::Solid { base, values, color } => {
            write_base(writer, *base);
            write_f64s(writer, values);
            if base.pen_color == 10 {
                writer.u32(
                    match color {
                        Some(c) => *c,
                        None => 0,
                    },
                );
            }
            assert(writer@ =~= start + enc_record_body(record@)->Ok_0);
            Ok(())
        },
        Record::Block { base, ref_x, ref_y, scale_x, scale_y, rotation, def_number } => {
            write_base(writer, *base);
            let v = [*ref_x, *ref_y, *scale_x, *scale_y, *rotation];
            write_f64s(writer, &v);
            writer.u32(*def_number);
            assert(v@ =~= seq![*ref_x, *ref_y, *scale_x, *scale_y, *rotation]);
            assert(writer@ =~= start + enc_record_body(record@)->Ok_0);
            Ok(())
        },
    }
}


/// The archive class of a record: 0 line, 1 arc, 2 point, 3 text,
/// 4 dimension, 5 solid, 6 block.
pub open spec fn class_index(r: RecordV) -> int {
    match r {
        RecordV::Line { .. } => 0,
        RecordV::Arc { .. } => 1,
        RecordV::Point { .. } => 2,
        RecordV::Text { .. } => 3,
        RecordV::Dimension { .. } => 4,
        RecordV::Solid { .. } => 5,
        RecordV::Block { .. } => 6,
    }
}

/// The ASCII bytes of the class names, by archive class.
pub open spec fn class_name_bytes(k: int) -> Seq<u8> {
    if k == 0 {
        seq![0x43u8, 0x44, 0x61, 0x74, 0x61, 0x53, 0x65, 0x6e]
    } else if k == 1 {
        seq![0x43u8, 0x44, 0x61, 0x74, 0x61, 0x45, 0x6e, 0x6b, 0x6f]
    } else if k == 2 {
        seq![0x43u8, 0x44, 0x61, 0x74, 0x61, 0x54, 0x65, 0x6e]
    } else if k == 3 {
        seq![0x43u8, 0x44, 0x61, 0x74, 0x61, 0x4d, 0x6f, 0x6a, 0x69]
    } else if k == 4 {
        seq![0x43u8, 0x44, 0x61, 0x74, 0x61, 0x53, 0x75, 0x6e, 0x70, 0x6f, 0x75]
    } else if k == 5 {
        seq![0x43u8, 0x44, 0x61, 0x74, 0x61, 0x53, 0x6f, 0x6c, 0x69, 0x64]
    } else {
        seq![0x43u8, 0x44, 0x61, 0x74, 0x61, 0x42, 0x6c, 0x6f, 0x63, 0x6b]
    }
}

/// What a record's class reference starts with: a reference to a class
/// already declared in this archive, or a declaration taking the next id.
/// Returns the bytes, the class ids afterwards and the next position.
pub open spec fn enc_class_ref(r: RecordV, ids: Seq<Option<u16>>, position: int) -> Result<
    (Seq<u8>, Seq<Option<u16>>, int),
    CodecErrorV,
> {
    let k = class_index(r);
    match ids[k] {
        Some(id) => Ok((spec_u16_to_le_bytes(id | 0x8000u16), ids, position)),
        None => if position > 0xffff {
            Err(CodecErrorV::ClassTableOverflow)
        } else {
            Ok(
                (
                    spec_u16_to_le_bytes(0xffff) + spec_u16_to_le_bytes(600)
                        + spec_u16_to_le_bytes(class_name_bytes(k).len() as u16)
                        + class_name_bytes(k),
                    ids.update(k, Some(position as u16)),
                    position + 1,
                ),
            )
        },
    }
}

/// Records written as archive objects; each object takes one position.
pub open spec fn enc_archive(rs: Seq<RecordV>, ids: Seq<Option<u16>>, position: int) -> Result<
    Seq<u8>,
    CodecErrorV,
>
    decreases rs.len(),
{
    if rs.len() == 0 {
        Ok(Seq::empty())
    } else {
        match enc_class_ref(rs[0], ids, position) {
            Err(e) => Err(e),
            Ok((head, ids2, p2)) => then_bytes(
                head,
                cat_bytes(enc_record_body(rs[0]), enc_archive(rs.drop_first(), ids2, p2 + 1)),
            ),
        }
    }
}

pub open spec fn no_class_ids() -> Seq<Option<u16>> {
    seq![None, None, None, None, None, None, None]
}

/// An entity list: the record count, then the records as a fresh archive.
pub open spec fn enc_entity_list(rs: Seq<RecordV>) -> Result<Seq<u8>, CodecErrorV> {
    then_bytes(spec_u16_to_le_bytes(rs.len() as u16), enc_archive(rs, no_class_ids(), 1))
}

impl Record {
    pub open spec fn spec_class_name(r: RecordV) -> Seq<char> {
        match r {
            RecordV::Line { .. } => "CDataSen"@,
            RecordV::Arc { .. } => "CDataEnko"@,
            RecordV::Point { .. } => "CDataTen"@,
            RecordV::Text { .. } => "CDataMoji"@,
            RecordV::Dimension { .. } => "CDataSunpou"@,
            RecordV::Solid { .. } => "CDataSolid"@,
            RecordV::Block { .. } => "CDataBlock"@,
        }
    }

    /// The archive class name of the record.
    pub fn class_name(&self) -> (name: &'static str)
        ensures
            name@ == Record::spec_class_name(self@),
    {
        match self {
            Record::Line { .. } => "CDataSen",
            Record::Arc { .. } => "CDataEnko",
            Record::Point { .. } => "CDataTen",
            Record::Text { .. } => "CDataMoji",
            Record::Dimension { .. } => "CDataSunpou",
            Record::Solid { .. } => "CDataSolid",
            Record::Block { .. } => "CDataBlock",
        }
    }
}

fn class_slot(record: &Record) -> (k: usize)
    ensures
        k == class_index(record@),
{
    match record {
        Record::Line { .. } => 0,
        Record::Arc { .. } => 1,
        Record::Point { .. } => 2,
        Record::Text { .. } => 3,
        Record::Dimension { .. } => 4,
        Record::Solid { .. } => 5,
        Record::Block { .. } => 6,
    }
}

pub(crate) fn class_bytes(k: usize) -> (b: Vec<u8>)
    ensures
        b@ == class_name_bytes(k as int),
{
    let b = if k == 0 {
        vec![0x43u8, 0x44, 0x61, 0x74, 0x61, 0x53, 0x65, 0x6e]
    } else if k == 1 {
        vec![0x43u8, 0x44, 0x61, 0x74, 0x61, 0x45, 0x6e, 0x6b, 0x6f]
    } else if k == 2 {
        vec![0x43u8, 0x44, 0x61, 0x74, 0x61, 0x54, 0x65, 0x6e]
    } else if k == 3 {
        vec![0x43u8, 0x44, 0x61, 0x74, 0x61, 0x4d, 0x6f, 0x6a, 0x69]
    } else if k == 4 {
        vec![0x43u8, 0x44, 0x61, 0x74, 0x61, 0x53, 0x75, 0x6e, 0x70, 0x6f, 0x75]
    } else if k == 5 {
        vec![0x43u8, 0x44, 0x61, 0x74, 0x61, 0x53, 0x6f, 0x6c, 0x69, 0x64]
    } else {
        vec![0x43u8, 0x44, 0x61, 0x74, 0x61, 0x42, 0x6c, 0x6f, 0x63, 0x6b]
    };
    assert(b@ =~= class_name_bytes(k as int));
    b
}

/// Writes records as archive objects, declaring each class on first use.
pub struct ArchiveWriter {
    pub writer: Writer,
    pub class_ids: [Option<u16>; 7],
    pub position: u32,
}

impl ArchiveWriter {
    pub fn record(&mut self, record: &Record) -> (res: Result<(), CodecError>)
        requires
            old(self).position <= 0xffff_0000u32,
        ensures
            match enc_class_ref(record@, old(self).class_ids@, old(self).position as int) {
                Err(e) => res matches Err(x) && x@ == e && final(self).writer@ == old(
                    self,
                ).writer@,
                Ok((head, ids2, p2)) => wrote(
                    old(self).writer@,
                    final(self).writer@,
                    res,
                    then_bytes(head, enc_record_body(record@)),
                ) && (res is Ok ==> final(self).class_ids@ == ids2 && final(self).position == p2
                    + 1),
            },
            final(self).position <= old(self).position + 2,
    {
        let k = class_slot(record);
        let ghost start = self.writer@;
        match self.class_ids[k] {
            Some(class_id) => {
                self.writer.u16(class_id | 0x8000);
            },
            None => {
                if self.position > 0xffff {
                    return Err(CodecError::ClassTableOverflow);
                }
                let class_id = self.position as u16;
                self.class_ids[k] = Some(class_id);
                assert(self.class_ids@ =~= old(self).class_ids@.update(k as int, Some(class_id)));
                self.position = self.position + 1;
                let name = class_bytes(k);
                self.writer.u16(0xffff);
                self.writer.u16(EXPORT_VERSION as u16);
                self.writer.u16(name.len() as u16);
                self.writer.raw(name.as_slice());
            },
        }
        let ghost mid = self.writer@;
        assert(mid == start + enc_class_ref(record@, old(self).class_ids@, old(self).position as int)->Ok_0.0);
        let r = write_record_body(&mut self.writer, record);
        proof {
            let head = mid.subrange(start.len() as int, mid.len() as int);
            assert(mid =~= start + head);
            assert(head =~= enc_class_ref(record@, old(self).class_ids@, old(self).position as int)->Ok_0.0);
            match enc_record_body(record@) {
                Ok(b) => {
                    assert(self.writer@ =~= start + (head + b));
                },
                Err(_) => {
                    assert(mid.subrange(0, start.len() as int) =~= start);
                    assert(self.writer@.subrange(0, start.len() as int) =~= self.writer@.subrange(
                        0,
                        mid.len() as int,
                    ).subrange(0, start.len() as int));
                },
            }
        }
        if let Err(e) = r {
            return Err(e);
        }
        self.position = self.position + 1;
        Ok(())
    }
}

} // verus!
