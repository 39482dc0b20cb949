//! Whole-document encoding.
use vstd::prelude::*;
use vstd::bytes::*;
use crate::codec::error::{CodecError, CodecErrorV};
use crate::codec::writer::{Writer, enc_cstring, then_bytes, cat_bytes, wrote, lemma_wrote_seq};
use crate::codec::types::{Record, RecordV, records_view, BlockDefinition, BlockDefinitionV, Document, DocumentV,
    header_shape};
use crate::codec::encode::{
    ArchiveWriter, enc_archive, enc_class_ref, enc_record_body, no_class_ids, enc_base, write_base,
    lemma_records_view, EXPORT_VERSION,
};
use crate::codec::header::{enc_header, write_header};

verus! {

pub proof fn lemma_enc_archive_step(rs: Seq<RecordV>, i: int, ids: Seq<Option<u16>>, position: int)
    requires
        0 <= i < rs.len(),
    ensures
        enc_archive(rs.skip(i), ids, position) == match enc_class_ref(rs[i], ids, position) {
            Err(e) => Err(e),
            Ok((head, ids2, p2)) => then_bytes(
                head,
                cat_bytes(enc_record_body(rs[i]), enc_archive(rs.skip(i + 1), ids2, p2 + 1)),
            ),
        },
{
    assert(rs.skip(i).drop_first() =~= rs.skip(i + 1));
    assert(rs.skip(i)[0] == rs[i]);
}

/// Writes records as objects of the archive, continuing its class table.
pub fn write_archive_records(archive: &mut ArchiveWriter, records: &Vec<Record>) -> (res: Result<
    (),
    CodecError,
>)
    requires
        old(archive).position + 2 * records@.len() <= 0xffff_0000,
    ensures
        wrote(
            old(archive).writer@,
            final(archive).writer@,
            res,
            enc_archive(records_view(records@), old(archive).class_ids@, old(archive).position as int),
        ),
{
    let ghost rs = records_view(records@);
    let ghost start = archive.writer@;
    proof {
        lemma_records_view(records@);
        assert(rs.skip(0) =~= rs);
    }
    assert(start + Seq::<u8>::empty() =~= start);
    let mut i: usize = 0;
    while i < records.len()
        invariant
            i <= records@.len(),
            rs == records_view(records@),
            rs.len() == records@.len(),
            forall|j: int| 0 <= j < records@.len() ==> #[trigger] rs[j] == records@[j]@,
            start == old(archive).writer@,
            archive.position + 2 * (records@.len() - i) <= 0xffff_0000,
            wrote(start, archive.writer@, Ok(()), Ok(archive.writer@.subrange(start.len() as int, archive.writer@.len() as int))),
            enc_archive(rs, old(archive).class_ids@, old(archive).position as int) == then_bytes(
                archive.writer@.subrange(start.len() as int, archive.writer@.len() as int),
                enc_archive(rs.skip(i as int), archive.class_ids@, archive.position as int),
            ),
        decreases records.len() - i,
    {
        let ghost before = archive.writer@;
        let ghost ids = archive.class_ids@;
        let ghost pos = archive.position as int;
        proof {
            lemma_enc_archive_step(rs, i as int, ids, pos);
        }
        let r = archive.record(&records[i]);
        assert(rs[i as int] == records@[i as int]@);
        match r {
            Ok(()) => {},
            Err(e) => {
                proof {
                    assert(before.subrange(0, start.len() as int) =~= start);
                    match enc_class_ref(rs[i as int], ids, pos) {
                        Err(_) => {
                            assert(archive.writer@ == before);
                        },
                        Ok(_) => {
                            assert(archive.writer@.subrange(0, start.len() as int) =~= archive.writer@.subrange(0, before.len() as int).subrange(0, start.len() as int));
                        },
                    }
                }
                return Err(e);
            },
        }
        proof {
            let (head, ids2, p2) = enc_class_ref(rs[i as int], ids, pos)->Ok_0;
            let b = enc_record_body(rs[i as int])->Ok_0;
            let x = before.subrange(start.len() as int, before.len() as int);
            assert(archive.writer@ == before + (head + b));
            assert(enc_archive(rs.skip(i as int), ids, pos) == then_bytes(head + b, enc_archive(rs.skip(i + 1), ids2, p2 + 1))) by {
                match enc_archive(rs.skip(i + 1), ids2, p2 + 1) {
                    Ok(y) => { assert(head + (b + y) =~= (head + b) + y); },
                    Err(_) => {},
                }
            }
            match enc_archive(rs.skip(i + 1), ids2, p2 + 1) {
                Ok(y) => { assert(x + ((head + b) + y) =~= (x + (head + b)) + y); },
                Err(_) => {},
            }
            assert(archive.writer@.subrange(start.len() as int, archive.writer@.len() as int) =~= x + (head + b));
            assert(archive.writer@ =~= start + archive.writer@.subrange(start.len() as int, archive.writer@.len() as int));
        }
        i = i + 1;
    }
    proof {
        assert(rs.skip(i as int) =~= Seq::<RecordV>::empty());
        let all = archive.writer@.subrange(start.len() as int, archive.writer@.len() as int);
        assert(all + Seq::<u8>::empty() =~= all);
    }
    Ok(())
}

/// One block definition: its `CDataList` class declaration, base, number,
/// flags and name, then its records as a fresh archive (at most 65 534).
pub open spec fn enc_block_definition(b: BlockDefinitionV) -> Result<Seq<u8>, CodecErrorV> {
    let head = spec_u16_to_le_bytes(0xffff) + spec_u16_to_le_bytes(600) + spec_u16_to_le_bytes(9)
        + seq![0x43u8, 0x44, 0x61, 0x74, 0x61, 0x4c, 0x69, 0x73, 0x74] + enc_base(b.base)
        + spec_u32_to_le_bytes(b.number) + spec_u32_to_le_bytes(b.is_referenced)
        + spec_u32_to_le_bytes(b.reserved);
    then_bytes(
        head,
        cat_bytes(
            enc_cstring(b.name),
            if b.records.len() > 65_534 {
                Err(CodecErrorV::TooManyRecords)
            } else {
                then_bytes(
                    spec_u16_to_le_bytes(b.records.len() as u16),
                    enc_archive(b.records, no_class_ids(), 1),
                )
            },
        ),
    )
}

pub open spec fn enc_block_definition_seq(bs: Seq<BlockDefinitionV>) -> Result<Seq<u8>, CodecErrorV>
    decreases bs.len(),
{
    if bs.len() == 0 {
        Ok(Seq::empty())
    } else {
        cat_bytes(enc_block_definition_seq(bs.drop_last()), enc_block_definition(bs.last()))
    }
}

/// The block definition list: a 32-bit count, then each definition.
pub open spec fn enc_block_definitions(bs: Seq<BlockDefinitionV>) -> Result<Seq<u8>, CodecErrorV> {
    then_bytes(spec_u32_to_le_bytes(bs.len() as u32), enc_block_definition_seq(bs))
}

fn write_block_definition(writer: Writer, definition: &BlockDefinition) -> (res: (Writer, Result<(), CodecError>))
    ensures
        wrote(writer@, res.0@, res.1, enc_block_definition(definition@)),
{
    let mut writer = writer;
    let ghost start = writer@;
    proof { lemma_records_view(definition.records@); }
    writer.u16(0xffff);
    writer.u16(EXPORT_VERSION as u16);
    writer.u16(9);
    let list = vec![0x43u8, 0x44, 0x61, 0x74, 0x61, 0x4c, 0x69, 0x73, 0x74];
    writer.raw(list.as_slice());
    write_base(&mut writer, definition.base);
    writer.u32(definition.number);
    writer.u32(definition.is_referenced);
    writer.u32(definition.reserved);
    let ghost s1 = writer@;
    let ghost head = s1.subrange(start.len() as int, s1.len() as int);
    assert(head =~= spec_u16_to_le_bytes(0xffff) + spec_u16_to_le_bytes(600) + spec_u16_to_le_bytes(9)
        + seq![0x43u8, 0x44, 0x61, 0x74, 0x61, 0x4c, 0x69, 0x73, 0x74] + enc_base(definition.base)
        + spec_u32_to_le_bytes(definition.number) + spec_u32_to_le_bytes(definition.is_referenced)
        + spec_u32_to_le_bytes(definition.reserved));
    assert(s1 =~= start + head);
    let r = writer.cstring(definition.name.as_str());
    proof { lemma_wrote_seq(start, s1, writer@, Ok(()), Ok(head), r, enc_cstring(definition.name@)); }
    if let Err(e) = r {
        return (writer, Err(e));
    }
    let ghost r1 = cat_bytes(Ok(head), enc_cstring(definition.name@));
    let ghost s2 = writer@;
    if definition.records.len() > 65_534 {
        assert(writer@.subrange(0, start.len() as int) =~= start);
        return (writer, Err(CodecError::TooManyRecords));
    }
    writer.u16(definition.records.len() as u16);
    let ghost s3 = writer@;
    let mut archive = ArchiveWriter { writer, class_ids: [None, None, None, None, None, None, None], position: 1 };
    assert(archive.class_ids@ =~= no_class_ids());
    let r = write_archive_records(&mut archive, &definition.records);
    let writer = archive.writer;
    proof {
        let rs = records_view(definition.records@);
        let len16 = spec_u16_to_le_bytes(definition.records.len() as u16);
        lemma_wrote_seq(s2, s3, writer@, Ok(()), Ok(len16), r, enc_archive(rs, no_class_ids(), 1));
        lemma_wrote_seq(start, s2, writer@, Ok(()), r1, r, cat_bytes(Ok(len16), enc_archive(rs, no_class_ids(), 1)));
        assert(cat_bytes(Ok(len16), enc_archive(rs, no_class_ids(), 1)) == then_bytes(len16, enc_archive(rs, no_class_ids(), 1)));
        match enc_cstring(definition.name@) {
            Ok(c) => {
                match enc_archive(rs, no_class_ids(), 1) {
                    Ok(a) => { assert(head + (c + (len16 + a)) =~= (head + c) + (len16 + a)); },
                    Err(_) => {},
                }
            },
            Err(_) => {},
        }
    }
    (writer, r)
}

/// Writes the block definition list.
pub fn write_block_definitions(writer: &mut Writer, definitions: &Vec<BlockDefinition>) -> (res: Result<
    (),
    CodecError,
>)
    ensures
        wrote(
            old(writer)@,
            final(writer)@,
            res,
            enc_block_definitions(definitions@.map_values(|b: BlockDefinition| b@)),
        ),
{
    let ghost bv = definitions@.map_values(|b: BlockDefinition| b@);
    let ghost start = writer@;
    writer.u32(definitions.len() as u32);
    let ghost s1 = writer@;
    let mut i: usize = 0;
    assert(bv.subrange(0, 0) =~= Seq::<BlockDefinitionV>::empty());
    assert(s1 + Seq::<u8>::empty() =~= s1);
    while i < definitions.len()
        invariant
            i <= definitions@.len(),
            bv == definitions@.map_values(|b: BlockDefinition| b@),
            start == old(writer)@,
            s1 == start + spec_u32_to_le_bytes(definitions@.len() as u32),
            wrote(s1, writer@, Ok(()), enc_block_definition_seq(bv.subrange(0, i as int))),
        decreases definitions.len() - i,
    {
        let ghost before = writer@;
        let mut w = Writer::new();
        std::mem::swap(writer, &mut w);
        let (w2, r) = write_block_definition(w, &definitions[i]);
        *writer = w2;
        assert(bv.subrange(0, i + 1).drop_last() =~= bv.subrange(0, i as int));
        assert(bv.subrange(0, i + 1).last() == definitions@[i as int]@);
        proof {
            lemma_wrote_seq(s1, before, writer@, Ok(()), enc_block_definition_seq(bv.subrange(0, i as int)), r, enc_block_definition(definitions@[i as int]@));
        }
        if let Err(e) = r {
            proof {
                lemma_block_seq_err_extends(bv, i as int + 1);
                assert(writer@.subrange(0, start.len() as int) =~= writer@.subrange(0, s1.len() as int).subrange(0, start.len() as int));
                assert(s1.subrange(0, start.len() as int) =~= start);
            }
            return Err(e);
        }
        i = i + 1;
    }
    proof {
        assert(bv.subrange(0, i as int) =~= bv);
        let b = enc_block_definition_seq(bv)->Ok_0;
        assert(writer@ =~= start + (spec_u32_to_le_bytes(bv.len() as u32) + b));
    }
    Ok(())
}

proof fn lemma_block_seq_err_extends(bs: Seq<BlockDefinitionV>, k: int)
    requires
        0 <= k <= bs.len(),
        enc_block_definition_seq(bs.subrange(0, k)) is Err,
    ensures
        enc_block_definition_seq(bs) == enc_block_definition_seq(bs.subrange(0, k)),
    decreases bs.len() - k,
{
    if k < bs.len() {
        assert(bs.subrange(0, k + 1).drop_last() =~= bs.subrange(0, k));
        lemma_block_seq_err_extends(bs, k + 1);
    } else {
        assert(bs.subrange(0, k) =~= bs);
    }
}

/// A whole document: at most 65 534 records; the header, the record count,
/// the records as one archive, then the block definition list.
pub open spec fn enc_document(doc: DocumentV) -> Result<Seq<u8>, CodecErrorV> {
    if doc.records.len() > 65_534 {
        Err(CodecErrorV::TooManyRecords)
    } else {
        cat_bytes(
            enc_header(doc.header),
            then_bytes(
                spec_u16_to_le_bytes(doc.records.len() as u16),
                cat_bytes(enc_archive(doc.records, no_class_ids(), 1), enc_block_definitions(doc.blocks)),
            ),
        )
    }
}

proof fn lemma_document_assoc(
    e1: Result<Seq<u8>, CodecErrorV>,
    l: Seq<u8>,
    a: Result<Seq<u8>, CodecErrorV>,
    b: Result<Seq<u8>, CodecErrorV>,
)
    ensures
        cat_bytes(cat_bytes(cat_bytes(e1, Ok(l)), a), b) == cat_bytes(
            e1,
            then_bytes(l, cat_bytes(a, b)),
        ),
{
    match e1 {
        Ok(h) => match a {
            Ok(x) => match b {
                Ok(y) => {
                    assert(((h + l) + x) + y =~= h + (l + (x + y)));
                },
                Err(_) => {},
            },
            Err(_) => {},
        },
        Err(_) => {},
    }
}

/// Encodes a document as a version 6.00 JWW file.
pub fn write_document(document: &Document) -> (res: Result<Vec<u8>, CodecError>)
    requires
        header_shape(document.header@),
    ensures
        match enc_document(document@) {
            Ok(b) => res matches Ok(v) && v@ == b,
            Err(e) => res matches Err(x) && x@ == e,
        },
{
    proof { lemma_records_view(document.records@); }
    if document.records.len() > 65_534 {
        return Err(CodecError::TooManyRecords);
    }
    let ghost d = document@;
    let mut writer = Writer::new();
    let ghost s0 = writer@;
    let r = write_header(&mut writer, &document.header);
    if let Err(e) = r {
        proof { lemma_document_assoc(enc_header(d.header), spec_u16_to_le_bytes(d.records.len() as u16), enc_archive(d.records, no_class_ids(), 1), enc_block_definitions(d.blocks)); }
        return Err(e);
    }
    let ghost s1 = writer@;
    writer.u16(document.records.len() as u16);
    let ghost len16 = spec_u16_to_le_bytes(d.records.len() as u16);
    proof { lemma_wrote_seq(s0, s1, writer@, Ok(()), enc_header(d.header), Ok(()), Ok(len16)); }
    let ghost e2 = cat_bytes(enc_header(d.header), Ok(len16));
    let ghost s2 = writer@;
    let mut archive = ArchiveWriter { writer, class_ids: [None, None, None, None, None, None, None], position: 1 };
    assert(archive.class_ids@ =~= no_class_ids());
    let r = write_archive_records(&mut archive, &document.records);
    proof { lemma_wrote_seq(s0, s2, archive.writer@, Ok(()), e2, r, enc_archive(d.records, no_class_ids(), 1)); }
    if let Err(e) = r {
        proof { lemma_document_assoc(enc_header(d.header), len16, enc_archive(d.records, no_class_ids(), 1), enc_block_definitions(d.blocks)); }
        return Err(e);
    }
    let ghost e3 = cat_bytes(e2, enc_archive(d.records, no_class_ids(), 1));
    let ghost s3 = archive.writer@;
    let r = write_block_definitions(&mut archive.writer, &document.blocks);
    proof {
        lemma_wrote_seq(s0, s3, archive.writer@, Ok(()), e3, r, enc_block_definitions(d.blocks));
        lemma_document_assoc(enc_header(d.header), len16, enc_archive(d.records, no_class_ids(), 1), enc_block_definitions(d.blocks));
    }
    if let Err(e) = r {
        return Err(e);
    }
    Ok(archive.writer.into_bytes())
}

} // verus!
