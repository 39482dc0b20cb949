//! Locating the entity list after the header, and decoding whole documents.
use vstd::prelude::*;
use vstd::bytes::*;
use crate::codec::error::{CodecError, CodecErrorV};
use crate::codec::reader::Reader;
use crate::codec::archive::{
    sp_entity_list, sp_entities, sp_block_definitions, sp_block_defs, sp_block_def,
    sp_block_def_body, read_entity_list, read_block_definitions, glue, opt_seq, ClassTableV,
};
use crate::codec::header_read::{sp_header, read_header};
use crate::codec::types::{
    DecodedDocument, DecodedDocumentV, DecodedBlockDefinition, DecodedBlockDefinitionV,
    DecodedEntityV, entities_view,
};

verus! {

/// Whether an object declaration of a `CData…` class with the given schema
/// starts at `i`: the 0xffff tag (two 0xff bytes), the schema, a name length of 8 to 32 that
/// fits in the data, and a name beginning with `CData`.
pub open spec fn is_entity_marker(d: Seq<u8>, i: int, schema: u16) -> bool {
    let name_len = spec_u16_from_le_bytes(d.subrange(i + 4, i + 6)) as int;
    &&& spec_u16_from_le_bytes(d.subrange(i, i + 2)) == 0xffff
    &&& 8 <= name_len <= 32
    &&& i + 6 + name_len <= d.len()
    &&& d[i + 6] == 0x43
    &&& d[i + 7] == 0x44
    &&& d[i + 8] == 0x61
    &&& d[i + 9] == 0x74
    &&& d[i + 10] == 0x61
    &&& spec_u16_from_le_bytes(d.subrange(i + 2, i + 4)) == schema
}

/// The first marker position in `[i, end)`.
pub open spec fn first_marker(d: Seq<u8>, i: int, end: int, schema: u16) -> Option<int>
    decreases end - i,
{
    if i >= end {
        None
    } else if is_entity_marker(d, i, schema) {
        Some(i)
    } else {
        first_marker(d, i + 1, end, schema)
    }
}

/// Where the entity list starts: two bytes before the first declaration of a
/// `CData…` class whose schema is the version, searched from byte 100 up to 20
/// bytes before the end. Files under 128 bytes have none.
pub open spec fn entity_list_offset(d: Seq<u8>, version: u32) -> Option<int> {
    if d.len() < 128 {
        None
    } else {
        match first_marker(d, 100, d.len() - 20, version as u16) {
            Some(i) => Some(i - 2),
            None => None,
        }
    }
}

proof fn lemma_first_marker_range(d: Seq<u8>, i: int, end: int, schema: u16)
    ensures
        first_marker(d, i, end, schema) matches Some(k) ==> i <= k < end,
    decreases end - i,
{
    if i < end && !is_entity_marker(d, i, schema) {
        lemma_first_marker_range(d, i + 1, end, schema);
    }
}

pub proof fn lemma_entity_list_offset_range(d: Seq<u8>, version: u32)
    ensures
        entity_list_offset(d, version) matches Some(o) ==> 98 <= o && o + 22 < d.len(),
{
    if d.len() >= 128 {
        lemma_first_marker_range(d, 100, d.len() - 20, version as u16);
    }
}

/// Searches for the start of the entity list.
pub fn find_entity_list_offset(data: &[u8], version: u32) -> (offset: Option<usize>)
    ensures
        match offset {
            Some(o) => entity_list_offset(data@, version) == Some(o as int),
            None => entity_list_offset(data@, version) is None,
        },
{
    let expected_schema = #[verifier::truncate] (version as u16);
    if data.len() < 128 {
        return None;
    }
    let end = data.len() - 20;
    let mut index: usize = 100;
    while index < end
        invariant
            100 <= index <= end,
            end == data@.len() - 20,
            data@.len() >= 128,
            expected_schema == version as u16,
            first_marker(data@, 100, end as int, expected_schema) == first_marker(
                data@,
                index as int,
                end as int,
                expected_schema,
            ),
        decreases end - index,
    {
        assert(index + 6 <= data.len());
        let tag = u16_from_le_bytes(&data[index..index + 2]);
        if tag == 0xffff {
            let schema = u16_from_le_bytes(&data[index + 2..index + 4]);
            let name_len = u16_from_le_bytes(&data[index + 4..index + 6]) as usize;
            if 8 <= name_len && name_len <= 32 && name_len <= data.len() - index - 6 && data[index
                + 6] == 0x43 && data[index + 7] == 0x44 && data[index + 8] == 0x61 && data[index
                + 9] == 0x74 && data[index + 10] == 0x61 && schema == expected_schema {
                assert(is_entity_marker(data@, index as int, expected_schema));
                return Some(index - 2);
            }
        }
        assert(!is_entity_marker(data@, index as int, expected_schema));
        index = index + 1;
    }
    None
}

/// The bytes after the entity list: empty or two zero bytes mean no block
/// definitions; anything else is a block definition list.
pub open spec fn sp_trailing_blocks(b: Seq<u8>, version: u32) -> Result<
    Seq<DecodedBlockDefinitionV>,
    CodecErrorV,
> {
    if b.len() == 0 || b == seq![0u8, 0u8] {
        Ok(Seq::empty())
    } else {
        sp_block_definitions(b, version)
    }
}

/// A whole JWW file: the header, the entity list found after it, and the
/// block definitions that follow the entity list.
pub open spec fn sp_document(d: Seq<u8>) -> Result<DecodedDocumentV, CodecErrorV> {
    match sp_header(d) {
        Err(e) => Err(e),
        Ok(header) => match entity_list_offset(d, header.version) {
            None => Err(CodecErrorV::EntityListNotFound),
            Some(offset) => {
                let rest = d.subrange(offset, d.len() as int);
                match sp_entity_list(rest, 0, header.version) {
                    (Err(e), _) => Err(e),
                    (Ok(entities), q) => match sp_trailing_blocks(
                        rest.subrange(q, rest.len() as int),
                        header.version,
                    ) {
                        Err(e) => Err(e),
                        Ok(block_defs) => Ok(DecodedDocumentV { header, entities, block_defs }),
                    },
                }
            },
        },
    }
}

/// Decodes a JWW file.
pub fn read_document(data: &[u8]) -> (res: Result<DecodedDocument, CodecError>)
    ensures
        match (res, sp_document(data@)) {
            (Ok(doc), Ok(s)) => doc@ == s,
            (Err(x), Err(y)) => x@ == y,
            _ => false,
        },
{
    let header = read_header(data)?;
    let offset = match find_entity_list_offset(data, header.version) {
        Some(o) => o,
        None => return Err(CodecError::EntityListNotFound),
    };
    proof { lemma_entity_list_offset_range(data@, header.version); }
    let rest = &data[offset..data.len()];
    assert(rest@ == data@.subrange(offset as int, data@.len() as int));
    let mut reader = Reader::new(rest);
    let entities = read_entity_list(&mut reader, header.version)?;
    let consumed = reader.bytes_read();
    let block_data = &rest[consumed..rest.len()];
    let block_defs = if block_data.len() == 0 || (block_data.len() == 2 && block_data[0] == 0
        && block_data[1] == 0) {
        assert(block_data@.len() == 0 || block_data@ =~= seq![0u8, 0u8]);
        let v: Vec<DecodedBlockDefinition> = Vec::new();
        assert(v@.map_values(|b: DecodedBlockDefinition| b@) =~= Seq::empty());
        v
    } else {
        assert(block_data@ != seq![0u8, 0u8]) by {
            if block_data@ == seq![0u8, 0u8] {
                assert(block_data@[0] == 0 && block_data@[1] == 0);
            }
        }
        read_block_definitions(block_data, header.version)?
    };
    Ok(DecodedDocument { header, entities, block_defs })
}

// ---------------------------------------------------------------------------
// Size bounds of decoded documents
// ---------------------------------------------------------------------------

proof fn lemma_entities_len(
    d: Seq<u8>,
    p: int,
    version: u32,
    count: nat,
    t: ClassTableV,
    np: u32,
)
    ensures
        sp_entities(d, p, version, count, t, np).0 matches Ok(items) ==> items.len() <= count,
    decreases count,
{
    if count > 0 {
        match crate::codec::archive::sp_entity(d, p, version, t, np) {
            (Err(_), _) => {},
            (Ok((entity, t2, np2)), q) => {
                lemma_entities_len(d, q, version, (count - 1) as nat, t2, np2);
            },
        }
    }
}

/// An entity list holds at most 65 535 entities.
pub proof fn lemma_entity_list_len(d: Seq<u8>, p: int, version: u32)
    ensures
        sp_entity_list(d, p, version).0 matches Ok(items) ==> items.len() <= 0xffff,
{
    match crate::codec::reader::sp_u16(d, p) {
        (Err(_), _) => {},
        (Ok(count), q) => {
            lemma_entities_len(d, q, version, count as nat, Seq::empty(), 1);
        },
    }
}

spec fn list_within_bound(r: Result<Seq<DecodedEntityV>, CodecErrorV>) -> bool {
    r matches Ok(items) ==> items.len() <= 0xffff
}

proof fn lemma_block_def_len(
    d: Seq<u8>,
    p: int,
    version: u32,
    t: ClassTableV,
    np: u32,
    numbers: Seq<u32>,
)
    ensures
        sp_block_def(d, p, version, t, np, numbers).0 matches Ok((Some(b), _, _, _))
            ==> b.entities.len() <= 0xffff,
{
    reveal(sp_block_def);
    reveal(sp_block_def_body);
    assert forall|q: int| #![trigger sp_entity_list(d, q, version)]
        list_within_bound(sp_entity_list(d, q, version).0) by {
        lemma_entity_list_len(d, q, version);
    }
}

proof fn lemma_block_defs_len(
    d: Seq<u8>,
    p: int,
    version: u32,
    count: nat,
    t: ClassTableV,
    np: u32,
    numbers: Seq<u32>,
)
    ensures
        sp_block_defs(d, p, version, count, t, np, numbers).0 matches Ok(items) ==> items.len()
            <= count && forall|i: int|
            0 <= i < items.len() ==> #[trigger] items[i].entities.len() <= 0xffff,
    decreases count,
{
    if count > 0 {
        lemma_block_def_len(d, p, version, t, np, numbers);
        match sp_block_def(d, p, version, t, np, numbers) {
            (Err(_), _) => {},
            (Ok((def, t2, np2, n2)), q) => {
                lemma_block_defs_len(d, q, version, (count - 1) as nat, t2, np2, n2);
                match sp_block_defs(d, q, version, (count - 1) as nat, t2, np2, n2) {
                    (Ok(rest), _) => {
                        let all = opt_seq(def) + rest;
                        assert forall|i: int| 0 <= i < all.len() implies #[trigger]
                            all[i].entities.len() <= 0xffff by {
                            if i >= opt_seq(def).len() {
                                assert(all[i] == rest[i - opt_seq(def).len()]);
                            }
                        }
                    },
                    _ => {},
                }
            },
        }
    }
}

/// A decoded document holds at most 65 535 top-level entities and at most
/// 10 000 block definitions of at most 65 535 entities each.
pub proof fn lemma_document_bounds(d: Seq<u8>)
    ensures
        sp_document(d) matches Ok(doc) ==> {
            &&& doc.entities.len() <= 0xffff
            &&& doc.block_defs.len() <= 10_000
            &&& forall|i: int|
                0 <= i < doc.block_defs.len() ==> #[trigger] doc.block_defs[i].entities.len()
                    <= 0xffff
        },
{
    match sp_header(d) {
        Err(_) => {},
        Ok(header) => match entity_list_offset(d, header.version) {
            None => {},
            Some(offset) => {
                let rest = d.subrange(offset, d.len() as int);
                lemma_entity_list_len(rest, 0, header.version);
                match sp_entity_list(rest, 0, header.version) {
                    (Err(_), _) => {},
                    (Ok(_), q) => {
                        let b = rest.subrange(q, rest.len() as int);
                        if !(b.len() == 0 || b == seq![0u8, 0u8]) {
                            match crate::codec::reader::sp_u32(b, 0) {
                                (Err(_), _) => {},
                                (Ok(count), q2) => {
                                    lemma_block_defs_len(
                                        b,
                                        q2,
                                        header.version,
                                        count as nat,
                                        Seq::empty(),
                                        1,
                                        Seq::empty(),
                                    );
                                },
                            }
                        }
                    },
                }
            },
        },
    }
}

} // verus!
