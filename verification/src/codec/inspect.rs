//! The compatibility inspection of a JWW file, and the writer that keeps every
//! header byte of an editable source.
use vstd::prelude::*;
use vstd::bytes::*;
use crate::codec::error::{CodecError, CodecErrorV, error_message};
use crate::codec::header::signature_bytes;
use crate::codec::header_read::has_signature;
use crate::codec::locate::{
    sp_document, read_document, entity_list_offset, find_entity_list_offset, lemma_document_bounds,
    lemma_entity_list_offset_range,
};
use crate::codec::types::{
    header_shape,
    DecodedEntity, DecodedEntityV, DecodedDocument, DecodedDocumentV, DecodedBlockDefinitionV,
    Document, DocumentV, entities_view,
};
use crate::codec::document::{enc_document, write_document};
use crate::codec::writer::Writer;
use crate::codec::encode::EXPORT_VERSION;
use crate::text::{decimal, str_eq, text_with_number, concat_str};

verus! {

#[derive(Debug, Clone, Copy, PartialEq, Eq)]
pub enum JwwCompatibilityState {
    EditableLossless,
    PreservedReadOnly,
    UnsupportedVersion,
    Malformed,
}

/// What an inspection found. `record_classes` lists each decoded entity class
/// with its number of records, top level and inside block definitions
/// together, in ascending order of class name; classes without records are
/// left out.
#[derive(Debug, Clone)]
pub struct JwwCompatibilityInspection {
    pub version: Option<u32>,
    pub state: JwwCompatibilityState,
    pub reason: Option<String>,
    pub record_classes: Vec<(String, usize)>,
    pub block_definition_count: Option<usize>,
}

pub struct JwwCompatibilityInspectionV {
    pub version: Option<u32>,
    pub state: JwwCompatibilityState,
    pub reason: Option<Seq<char>>,
    pub record_classes: Seq<(Seq<char>, usize)>,
    pub block_definition_count: Option<usize>,
}

impl View for JwwCompatibilityInspection {
    type V = JwwCompatibilityInspectionV;

    open spec fn view(&self) -> JwwCompatibilityInspectionV {
        JwwCompatibilityInspectionV {
            version: self.version,
            state: self.state,
            reason: match self.reason {
                Some(r) => Some(r@),
                None => None,
            },
            record_classes: self.record_classes@.map_values(|x: (String, usize)| (x.0@, x.1)),
            block_definition_count: self.block_definition_count,
        }
    }
}

/// The archive class name of a decoded entity; both solid shapes are
/// `CDataSolid`.
pub open spec fn decoded_class_name(e: DecodedEntityV) -> Seq<char> {
    match e {
        DecodedEntityV::Line(_) => "CDataSen"@,
        DecodedEntityV::Arc(_) => "CDataEnko"@,
        DecodedEntityV::Point(_) => "CDataTen"@,
        DecodedEntityV::Text(_) => "CDataMoji"@,
        DecodedEntityV::Solid(_) => "CDataSolid"@,
        DecodedEntityV::CircleSolid(_) => "CDataSolid"@,
        DecodedEntityV::Block(_) => "CDataBlock"@,
        DecodedEntityV::Dimension(_) => "CDataSunpou"@,
    }
}

/// The class name counted for an entity is the archive class name the reader
/// dispatched it from.
pub proof fn lemma_class_name_is_dispatched_name(d: Seq<u8>, p: int, version: u32, name: Seq<char>)
    ensures
        crate::codec::archive::sp_entity_body(d, p, version, name).0 matches Ok(e) ==> decoded_class_name(e)
            == name,
{
    reveal(crate::codec::archive::sp_entity_body);
}

/// The class name counted for an entity is the class name the writer gives
/// the record it converts to.
pub proof fn lemma_class_name_is_record_class(e: DecodedEntityV)
    ensures
        decoded_class_name(e) == crate::codec::types::Record::spec_class_name(
            crate::codec::preserve::entity_record(e),
        ),
{
}

pub fn decoded_entity_class(entity: &DecodedEntity) -> (name: &'static str)
    ensures
        name@ == decoded_class_name(entity@),
{
    match entity {
        DecodedEntity::Line(_) => "CDataSen",
        DecodedEntity::Arc(_) => "CDataEnko",
        DecodedEntity::Point(_) => "CDataTen",
        DecodedEntity::Text(_) => "CDataMoji",
        DecodedEntity::Solid(_) => "CDataSolid",
        DecodedEntity::CircleSolid(_) => "CDataSolid",
        DecodedEntity::Block(_) => "CDataBlock",
        DecodedEntity::Dimension(_) => "CDataSunpou",
    }
}

/// The decoded class names in ascending order.
pub open spec fn known_classes() -> Seq<Seq<char>> {
    seq![
        "CDataBlock"@,
        "CDataEnko"@,
        "CDataMoji"@,
        "CDataSen"@,
        "CDataSolid"@,
        "CDataSunpou"@,
        "CDataTen"@,
    ]
}

/// How many of the entities have the given class name.
pub open spec fn count_class(s: Seq<DecodedEntityV>, name: Seq<char>) -> nat
    decreases s.len(),
{
    if s.len() == 0 {
        0
    } else {
        count_class(s.drop_last(), name) + if decoded_class_name(s.last()) == name {
            1nat
        } else {
            0nat
        }
    }
}

/// The entities of the block definitions, in order.
pub open spec fn block_entities(bs: Seq<DecodedBlockDefinitionV>) -> Seq<DecodedEntityV>
    decreases bs.len(),
{
    if bs.len() == 0 {
        Seq::empty()
    } else {
        block_entities(bs.drop_last()) + bs.last().entities
    }
}

/// Every entity of a document: the top level, then each block definition's.
pub open spec fn all_entities(doc: DecodedDocumentV) -> Seq<DecodedEntityV> {
    doc.entities + block_entities(doc.block_defs)
}

/// The entries for the first `k` known classes that occur.
pub open spec fn class_entries(s: Seq<DecodedEntityV>, k: nat) -> Seq<(Seq<char>, usize)>
    decreases k,
{
    if k == 0 {
        Seq::empty()
    } else {
        let name = known_classes()[k - 1];
        let c = count_class(s, name);
        class_entries(s, (k - 1) as nat) + if c > 0 {
            seq![(name, c as usize)]
        } else {
            Seq::empty()
        }
    }
}

pub open spec fn inspection_v(
    version: Option<u32>,
    state: JwwCompatibilityState,
    reason: Option<Seq<char>>,
) -> JwwCompatibilityInspectionV {
    JwwCompatibilityInspectionV {
        version,
        state,
        reason,
        record_classes: Seq::empty(),
        block_definition_count: None,
    }
}

/// The inspection of a file: no signature or version is malformed; a version
/// other than 6.00 is preserved but not editable; a file that decodes in full
/// is editable without loss; an unknown class name or class reference makes it
/// read-only; any other decoding error makes it malformed.
pub open spec fn spec_inspection(d: Seq<u8>) -> JwwCompatibilityInspectionV {
    if d.len() < 12 || d.subrange(0, 8) != signature_bytes() {
        inspection_v(
            None,
            JwwCompatibilityState::Malformed,
            Some("invalid JWW signature or truncated version field"@),
        )
    } else {
        let version = spec_u32_from_le_bytes(d.subrange(8, 12));
        if version != 600 {
            inspection_v(
                Some(version),
                JwwCompatibilityState::UnsupportedVersion,
                Some(
                    "JWW version "@ + decimal(version as nat)
                        + " is preserved but only version 600 is editable"@,
                ),
            )
        } else {
            match sp_document(d) {
                Ok(doc) => JwwCompatibilityInspectionV {
                    version: Some(version),
                    state: JwwCompatibilityState::EditableLossless,
                    reason: None,
                    record_classes: class_entries(all_entities(doc), 7),
                    block_definition_count: Some(doc.block_defs.len() as usize),
                },
                Err(CodecErrorV::UnknownEntityClass(name)) => inspection_v(
                    Some(version),
                    JwwCompatibilityState::PreservedReadOnly,
                    Some("unknown JWW entity class "@ + name),
                ),
                Err(CodecErrorV::UnknownClassPid(pid)) => inspection_v(
                    Some(version),
                    JwwCompatibilityState::PreservedReadOnly,
                    Some("unknown JWW class pid "@ + decimal(pid as nat)),
                ),
                Err(e) => inspection_v(
                    Some(version),
                    JwwCompatibilityState::Malformed,
                    Some(error_message(e)),
                ),
            }
        }
    }
}

proof fn lemma_known_classes_distinct()
    ensures
        forall|j: int, k: int|
            0 <= j < 7 && 0 <= k < 7 && j != k ==> known_classes()[j] != known_classes()[k],
{
    reveal_strlit("CDataBlock");
    reveal_strlit("CDataEnko");
    reveal_strlit("CDataMoji");
    reveal_strlit("CDataSen");
    reveal_strlit("CDataSolid");
    reveal_strlit("CDataSunpou");
    reveal_strlit("CDataTen");
    let c = known_classes();
    assert(c[0].len() == 10 && c[1].len() == 9 && c[2].len() == 9 && c[3].len() == 8);
    assert(c[4].len() == 10 && c[5].len() == 11 && c[6].len() == 8);
    assert(c[0][5] != c[4][5]);
    assert(c[1][5] != c[2][5]);
    assert(c[3][5] != c[6][5]);
    assert forall|j: int, k: int| 0 <= j < 7 && 0 <= k < 7 && j != k implies c[j] != c[k] by {
        if j == 0 && k == 4 || j == 4 && k == 0 {
            assert(c[j][5] != c[k][5]);
        } else if j == 1 && k == 2 || j == 2 && k == 1 {
            assert(c[j][5] != c[k][5]);
        } else if j == 3 && k == 6 || j == 6 && k == 3 {
            assert(c[j][5] != c[k][5]);
        } else {
            assert(c[j].len() != c[k].len());
        }
    }
}

/// The position of the entity's class among the known classes.
fn class_slot(entity: &DecodedEntity) -> (k: usize)
    ensures
        k < 7,
        known_classes()[k as int] == decoded_class_name(entity@),
{
    let name = decoded_entity_class(entity);
    if str_eq(name, "CDataBlock") {
        0
    } else if str_eq(name, "CDataEnko") {
        1
    } else if str_eq(name, "CDataMoji") {
        2
    } else if str_eq(name, "CDataSen") {
        3
    } else if str_eq(name, "CDataSolid") {
        4
    } else if str_eq(name, "CDataSunpou") {
        5
    } else {
        6
    }
}

proof fn lemma_count_push(s: Seq<DecodedEntityV>, e: DecodedEntityV, name: Seq<char>)
    ensures
        count_class(s.push(e), name) == count_class(s, name) + if decoded_class_name(e) == name {
            1nat
        } else {
            0nat
        },
{
    assert(s.push(e).drop_last() =~= s);
}

proof fn lemma_count_le(s: Seq<DecodedEntityV>, name: Seq<char>)
    ensures
        count_class(s, name) <= s.len(),
    decreases s.len(),
{
    if s.len() > 0 {
        lemma_count_le(s.drop_last(), name);
    }
}

spec fn counts_match(counts: Seq<usize>, s: Seq<DecodedEntityV>) -> bool {
    &&& counts.len() == 7
    &&& forall|k: int| 0 <= k < 7 ==> #[trigger] counts[k] == count_class(s, known_classes()[k])
}

/// Adds one entity to the per-class counts.
fn count_entity(counts: &mut Vec<usize>, entity: &DecodedEntity, Ghost(s): Ghost<Seq<DecodedEntityV>>)
    requires
        counts_match(old(counts)@, s),
        s.len() < usize::MAX,
    ensures
        counts_match(final(counts)@, s.push(entity@)),
{
    let k = class_slot(entity);
    proof {
        lemma_count_le(s, known_classes()[k as int]);
        lemma_known_classes_distinct();
    }
    let c = counts[k] + 1;
    counts.set(k, c);
    assert forall|j: int| 0 <= j < 7 implies #[trigger] counts@[j] == count_class(
        s.push(entity@),
        known_classes()[j],
    ) by {
        lemma_count_push(s, entity@, known_classes()[j]);
    }
}

proof fn lemma_block_entities_push(bs: Seq<DecodedBlockDefinitionV>, j: int)
    requires
        0 <= j < bs.len(),
    ensures
        block_entities(bs.take(j + 1)) == block_entities(bs.take(j)) + bs[j].entities,
{
    assert(bs.take(j + 1).drop_last() =~= bs.take(j));
}

proof fn lemma_block_entities_len(bs: Seq<DecodedBlockDefinitionV>)
    requires
        forall|i: int| 0 <= i < bs.len() ==> #[trigger] bs[i].entities.len() <= 0xffff,
    ensures
        block_entities(bs).len() <= 0xffff * bs.len(),
    decreases bs.len(),
{
    if bs.len() > 0 {
        lemma_block_entities_len(bs.drop_last());
        assert(bs.last() == bs[bs.len() - 1]);
    }
}

/// The per-class record counts of a decoded document, as the inspection
/// reports them.
fn count_record_classes(document: &DecodedDocument) -> (out: Vec<(String, usize)>)
    requires
        document@.entities.len() <= 0xffff,
        document@.block_defs.len() <= 10_000,
        forall|i: int|
            0 <= i < document@.block_defs.len() ==> #[trigger] document@.block_defs[i].entities.len()
                <= 0xffff,
    ensures
        out@.map_values(|x: (String, usize)| (x.0@, x.1)) == class_entries(
            all_entities(document@),
            7,
        ),
{
    let ghost top = document@.entities;
    let ghost bs = document@.block_defs;
    let mut counts: Vec<usize> = vec![0, 0, 0, 0, 0, 0, 0];
    assert(counts_match(counts@, top.take(0)));
    let mut i: usize = 0;
    while i < document.entities.len()
        invariant
            top == entities_view(document.entities@),
            top.len() <= 0xffff,
            i <= document.entities.len(),
            counts_match(counts@, top.take(i as int)),
        decreases document.entities.len() - i,
    {
        count_entity(&mut counts, &document.entities[i], Ghost(top.take(i as int)));
        assert(top.take(i as int).push(document.entities@[i as int]@) =~= top.take(i + 1));
        i = i + 1;
    }
    assert(top.take(i as int) =~= top);
    assert(top + block_entities(bs.take(0)) =~= top);
    let mut j: usize = 0;
    while j < document.block_defs.len()
        invariant
            top == entities_view(document.entities@),
            bs == document@.block_defs,
            bs.len() <= 10_000,
            top.len() <= 0xffff,
            forall|i: int| 0 <= i < bs.len() ==> #[trigger] bs[i].entities.len() <= 0xffff,
            j <= document.block_defs.len(),
            counts_match(counts@, top + block_entities(bs.take(j as int))),
        decreases document.block_defs.len() - j,
    {
        let definition = &document.block_defs[j];
        let ghost prefix = top + block_entities(bs.take(j as int));
        proof {
            assert forall|i: int| 0 <= i < bs.take(j as int).len() implies #[trigger] bs.take(
                j as int,
            )[i].entities.len() <= 0xffff by {
                assert(bs.take(j as int)[i] == bs[i]);
            }
            lemma_block_entities_len(bs.take(j as int));
        }
        assert(definition@.entities == bs[j as int].entities);
        assert(prefix + bs[j as int].entities.take(0) =~= prefix);
        let mut i: usize = 0;
        while i < definition.entities.len()
            invariant
                definition@.entities == entities_view(definition.entities@),
                prefix.len() <= 0xffff + 0xffff * 10_000,
                definition.entities.len() <= 0xffff,
                i <= definition.entities.len(),
                counts_match(counts@, prefix + definition@.entities.take(i as int)),
            decreases definition.entities.len() - i,
        {
            let ghost s = prefix + definition@.entities.take(i as int);
            count_entity(&mut counts, &definition.entities[i], Ghost(s));
            assert(s.push(definition.entities@[i as int]@) =~= prefix
                + definition@.entities.take(i + 1));
            i = i + 1;
        }
        proof {
            lemma_block_entities_push(bs, j as int);
            assert(definition@.entities.take(i as int) =~= bs[j as int].entities);
            assert(prefix + bs[j as int].entities =~= top + block_entities(bs.take(j + 1)));
        }
        j = j + 1;
    }
    assert(bs.take(j as int) =~= bs);
    let ghost all = all_entities(document@);
    assert(counts_match(counts@, all));
    let mut out: Vec<(String, usize)> = Vec::new();
    let mut k: usize = 0;
    while k < 7
        invariant
            k <= 7,
            counts_match(counts@, all),
            out@.map_values(|x: (String, usize)| (x.0@, x.1)) == class_entries(all, k as nat),
        decreases 7 - k,
    {
        let ghost before = out@;
        if counts[k] > 0 {
            let name = if k == 0 {
                "CDataBlock"
            } else if k == 1 {
                "CDataEnko"
            } else if k == 2 {
                "CDataMoji"
            } else if k == 3 {
                "CDataSen"
            } else if k == 4 {
                "CDataSolid"
            } else if k == 5 {
                "CDataSunpou"
            } else {
                "CDataTen"
            };
            assert(name@ == known_classes()[k as int]);
            out.push((name.to_owned(), counts[k]));
            assert(out@.map_values(|x: (String, usize)| (x.0@, x.1)) =~= before.map_values(
                |x: (String, usize)| (x.0@, x.1),
            ).push((known_classes()[k as int], counts@[k as int])));
        } else {
            assert(class_entries(all, (k + 1) as nat) =~= class_entries(all, k as nat));
        }
        k = k + 1;
    }
    out
}

/// Inspects a file and reports whether it can be edited without loss.
pub fn inspect_document(data: &[u8]) -> (out: JwwCompatibilityInspection)
    ensures
        out@ == spec_inspection(data@),
{
    if data.len() < 12 || !has_signature(data) {
        let out = JwwCompatibilityInspection {
            version: None,
            state: JwwCompatibilityState::Malformed,
            reason: Some("invalid JWW signature or truncated version field".to_owned()),
            record_classes: Vec::new(),
            block_definition_count: None,
        };
        assert(out@.record_classes =~= Seq::empty());
        return out;
    }
    let version = u32_from_le_bytes(&data[8..12]);
    if version != EXPORT_VERSION {
        let head = text_with_number("JWW version ", version as u64);
        let reason = concat_str(head.as_str(), " is preserved but only version 600 is editable");
        let out = JwwCompatibilityInspection {
            version: Some(version),
            state: JwwCompatibilityState::UnsupportedVersion,
            reason: Some(reason),
            record_classes: Vec::new(),
            block_definition_count: None,
        };
        assert(out@.record_classes =~= Seq::empty());
        return out;
    }
    let result = read_document(data);
    proof { lemma_document_bounds(data@); }
    match result {
        Ok(document) => {
            let record_classes = count_record_classes(&document);
            JwwCompatibilityInspection {
                version: Some(version),
                state: JwwCompatibilityState::EditableLossless,
                reason: None,
                record_classes,
                block_definition_count: Some(document.block_defs.len()),
            }
        },
        Err(CodecError::UnknownEntityClass(class_name)) => {
            let out = JwwCompatibilityInspection {
                version: Some(version),
                state: JwwCompatibilityState::PreservedReadOnly,
                reason: Some(concat_str("unknown JWW entity class ", class_name.as_str())),
                record_classes: Vec::new(),
                block_definition_count: None,
            };
            assert(out@.record_classes =~= Seq::empty());
            out
        },
        Err(CodecError::UnknownClassPid(pid)) => {
            let out = JwwCompatibilityInspection {
                version: Some(version),
                state: JwwCompatibilityState::PreservedReadOnly,
                reason: Some(text_with_number("unknown JWW class pid ", pid as u64)),
                record_classes: Vec::new(),
                block_definition_count: None,
            };
            assert(out@.record_classes =~= Seq::empty());
            out
        },
        Err(error) => {
            let out = JwwCompatibilityInspection {
                version: Some(version),
                state: JwwCompatibilityState::Malformed,
                reason: Some(error.message()),
                record_classes: Vec::new(),
                block_definition_count: None,
            };
            assert(out@.record_classes =~= Seq::empty());
            out
        },
    }
}

/// The bytes of a document written over an editable version 6.00 source: the
/// source's bytes up to its entity list, then the generated file from its
/// entity list on.
pub open spec fn enc_preserving_header(original: Seq<u8>, doc: DocumentV) -> Result<
    Seq<u8>,
    CodecErrorV,
> {
    if spec_inspection(original).state != JwwCompatibilityState::EditableLossless {
        Err(CodecErrorV::UnexpectedEof("editable v600 preservation source"@))
    } else {
        match entity_list_offset(original, 600) {
            None => Err(CodecErrorV::EntityListNotFound),
            Some(o) => match enc_document(doc) {
                Err(e) => Err(e),
                Ok(g) => match entity_list_offset(g, 600) {
                    None => Err(CodecErrorV::EntityListNotFound),
                    Some(go) => Ok(original.subrange(0, o) + g.subrange(go, g.len() as int)),
                },
            },
        }
    }
}

/// Reuses every byte of a version 6.00 source header and replaces only the
/// entity and block archives. Sources of other versions are refused.
pub fn write_document_preserving_header(original: &[u8], document: &Document) -> (res: Result<
    Vec<u8>,
    CodecError,
>)
    requires
        header_shape(document.header@),
    ensures
        match enc_preserving_header(original@, document@) {
            Ok(b) => res matches Ok(v) && v@ == b,
            Err(e) => res matches Err(x) && x@ == e,
        },
{
    let inspection = inspect_document(original);
    match inspection.state {
        JwwCompatibilityState::EditableLossless => {},
        _ => {
            return Err(CodecError::UnexpectedEof("editable v600 preservation source"));
        },
    }
    let original_offset = match find_entity_list_offset(original, EXPORT_VERSION) {
        Some(o) => o,
        None => return Err(CodecError::EntityListNotFound),
    };
    let generated = write_document(document)?;
    let generated_offset = match find_entity_list_offset(generated.as_slice(), EXPORT_VERSION) {
        Some(o) => o,
        None => return Err(CodecError::EntityListNotFound),
    };
    proof {
        lemma_entity_list_offset_range(original@, 600);
        lemma_entity_list_offset_range(generated@, 600);
    }
    let mut output = Writer::new();
    output.raw(&original[0..original_offset]);
    output.raw(&generated.as_slice()[generated_offset..generated.len()]);
    Ok(output.into_bytes())
}

} // verus!
