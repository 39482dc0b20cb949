//! Decoding of MFC-style object archives: entity lists with their class
//! tables, and the block definition list.
use vstd::prelude::*;
use crate::codec::error::{CodecError, CodecErrorV, Parsed, res_view};
use crate::codec::reader::{Reader, sp_take, sp_u16, sp_u32, sp_cstring};
use crate::codec::decode::{
    sp_line, sp_arc, sp_point, sp_text, sp_solid, sp_block, sp_dimension, sp_base, read_line,
    read_arc, read_point, read_text, read_solid, read_block, read_dimension, read_base,
};
use crate::codec::types::{
    DecodedEntity, DecodedEntityV, DecodedBlockDefinition, DecodedBlockDefinitionV,
    entities_view,
};
use crate::text::{utf8_lossy, lossy_utf8, str_eq};

verus! {

/// The entity kinds this codec can decode.
#[derive(Debug, Clone, Copy, PartialEq, Eq)]
pub enum SupportedEntityClass {
    Line,
    Arc,
    Point,
    Text,
    Solid,
    Block,
    Dimension,
}

pub open spec fn spec_entity_class(name: Seq<char>) -> Option<SupportedEntityClass> {
    if name == "CDataSen"@ {
        Some(SupportedEntityClass::Line)
    } else if name == "CDataEnko"@ {
        Some(SupportedEntityClass::Arc)
    } else if name == "CDataTen"@ {
        Some(SupportedEntityClass::Point)
    } else if name == "CDataMoji"@ {
        Some(SupportedEntityClass::Text)
    } else if name == "CDataSolid"@ {
        Some(SupportedEntityClass::Solid)
    } else if name == "CDataBlock"@ {
        Some(SupportedEntityClass::Block)
    } else if name == "CDataSunpou"@ {
        Some(SupportedEntityClass::Dimension)
    } else {
        None
    }
}

pub fn supported_entity_class(class_name: &str) -> (kind: Option<SupportedEntityClass>)
    ensures
        kind == spec_entity_class(class_name@),
{
    if str_eq(class_name, "CDataSen") {
        Some(SupportedEntityClass::Line)
    } else if str_eq(class_name, "CDataEnko") {
        Some(SupportedEntityClass::Arc)
    } else if str_eq(class_name, "CDataTen") {
        Some(SupportedEntityClass::Point)
    } else if str_eq(class_name, "CDataMoji") {
        Some(SupportedEntityClass::Text)
    } else if str_eq(class_name, "CDataSolid") {
        Some(SupportedEntityClass::Solid)
    } else if str_eq(class_name, "CDataBlock") {
        Some(SupportedEntityClass::Block)
    } else if str_eq(class_name, "CDataSunpou") {
        Some(SupportedEntityClass::Dimension)
    } else {
        None
    }
}

/// A class table: archive ids and the class names they were given, in the
/// order they were declared.
pub type ClassTableV = Seq<(u32, Seq<char>)>;

pub open spec fn class_table_view(t: Seq<(u32, String)>) -> ClassTableV {
    t.map_values(|x: (u32, String)| (x.0, x.1@))
}

/// The class name most recently declared under `pid`.
pub open spec fn class_lookup(t: ClassTableV, pid: u32) -> Option<Seq<char>>
    decreases t.len(),
{
    if t.len() == 0 {
        None
    } else if t.last().0 == pid {
        Some(t.last().1)
    } else {
        class_lookup(t.drop_last(), pid)
    }
}

pub(crate) fn lookup_class(table: &Vec<(u32, String)>, pid: u32) -> (name: Option<String>)
    ensures
        match (name, class_lookup(class_table_view(table@), pid)) {
            (Some(n), Some(m)) => n@ == m,
            (None, None) => true,
            _ => false,
        },
{
    let ghost tv = class_table_view(table@);
    let mut i = table.len();
    assert(tv.subrange(0, i as int) =~= tv);
    while i > 0
        invariant
            i <= table.len(),
            tv == class_table_view(table@),
            class_lookup(tv, pid) == class_lookup(tv.subrange(0, i as int), pid),
        decreases i,
    {
        let entry = &table[i - 1];
        if entry.0 == pid {
            return Some(entry.1.clone());
        }
        assert(tv.subrange(0, i as int).drop_last() =~= tv.subrange(0, i - 1));
        i = i - 1;
    }
    None
}

/// The body of an entity record whose class has been resolved.
#[verifier::opaque]
pub open spec fn sp_entity_body(d: Seq<u8>, p: int, version: u32, name: Seq<char>) -> Parsed<
    DecodedEntityV,
> {
    match spec_entity_class(name) {
        Some(SupportedEntityClass::Line) => match sp_line(d, p, version) {
            (Ok(v), q) => (Ok(DecodedEntityV::Line(v)), q),
            (Err(e), q) => (Err(e), q),
        },
        Some(SupportedEntityClass::Arc) => match sp_arc(d, p, version) {
            (Ok(v), q) => (Ok(DecodedEntityV::Arc(v)), q),
            (Err(e), q) => (Err(e), q),
        },
        Some(SupportedEntityClass::Point) => match sp_point(d, p, version) {
            (Ok(v), q) => (Ok(DecodedEntityV::Point(v)), q),
            (Err(e), q) => (Err(e), q),
        },
        Some(SupportedEntityClass::Text) => match sp_text(d, p, version) {
            (Ok(v), q) => (Ok(DecodedEntityV::Text(v)), q),
            (Err(e), q) => (Err(e), q),
        },
        Some(SupportedEntityClass::Solid) => sp_solid(d, p, version),
        Some(SupportedEntityClass::Block) => match sp_block(d, p, version) {
            (Ok(v), q) => (Ok(DecodedEntityV::Block(v)), q),
            (Err(e), q) => (Err(e), q),
        },
        Some(SupportedEntityClass::Dimension) => match sp_dimension(d, p, version) {
            (Ok(v), q) => (Ok(DecodedEntityV::Dimension(v)), q),
            (Err(e), q) => (Err(e), q),
        },
        None => (Err(CodecErrorV::UnknownEntityClass(name)), p),
    }
}

/// The outcome of one archive slot: the entity (none for a null reference),
/// the class table and the next archive id afterwards.
pub type EntityStep = (Option<DecodedEntityV>, ClassTableV, u32);

/// One entity slot: a new class declaration (0xffff, schema, name), a null
/// reference (0x8000), or a reference to a declared class (id | 0x8000).
/// Declaring a class and reading an object each take one archive id.
#[verifier::opaque]
pub open spec fn sp_entity(
    d: Seq<u8>,
    p: int,
    version: u32,
    t: ClassTableV,
    next_pid: u32,
) -> Parsed<EntityStep> {
    match sp_u16(d, p) {
        (Err(e), q) => (Err(e), q),
        (Ok(class_id), p1) => if class_id == 0xffff {
            match sp_u16(d, p1) {
                (Err(e), q) => (Err(e), q),
                (Ok(_schema), p2) => match sp_u16(d, p2) {
                    (Err(e), q) => (Err(e), q),
                    (Ok(name_len), p3) => match sp_take(d, p3, name_len as int) {
                        (Err(e), q) => (Err(e), q),
                        (Ok(bytes), p4) => {
                            let name = utf8_lossy(bytes);
                            match sp_entity_body(d, p4, version, name) {
                                (Err(e), q) => (Err(e), q),
                                (Ok(entity), q) => (
                                    Ok((Some(entity), t.push((next_pid, name)), (next_pid + 2) as u32)),
                                    q,
                                ),
                            }
                        },
                    },
                },
            }
        } else if class_id == 0x8000 {
            (Ok((None, t, next_pid)), p1)
        } else {
            let pid = (class_id & 0x7fff) as u32;
            match class_lookup(t, pid) {
                None => (Err(CodecErrorV::UnknownClassPid(pid)), p1),
                Some(name) => match sp_entity_body(d, p1, version, name) {
                    (Err(e), q) => (Err(e), q),
                    (Ok(entity), q) => (Ok((Some(entity), t, (next_pid + 1) as u32)), q),
                },
            }
        },
    }
}

pub open spec fn opt_seq<A>(o: Option<A>) -> Seq<A> {
    match o {
        Some(a) => seq![a],
        None => Seq::empty(),
    }
}

/// Prefixes the items of a successful outcome.
pub open spec fn glue<A>(acc: Seq<A>, r: Parsed<Seq<A>>) -> Parsed<Seq<A>> {
    match r {
        (Ok(items), q) => (Ok(acc + items), q),
        (Err(e), q) => (Err(e), q),
    }
}

pub proof fn lemma_glue_glue<A>(a: Seq<A>, b: Seq<A>, r: Parsed<Seq<A>>)
    ensures
        glue(a, glue(b, r)) == glue(a + b, r),
{
    match r {
        (Ok(items), q) => {
            assert(a + (b + items) =~= (a + b) + items);
        },
        (Err(e), q) => {},
    }
}

/// `count` consecutive entity slots.
pub open spec fn sp_entities(
    d: Seq<u8>,
    p: int,
    version: u32,
    count: nat,
    t: ClassTableV,
    next_pid: u32,
) -> Parsed<Seq<DecodedEntityV>>
    decreases count,
{
    if count == 0 {
        (Ok(Seq::empty()), p)
    } else {
        match sp_entity(d, p, version, t, next_pid) {
            (Err(e), q) => (Err(e), q),
            (Ok((entity, t2, np2)), q) => glue(
                opt_seq(entity),
                sp_entities(d, q, version, (count - 1) as nat, t2, np2),
            ),
        }
    }
}

/// An entity list: a 16-bit count, then that many slots with a fresh class
/// table whose first archive id is 1.
pub open spec fn sp_entity_list(d: Seq<u8>, p: int, version: u32) -> Parsed<Seq<DecodedEntityV>> {
    match sp_u16(d, p) {
        (Err(e), q) => (Err(e), q),
        (Ok(count), q) => sp_entities(d, q, version, count as nat, Seq::empty(), 1),
    }
}

fn read_entity_body(reader: &mut Reader<'_>, version: u32, class_name: &String) -> (res: Result<
    DecodedEntity,
    CodecError,
>)
    requires
        old(reader).wf(),
    ensures
        final(reader).wf(),
        final(reader).data() == old(reader).data(),
        (res_view(res), final(reader).pos()) == sp_entity_body(
            old(reader).data(),
            old(reader).pos(),
            version,
            class_name@,
        ),
{
    reveal(sp_entity_body);
    match supported_entity_class(class_name.as_str()) {
        Some(SupportedEntityClass::Line) => Ok(DecodedEntity::Line(read_line(reader, version)?)),
        Some(SupportedEntityClass::Arc) => Ok(DecodedEntity::Arc(read_arc(reader, version)?)),
        Some(SupportedEntityClass::Point) => Ok(DecodedEntity::Point(read_point(reader, version)?)),
        Some(SupportedEntityClass::Text) => Ok(DecodedEntity::Text(read_text(reader, version)?)),
        Some(SupportedEntityClass::Solid) => read_solid(reader, version),
        Some(SupportedEntityClass::Block) => Ok(DecodedEntity::Block(read_block(reader, version)?)),
        Some(SupportedEntityClass::Dimension) => Ok(
            DecodedEntity::Dimension(read_dimension(reader, version)?),
        ),
        None => Err(CodecError::UnknownEntityClass(class_name.clone())),
    }
}

pub open spec fn opt_entity_view(o: Option<DecodedEntity>) -> Option<DecodedEntityV> {
    match o {
        Some(e) => Some(e@),
        None => None,
    }
}

/// Reads one archive slot, maintaining the class table and the next id.
pub fn read_entity_with_pid(
    reader: &mut Reader<'_>,
    version: u32,
    class_names: &mut Vec<(u32, String)>,
    next_pid: u32,
) -> (res: Result<(Option<DecodedEntity>, u32), CodecError>)
    requires
        old(reader).wf(),
        next_pid <= u32::MAX - 2,
    ensures
        final(reader).wf(),
        final(reader).data() == old(reader).data(),
        ({
            let (r, q) = sp_entity(
                old(reader).data(),
                old(reader).pos(),
                version,
                class_table_view(old(class_names)@),
                next_pid,
            );
            &&& final(reader).pos() == q
            &&& match (res, r) {
                (Ok((entity, np)), Ok((e, t, np2))) => opt_entity_view(entity) == e
                    && class_table_view(final(class_names)@) == t && np == np2,
                (Err(x), Err(y)) => x@ == y,
                _ => false,
            }
        }),
        res matches Ok((_, np)) ==> np <= next_pid + 2,
{
    reveal(sp_entity);
    let class_id = reader.read_u16()?;
    if class_id == 0xffff {
        let _schema_version = reader.read_u16()?;
        let name_len = reader.read_u16()?;
        let bytes = reader.read_bytes(name_len as usize)?;
        let name = lossy_utf8(bytes.as_slice());
        let entity = read_entity_body(reader, version, &name)?;
        let ghost old_table = class_names@;
        class_names.push((next_pid, name));
        assert(class_table_view(class_names@) =~= class_table_view(old_table).push(
            (next_pid, utf8_lossy(bytes@)),
        ));
        Ok((Some(entity), next_pid + 2))
    } else if class_id == 0x8000 {
        Ok((None, next_pid))
    } else {
        let class_pid = (class_id & 0x7fff) as u32;
        let class_name = match lookup_class(class_names, class_pid) {
            Some(name) => name,
            None => return Err(CodecError::UnknownClassPid(class_pid)),
        };
        let entity = read_entity_body(reader, version, &class_name)?;
        Ok((Some(entity), next_pid + 1))
    }
}

/// Reads a 16-bit entity count and that many archive slots; null references
/// yield no entity.
pub fn read_entity_list(reader: &mut Reader<'_>, version: u32) -> (res: Result<
    Vec<DecodedEntity>,
    CodecError,
>)
    requires
        old(reader).wf(),
    ensures
        final(reader).wf(),
        final(reader).data() == old(reader).data(),
        ({
            let (r, q) = sp_entity_list(old(reader).data(), old(reader).pos(), version);
            &&& match (res, r) {
                (Ok(v), Ok(s)) => entities_view(v@) == s && final(reader).pos() == q,
                (Err(x), Err(y)) => x@ == y,
                _ => false,
            }
        }),
{
    let ghost d = reader.data();
    let count = reader.read_u16()?;
    let ghost p0 = reader.pos();
    let mut entities: Vec<DecodedEntity> = Vec::new();
    let mut class_names: Vec<(u32, String)> = Vec::new();
    let mut next_pid: u32 = 1;
    let mut i: u16 = 0;
    assert(class_table_view(class_names@) =~= Seq::empty());
    assert(entities_view(entities@) =~= Seq::empty());
    assert(glue(Seq::empty(), sp_entities(d, p0, version, count as nat, Seq::empty(), 1)) == sp_entities(d, p0, version, count as nat, Seq::empty(), 1)) by {
        match sp_entities(d, p0, version, count as nat, Seq::<(u32, Seq<char>)>::empty(), 1) {
            (Ok(items), q) => { assert(Seq::<DecodedEntityV>::empty() + items =~= items); },
            _ => {},
        }
    }
    while i < count
        invariant
            reader.wf(),
            reader.data() == d,
            d == old(reader).data(),
            sp_entity_list(d, old(reader).pos(), version) == sp_entities(
                d,
                p0,
                version,
                count as nat,
                Seq::empty(),
                1,
            ),
            i <= count,
            next_pid <= 1 + 2 * (i as int),
            sp_entities(d, p0, version, count as nat, Seq::empty(), 1) == glue(
                entities_view(entities@),
                sp_entities(
                    d,
                    reader.pos(),
                    version,
                    (count - i) as nat,
                    class_table_view(class_names@),
                    next_pid,
                ),
            ),
        decreases count - i,
    {
        let ghost before = entities_view(entities@);
        let ghost t = class_table_view(class_names@);
        let ghost pos = reader.pos();
        let (entity, new_pid) = match read_entity_with_pid(reader, version, &mut class_names, next_pid) {
            Ok(step) => step,
            Err(e) => {
                return Err(e);
            }
        };
        proof {
            let (r, q) = sp_entity(d, pos, version, t, next_pid);
            lemma_glue_glue(
                before,
                opt_seq(opt_entity_view(entity)),
                sp_entities(
                    d,
                    q,
                    version,
                    (count - i - 1) as nat,
                    class_table_view(class_names@),
                    new_pid,
                ),
            );
        }
        next_pid = new_pid;
        match entity {
            Some(e) => {
                entities.push(e);
                assert(entities_view(entities@) =~= before + opt_seq(opt_entity_view(Some(e))));
            },
            None => {
                assert(entities_view(entities@) =~= before + opt_seq(opt_entity_view(None)));
            },
        }
        i = i + 1;
    }
    assert(glue(entities_view(entities@), sp_entities(d, reader.pos(), version, 0, class_table_view(class_names@), next_pid)) == (Ok::<Seq<DecodedEntityV>, CodecErrorV>(entities_view(entities@) + Seq::empty()), reader.pos()));
    assert(entities_view(entities@) + Seq::empty() =~= entities_view(entities@));
    Ok(entities)
}


/// The outcome of one block definition slot: the definition (none for a null
/// reference), the class table, the next archive id and the definition
/// numbers seen so far.
pub type BlockStep = (Option<DecodedBlockDefinitionV>, ClassTableV, u32, Seq<u32>);

/// The fields of a block definition that follow its class reference. A number
/// already used by an earlier definition is an error.
#[verifier::opaque]
pub open spec fn sp_block_def_body(
    d: Seq<u8>,
    p: int,
    version: u32,
    t: ClassTableV,
    next_pid: u32,
    numbers: Seq<u32>,
) -> Parsed<BlockStep> {
    match sp_base(d, p, version) {
        (Err(e), q) => (Err(e), q),
        (Ok(base), p1) => match sp_u32(d, p1) {
            (Err(e), q) => (Err(e), q),
            (Ok(number), p2) => if numbers.contains(number) {
                (Err(CodecErrorV::DuplicateBlockDefinition(number)), p2)
            } else {
                match sp_u32(d, p2) {
                    (Err(e), q) => (Err(e), q),
                    (Ok(is_referenced), p3) => match sp_u32(d, p3) {
                        (Err(e), q) => (Err(e), q),
                        (Ok(reserved), p4) => match sp_cstring(d, p4) {
                            (Err(e), q) => (Err(e), q),
                            (Ok(name), p5) => match sp_entity_list(d, p5, version) {
                                (Err(e), q) => (Err(e), q),
                                (Ok(entities), p6) => (
                                    Ok(
                                        (
                                            Some(
                                                DecodedBlockDefinitionV {
                                                    base,
                                                    number,
                                                    is_referenced,
                                                    reserved,
                                                    name,
                                                    entities,
                                                },
                                            ),
                                            t,
                                            next_pid,
                                            numbers.push(number),
                                        ),
                                    ),
                                    p6,
                                ),
                            },
                        },
                    },
                }
            },
        },
    }
}

/// One block definition slot. Only class declarations take an archive id here.
#[verifier::opaque]
pub open spec fn sp_block_def(
    d: Seq<u8>,
    p: int,
    version: u32,
    t: ClassTableV,
    next_pid: u32,
    numbers: Seq<u32>,
) -> Parsed<BlockStep> {
    match sp_u16(d, p) {
        (Err(e), q) => (Err(e), q),
        (Ok(class_id), p1) => if class_id == 0xffff {
            match sp_u16(d, p1) {
                (Err(e), q) => (Err(e), q),
                (Ok(_schema), p2) => match sp_u16(d, p2) {
                    (Err(e), q) => (Err(e), q),
                    (Ok(name_len), p3) => match sp_take(d, p3, name_len as int) {
                        (Err(e), q) => (Err(e), q),
                        (Ok(bytes), p4) => sp_block_def_body(
                            d,
                            p4,
                            version,
                            t.push((next_pid, utf8_lossy(bytes))),
                            (next_pid + 1) as u32,
                            numbers,
                        ),
                    },
                },
            }
        } else if class_id == 0x8000 {
            (Ok((None, t, next_pid, numbers)), p1)
        } else {
            let pid = (class_id & 0x7fff) as u32;
            match class_lookup(t, pid) {
                None => (Err(CodecErrorV::UnknownClassPid(pid)), p1),
                Some(_) => sp_block_def_body(d, p1, version, t, next_pid, numbers),
            }
        },
    }
}

pub open spec fn sp_block_defs(
    d: Seq<u8>,
    p: int,
    version: u32,
    count: nat,
    t: ClassTableV,
    next_pid: u32,
    numbers: Seq<u32>,
) -> Parsed<Seq<DecodedBlockDefinitionV>>
    decreases count,
{
    if count == 0 {
        (Ok(Seq::empty()), p)
    } else {
        match sp_block_def(d, p, version, t, next_pid, numbers) {
            (Err(e), q) => (Err(e), q),
            (Ok((def, t2, np2, n2)), q) => glue(
                opt_seq(def),
                sp_block_defs(d, q, version, (count - 1) as nat, t2, np2, n2),
            ),
        }
    }
}

/// The block definition list: a 32-bit count of at most 10 000, then that many
/// slots sharing one class table whose first archive id is 1.
pub open spec fn sp_block_definitions(d: Seq<u8>, version: u32) -> Result<
    Seq<DecodedBlockDefinitionV>,
    CodecErrorV,
> {
    match sp_u32(d, 0) {
        (Err(e), _) => Err(e),
        (Ok(count), q) => if count > 10_000 {
            Err(CodecErrorV::InvalidBlockDefinitionCount(count))
        } else {
            sp_block_defs(d, q, version, count as nat, Seq::empty(), 1, Seq::empty()).0
        },
    }
}

pub fn contains_u32(values: &Vec<u32>, value: u32) -> (found: bool)
    ensures
        found == values@.contains(value),
{
    let mut i: usize = 0;
    while i < values.len()
        invariant
            i <= values.len(),
            forall|j: int| 0 <= j < i ==> values@[j] != value,
        decreases values.len() - i,
    {
        if values[i] == value {
            return true;
        }
        i = i + 1;
    }
    false
}

pub open spec fn opt_block_view(o: Option<DecodedBlockDefinition>) -> Option<
    DecodedBlockDefinitionV,
> {
    match o {
        Some(b) => Some(b@),
        None => None,
    }
}

fn read_block_def_body(
    reader: &mut Reader<'_>,
    version: u32,
    numbers: &mut Vec<u32>,
) -> (res: Result<DecodedBlockDefinition, CodecError>)
    requires
        old(reader).wf(),
    ensures
        final(reader).wf(),
        final(reader).data() == old(reader).data(),
        forall|t: ClassTableV, np: u32| {
            let (r, q) = #[trigger] sp_block_def_body(
                old(reader).data(),
                old(reader).pos(),
                version,
                t,
                np,
                old(numbers)@,
            );
            match (res, r) {
                (Ok(def), Ok((Some(dv), t2, np2, n2))) => def@ == dv && t2 == t && np2 == np
                    && final(numbers)@ == n2 && final(reader).pos() == q,
                (Err(x), Err(y)) => x@ == y,
                _ => false,
            }
        },
{
    reveal(sp_block_def_body);
    let base = read_base(reader, version)?;
    let number = reader.read_u32()?;
    if contains_u32(numbers, number) {
        return Err(CodecError::DuplicateBlockDefinition(number));
    }
    numbers.push(number);
    let is_referenced = reader.read_u32()?;
    let reserved = reader.read_u32()?;
    let name = reader.read_cstring()?;
    let entities = read_entity_list(reader, version)?;
    Ok(DecodedBlockDefinition { base, number, is_referenced, reserved, name, entities })
}

fn read_block_def(
    reader: &mut Reader<'_>,
    version: u32,
    class_names: &mut Vec<(u32, String)>,
    next_pid: u32,
    numbers: &mut Vec<u32>,
) -> (res: Result<(Option<DecodedBlockDefinition>, u32), CodecError>)
    requires
        old(reader).wf(),
        next_pid < u32::MAX,
    ensures
        final(reader).wf(),
        final(reader).data() == old(reader).data(),
        ({
            let (r, q) = sp_block_def(
                old(reader).data(),
                old(reader).pos(),
                version,
                class_table_view(old(class_names)@),
                next_pid,
                old(numbers)@,
            );
            match (res, r) {
                (Ok((def, np)), Ok((dv, t2, np2, n2))) => opt_block_view(def) == dv
                    && class_table_view(final(class_names)@) == t2 && np == np2
                    && final(numbers)@ == n2 && final(reader).pos() == q,
                (Err(x), Err(y)) => x@ == y,
                _ => false,
            }
        }),
        res matches Ok((_, np)) ==> np <= next_pid + 1,
{
    reveal(sp_block_def);
    let class_id = reader.read_u16()?;
    if class_id == 0xffff {
        let _schema = reader.read_u16()?;
        let name_len = reader.read_u16()?;
        let bytes = reader.read_bytes(name_len as usize)?;
        let class_name = lossy_utf8(bytes.as_slice());
        let ghost old_table = class_names@;
        class_names.push((next_pid, class_name));
        assert(class_table_view(class_names@) =~= class_table_view(old_table).push(
            (next_pid, utf8_lossy(bytes@)),
        ));
        let def = read_block_def_body(reader, version, numbers)?;
        Ok((Some(def), next_pid + 1))
    } else if class_id == 0x8000 {
        Ok((None, next_pid))
    } else {
        let class_pid = (class_id & 0x7fff) as u32;
        if lookup_class(class_names, class_pid).is_none() {
            return Err(CodecError::UnknownClassPid(class_pid));
        }
        let def = read_block_def_body(reader, version, numbers)?;
        Ok((Some(def), next_pid))
    }
}

/// Reads the block definition list that follows the entity list.
pub fn read_block_definitions(data: &[u8], version: u32) -> (res: Result<
    Vec<DecodedBlockDefinition>,
    CodecError,
>)
    ensures
        match (res, sp_block_definitions(data@, version)) {
            (Ok(v), Ok(s)) => v@.map_values(|b: DecodedBlockDefinition| b@) == s,
            (Err(x), Err(y)) => x@ == y,
            _ => false,
        },
{
    let mut reader = Reader::new(data);
    let count = reader.read_u32()?;
    if count > 10_000 {
        return Err(CodecError::InvalidBlockDefinitionCount(count));
    }
    let ghost d = data@;
    let ghost p0 = reader.pos();
    let mut definitions: Vec<DecodedBlockDefinition> = Vec::new();
    let mut numbers: Vec<u32> = Vec::new();
    let mut class_names: Vec<(u32, String)> = Vec::new();
    let mut next_pid: u32 = 1;
    let mut i: u32 = 0;
    let ghost target = sp_block_defs(d, p0, version, count as nat, Seq::empty(), 1, Seq::empty());
    assert(class_table_view(class_names@) =~= Seq::empty());
    assert(definitions@.map_values(|b: DecodedBlockDefinition| b@) =~= Seq::empty());
    assert(glue(Seq::empty(), target) == target) by {
        match target {
            (Ok(items), q) => {
                assert(Seq::<DecodedBlockDefinitionV>::empty() + items =~= items);
            },
            _ => {},
        }
    }
    while i < count
        invariant
            reader.wf(),
            reader.data() == d,
            d == data@,
            count <= 10_000,
            i <= count,
            next_pid <= 1 + i,
            target == sp_block_defs(d, p0, version, count as nat, Seq::empty(), 1, Seq::empty()),
            sp_block_definitions(d, version) == target.0,
            target == glue(
                definitions@.map_values(|b: DecodedBlockDefinition| b@),
                sp_block_defs(
                    d,
                    reader.pos(),
                    version,
                    (count - i) as nat,
                    class_table_view(class_names@),
                    next_pid,
                    numbers@,
                ),
            ),
        decreases count - i,
    {
        let ghost before = definitions@.map_values(|b: DecodedBlockDefinition| b@);
        let ghost t = class_table_view(class_names@);
        let ghost nums = numbers@;
        let ghost pos = reader.pos();
        let (def, new_pid) = match read_block_def(
            &mut reader,
            version,
            &mut class_names,
            next_pid,
            &mut numbers,
        ) {
            Ok(step) => step,
            Err(e) => {
                return Err(e);
            },
        };
        proof {
            let (r, q) = sp_block_def(d, pos, version, t, next_pid, nums);
            lemma_glue_glue(
                before,
                opt_seq(opt_block_view(def)),
                sp_block_defs(
                    d,
                    q,
                    version,
                    (count - i - 1) as nat,
                    class_table_view(class_names@),
                    new_pid,
                    numbers@,
                ),
            );
        }
        next_pid = new_pid;
        match def {
            Some(b) => {
                definitions.push(b);
                assert(definitions@.map_values(|b: DecodedBlockDefinition| b@) =~= before
                    + opt_seq(opt_block_view(Some(b))));
            },
            None => {
                assert(definitions@.map_values(|b: DecodedBlockDefinition| b@) =~= before
                    + opt_seq(opt_block_view(None)));
            },
        }
        i = i + 1;
    }
    assert(definitions@.map_values(|b: DecodedBlockDefinition| b@) + Seq::empty()
        =~= definitions@.map_values(|b: DecodedBlockDefinition| b@));
    Ok(definitions)
}

} // verus!
