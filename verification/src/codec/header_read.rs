//! Decoding of the JWW header.
use vstd::prelude::*;
use vstd::bytes::*;
use crate::codec::error::{CodecError, CodecErrorV, Parsed, res_plain};
use crate::codec::reader::{Reader, sp_u32, sp_f64, sp_skip, sp_cstring};
use crate::codec::types::{DecodedLayer, DecodedLayerV, DecodedLayerGroup, DecodedLayerGroupV, DecodedHeader, DecodedHeaderV};
use crate::codec::header::{signature_bytes, TENTH_BITS};
use crate::text::string_from_chars;

verus! {

/// The per-layer fields stored in the group table: state and protect.
pub type LayerFixed = (u32, u32);

/// The fields of a layer group stored in the group table.
pub struct GroupFixed {
    pub state: u32,
    pub write_layer: u32,
    pub scale: u64,
    pub protect: u32,
    pub layers: Seq<LayerFixed>,
}

pub open spec fn sp_layers_fixed(d: Seq<u8>, p: int, n: nat) -> Parsed<Seq<LayerFixed>>
    decreases n,
{
    if n == 0 {
        (Ok(Seq::empty()), p)
    } else {
        match sp_layers_fixed(d, p, (n - 1) as nat) {
            (Err(e), q) => (Err(e), q),
            (Ok(ls), q) => match sp_u32(d, q) {
                (Err(e), r) => (Err(e), r),
                (Ok(state), r) => match sp_u32(d, r) {
                    (Err(e), t) => (Err(e), t),
                    (Ok(protect), t) => (Ok(ls.push((state, protect))), t),
                },
            },
        }
    }
}

pub open spec fn sp_group_fixed(d: Seq<u8>, p: int) -> Parsed<GroupFixed> {
    match sp_u32(d, p) {
        (Err(e), q) => (Err(e), q),
        (Ok(state), p1) => match sp_u32(d, p1) {
            (Err(e), q) => (Err(e), q),
            (Ok(write_layer), p2) => match sp_f64(d, p2) {
                (Err(e), q) => (Err(e), q),
                (Ok(scale), p3) => match sp_u32(d, p3) {
                    (Err(e), q) => (Err(e), q),
                    (Ok(protect), p4) => match sp_layers_fixed(d, p4, 16) {
                        (Err(e), q) => (Err(e), q),
                        (Ok(layers), p5) => (
                            Ok(GroupFixed { state, write_layer, scale, protect, layers }),
                            p5,
                        ),
                    },
                },
            },
        },
    }
}

pub open spec fn sp_groups_fixed(d: Seq<u8>, p: int, n: nat) -> Parsed<Seq<GroupFixed>>
    decreases n,
{
    if n == 0 {
        (Ok(Seq::empty()), p)
    } else {
        match sp_groups_fixed(d, p, (n - 1) as nat) {
            (Err(e), q) => (Err(e), q),
            (Ok(gs), q) => match sp_group_fixed(d, q) {
                (Err(e), r) => (Err(e), r),
                (Ok(g), r) => (Ok(gs.push(g)), r),
            },
        }
    }
}

pub open spec fn sp_cstrings(d: Seq<u8>, p: int, n: nat) -> Parsed<Seq<Seq<char>>>
    decreases n,
{
    if n == 0 {
        (Ok(Seq::empty()), p)
    } else {
        match sp_cstrings(d, p, (n - 1) as nat) {
            (Err(e), q) => (Err(e), q),
            (Ok(ss), q) => match sp_cstring(d, q) {
                (Err(e), r) => (Err(e), r),
                (Ok(s), r) => (Ok(ss.push(s)), r),
            },
        }
    }
}

/// The layer names (sixteen per group, group by group) and then the sixteen
/// group names, after 156 bytes of settings. Versions before 3.00 have none.
pub open spec fn sp_layer_names(d: Seq<u8>, p: int, version: u32) -> Parsed<Seq<Seq<char>>> {
    if version < 300 {
        (Err(CodecErrorV::UnexpectedEof("layer names"@)), p)
    } else {
        match sp_skip(d, p, 84) {
            (Err(e), q) => (Err(e), q),
            (Ok(_), q) => match sp_skip(d, q, 72) {
                (Err(e), r) => (Err(e), r),
                (Ok(_), r) => sp_cstrings(d, r, 272),
            },
        }
    }
}

pub open spec fn hex_digit(n: int) -> char {
    if n < 10 {
        (('0' as int) + n) as char
    } else {
        (('A' as int) + n - 10) as char
    }
}

/// `Group` and the group's hexadecimal index.
pub open spec fn default_group_name(g: int) -> Seq<char> {
    seq!['G', 'r', 'o', 'u', 'p', hex_digit(g)]
}

/// The group's and the layer's hexadecimal indices joined by `-`.
pub open spec fn default_layer_name(g: int, l: int) -> Seq<char> {
    seq![hex_digit(g), '-', hex_digit(l)]
}

/// The names the header ends with: when the names were read, each blank one
/// replaced by its default; otherwise every name is its default.
pub open spec fn final_layer_name(names: Option<Seq<Seq<char>>>, g: int, l: int) -> Seq<char> {
    match names {
        Some(ns) => if ns[16 * g + l].len() == 0 {
            default_layer_name(g, l)
        } else {
            ns[16 * g + l]
        },
        None => default_layer_name(g, l),
    }
}

pub open spec fn final_group_name(names: Option<Seq<Seq<char>>>, g: int) -> Seq<char> {
    match names {
        Some(ns) => if ns[256 + g].len() == 0 {
            default_group_name(g)
        } else {
            ns[256 + g]
        },
        None => default_group_name(g),
    }
}

pub open spec fn assemble_groups(gs: Seq<GroupFixed>, names: Option<Seq<Seq<char>>>) -> Seq<
    DecodedLayerGroupV,
> {
    Seq::new(
        gs.len(),
        |g: int|
            DecodedLayerGroupV {
                layers: Seq::new(
                    gs[g].layers.len(),
                    |l: int|
                        DecodedLayerV {
                            name: final_layer_name(names, g, l),
                            state: gs[g].layers[l].0,
                            protect: gs[g].layers[l].1,
                        },
                ),
                name: final_group_name(names, g),
                scale: gs[g].scale,
                state: gs[g].state,
                write_layer: gs[g].write_layer,
                protect: gs[g].protect,
            },
    )
}

pub open spec fn default_pen_rgb_spec(i: int) -> u32 {
    if i == 0 {
        0x00ffffff
    } else if i == 1 {
        0x00c0c000
    } else if i == 2 {
        0x00000000
    } else if i == 3 {
        0x0000c000
    } else if i == 4 {
        0x0000c0c0
    } else if i == 5 {
        0x00c000c0
    } else if i == 6 {
        0x000000ff
    } else if i == 7 {
        0x00808080
    } else if i == 8 {
        0x008000ff
    } else {
        0x00ff80ff
    }
}

/// Screen colors, screen widths, print colors, print widths and print point
/// radii (as bit patterns), ten entries each.
pub type PenTablesV = (Seq<u32>, Seq<u32>, Seq<u32>, Seq<u32>, Seq<u64>);

pub open spec fn default_pen_tables_spec() -> PenTablesV {
    (
        Seq::new(10, |i: int| default_pen_rgb_spec(i)),
        Seq::new(10, |i: int| 1u32),
        Seq::new(10, |i: int| default_pen_rgb_spec(i)),
        Seq::new(10, |i: int| 1u32),
        Seq::new(10, |i: int| TENTH_BITS),
    )
}

pub open spec fn sp_screen_pens(d: Seq<u8>, p: int, n: nat) -> Parsed<(Seq<u32>, Seq<u32>)>
    decreases n,
{
    if n == 0 {
        (Ok((Seq::empty(), Seq::empty())), p)
    } else {
        match sp_screen_pens(d, p, (n - 1) as nat) {
            (Err(e), q) => (Err(e), q),
            (Ok((cs, ws)), q) => match sp_u32(d, q) {
                (Err(e), r) => (Err(e), r),
                (Ok(c), r) => match sp_u32(d, r) {
                    (Err(e), t) => (Err(e), t),
                    (Ok(w), t) => (Ok((cs.push(c), ws.push(w))), t),
                },
            },
        }
    }
}

pub open spec fn sp_print_pens(d: Seq<u8>, p: int, n: nat) -> Parsed<(Seq<u32>, Seq<u32>, Seq<u64>)>
    decreases n,
{
    if n == 0 {
        (Ok((Seq::empty(), Seq::empty(), Seq::empty())), p)
    } else {
        match sp_print_pens(d, p, (n - 1) as nat) {
            (Err(e), q) => (Err(e), q),
            (Ok((cs, ws, rs)), q) => match sp_u32(d, q) {
                (Err(e), r) => (Err(e), r),
                (Ok(c), r) => match sp_u32(d, r) {
                    (Err(e), t) => (Err(e), t),
                    (Ok(w), t) => match sp_f64(d, t) {
                        (Err(e), u) => (Err(e), u),
                        (Ok(x), u) => (Ok((cs.push(c), ws.push(w), rs.push(x))), u),
                    },
                },
            },
        }
    }
}

/// The version 6.00 pen tables, 464 bytes after the group names.
pub open spec fn sp_pen_tables(d: Seq<u8>, p: int) -> Parsed<PenTablesV> {
    match sp_skip(d, p, 464) {
        (Err(e), q) => (Err(e), q),
        (Ok(_), q) => match sp_screen_pens(d, q, 10) {
            (Err(e), r) => (Err(e), r),
            (Ok((sc, sw)), r) => match sp_print_pens(d, r, 10) {
                (Err(e), t) => (Err(e), t),
                (Ok((pc, pw, pr)), t) => (Ok((sc, sw, pc, pw, pr)), t),
            },
        },
    }
}

/// The decoded header. Missing layer names (end of input while reading them)
/// fall back to the default names; missing version 6.00 pen tables fall back
/// to the default tables.
pub open spec fn sp_header(d: Seq<u8>) -> Result<DecodedHeaderV, CodecErrorV> {
    if d.len() < 8 || d.subrange(0, 8) != signature_bytes() {
        Err(CodecErrorV::InvalidSignature)
    } else {
        match sp_u32(d, 8) {
            (Err(e), _) => Err(e),
            (Ok(version), p1) => match sp_cstring(d, p1) {
                (Err(e), _) => Err(e),
                (Ok(memo), p2) => match sp_u32(d, p2) {
                    (Err(e), _) => Err(e),
                    (Ok(paper_size), p3) => match sp_u32(d, p3) {
                        (Err(e), _) => Err(e),
                        (Ok(write_layer_group), p4) => match sp_groups_fixed(d, p4, 16) {
                            (Err(e), _) => Err(e),
                            (Ok(gs), p5) => {
                                let (names_res, p6) = sp_layer_names(d, p5, version);
                                match names_res {
                                    Err(CodecErrorV::UnexpectedEof(_)) => header_after_names(
                                        d,
                                        p6,
                                        version,
                                        memo,
                                        paper_size,
                                        write_layer_group,
                                        assemble_groups(gs, None),
                                    ),
                                    Err(e) => Err(e),
                                    Ok(names) => header_after_names(
                                        d,
                                        p6,
                                        version,
                                        memo,
                                        paper_size,
                                        write_layer_group,
                                        assemble_groups(gs, Some(names)),
                                    ),
                                }
                            },
                        },
                    },
                },
            },
        }
    }
}

pub open spec fn header_after_names(
    d: Seq<u8>,
    p: int,
    version: u32,
    memo: Seq<char>,
    paper_size: u32,
    write_layer_group: u32,
    groups: Seq<DecodedLayerGroupV>,
) -> Result<DecodedHeaderV, CodecErrorV> {
    let tables = if version >= 600 {
        match sp_pen_tables(d, p) {
            (Ok(t), _) => Ok(t),
            (Err(CodecErrorV::UnexpectedEof(_)), _) => Ok(default_pen_tables_spec()),
            (Err(e), _) => Err(e),
        }
    } else {
        Ok(default_pen_tables_spec())
    };
    match tables {
        Err(e) => Err(e),
        Ok((sc, sw, pc, pw, pr)) => Ok(
            DecodedHeaderV {
                version,
                memo,
                paper_size,
                write_layer_group,
                layer_groups: groups,
                screen_pen_colors: sc,
                screen_pen_widths: sw,
                print_pen_colors: pc,
                print_pen_widths: pw,
                print_point_radii: pr,
            },
        ),
    }
}


proof fn lemma_layers_fixed_err(d: Seq<u8>, p: int, i: nat, n: nat)
    requires
        i <= n,
        sp_layers_fixed(d, p, i).0 is Err,
    ensures
        sp_layers_fixed(d, p, n) == sp_layers_fixed(d, p, i),
    decreases n,
{
    if n > i {
        lemma_layers_fixed_err(d, p, i, (n - 1) as nat);
    }
}

proof fn lemma_groups_fixed_err(d: Seq<u8>, p: int, i: nat, n: nat)
    requires
        i <= n,
        sp_groups_fixed(d, p, i).0 is Err,
    ensures
        sp_groups_fixed(d, p, n) == sp_groups_fixed(d, p, i),
    decreases n,
{
    if n > i {
        lemma_groups_fixed_err(d, p, i, (n - 1) as nat);
    }
}

proof fn lemma_cstrings_err(d: Seq<u8>, p: int, i: nat, n: nat)
    requires
        i <= n,
        sp_cstrings(d, p, i).0 is Err,
    ensures
        sp_cstrings(d, p, n) == sp_cstrings(d, p, i),
    decreases n,
{
    if n > i {
        lemma_cstrings_err(d, p, i, (n - 1) as nat);
    }
}

proof fn lemma_screen_pens_err(d: Seq<u8>, p: int, i: nat, n: nat)
    requires
        i <= n,
        sp_screen_pens(d, p, i).0 is Err,
    ensures
        sp_screen_pens(d, p, n) == sp_screen_pens(d, p, i),
    decreases n,
{
    if n > i {
        lemma_screen_pens_err(d, p, i, (n - 1) as nat);
    }
}

proof fn lemma_print_pens_err(d: Seq<u8>, p: int, i: nat, n: nat)
    requires
        i <= n,
        sp_print_pens(d, p, i).0 is Err,
    ensures
        sp_print_pens(d, p, n) == sp_print_pens(d, p, i),
    decreases n,
{
    if n > i {
        lemma_print_pens_err(d, p, i, (n - 1) as nat);
    }
}

pub(crate) struct GroupFixedExec {
    pub(crate) state: u32,
    pub(crate) write_layer: u32,
    pub(crate) scale: u64,
    pub(crate) protect: u32,
    pub(crate) layers: Vec<(u32, u32)>,
}

impl GroupFixedExec {
    pub(crate) open spec fn spec_view(&self) -> GroupFixed {
        GroupFixed {
            state: self.state,
            write_layer: self.write_layer,
            scale: self.scale,
            protect: self.protect,
            layers: self.layers@,
        }
    }
}

pub(crate) open spec fn groups_fixed_view(gs: Seq<GroupFixedExec>) -> Seq<GroupFixed> {
    gs.map_values(|g: GroupFixedExec| g.spec_view())
}

fn read_group_fixed(reader: &mut Reader<'_>) -> (res: Result<GroupFixedExec, CodecError>)
    requires
        old(reader).wf(),
    ensures
        final(reader).wf(),
        final(reader).data() == old(reader).data(),
        ({
            let (r, q) = sp_group_fixed(old(reader).data(), old(reader).pos());
            &&& final(reader).pos() == q
            &&& match (res, r) {
                (Ok(g), Ok(s)) => g.spec_view() == s,
                (Err(x), Err(y)) => x@ == y,
                _ => false,
            }
        }),
{
    let ghost d = reader.data();
    let state = reader.read_u32()?;
    let write_layer = reader.read_u32()?;
    let scale = reader.read_f64()?;
    let protect = reader.read_u32()?;
    let ghost p4 = reader.pos();
    let mut layers: Vec<(u32, u32)> = Vec::new();
    let mut i: usize = 0;
    let ghost head = (state, write_layer, scale, protect);
    while i < 16
        invariant
            reader.wf(),
            reader.data() == d,
            d == old(reader).data(),
            i <= 16,
            sp_group_fixed(d, old(reader).pos()) == match sp_layers_fixed(d, p4, 16) {
                (Err(e), q) => (Err(e), q),
                (Ok(layers), p5) => (
                    Ok(GroupFixed { state: head.0, write_layer: head.1, scale: head.2, protect: head.3, layers }),
                    p5,
                ),
            },
            head == (state, write_layer, scale, protect),
            (Ok::<Seq<LayerFixed>, CodecErrorV>(layers@), reader.pos()) == sp_layers_fixed(d, p4, i as nat),
        decreases 16 - i,
    {
        let ghost pos = reader.pos();
        let layer_state = match reader.read_u32() {
            Ok(v) => v,
            Err(e) => {
                proof { lemma_layers_fixed_err(d, p4, (i + 1) as nat, 16); }
                return Err(e);
            },
        };
        let layer_protect = match reader.read_u32() {
            Ok(v) => v,
            Err(e) => {
                proof { lemma_layers_fixed_err(d, p4, (i + 1) as nat, 16); }
                return Err(e);
            },
        };
        layers.push((layer_state, layer_protect));
        i = i + 1;
    }
    Ok(GroupFixedExec { state, write_layer, scale, protect, layers })
}

pub(crate) fn read_groups_fixed(reader: &mut Reader<'_>) -> (res: Result<Vec<GroupFixedExec>, CodecError>)
    requires
        old(reader).wf(),
    ensures
        final(reader).wf(),
        final(reader).data() == old(reader).data(),
        ({
            let (r, q) = sp_groups_fixed(old(reader).data(), old(reader).pos(), 16);
            &&& final(reader).pos() == q
            &&& match (res, r) {
                (Ok(g), Ok(s)) => groups_fixed_view(g@) == s,
                (Err(x), Err(y)) => x@ == y,
                _ => false,
            }
        }),
{
    let ghost d = reader.data();
    let ghost p0 = reader.pos();
    let mut groups: Vec<GroupFixedExec> = Vec::new();
    let mut i: usize = 0;
    assert(groups_fixed_view(groups@) =~= Seq::empty());
    while i < 16
        invariant
            reader.wf(),
            reader.data() == d,
            d == old(reader).data(),
            p0 == old(reader).pos(),
            i <= 16,
            (Ok::<Seq<GroupFixed>, CodecErrorV>(groups_fixed_view(groups@)), reader.pos())
                == sp_groups_fixed(d, p0, i as nat),
        decreases 16 - i,
    {
        let g = match read_group_fixed(reader) {
            Ok(g) => g,
            Err(e) => {
                proof { lemma_groups_fixed_err(d, p0, (i + 1) as nat, 16); }
                return Err(e);
            },
        };
        let ghost before = groups_fixed_view(groups@);
        groups.push(g);
        assert(groups_fixed_view(groups@) =~= before.push(g.spec_view()));
        i = i + 1;
    }
    Ok(groups)
}

fn read_cstrings(reader: &mut Reader<'_>, n: usize) -> (res: Result<Vec<String>, CodecError>)
    requires
        old(reader).wf(),
    ensures
        final(reader).wf(),
        final(reader).data() == old(reader).data(),
        ({
            let (r, q) = sp_cstrings(old(reader).data(), old(reader).pos(), n as nat);
            &&& final(reader).pos() == q
            &&& match (res, r) {
                (Ok(v), Ok(s)) => v@.map_values(|x: String| x@) == s,
                (Err(x), Err(y)) => x@ == y,
                _ => false,
            }
        }),
{
    let ghost d = reader.data();
    let ghost p0 = reader.pos();
    let mut out: Vec<String> = Vec::new();
    let mut i: usize = 0;
    assert(out@.map_values(|x: String| x@) =~= Seq::empty());
    while i < n
        invariant
            reader.wf(),
            reader.data() == d,
            d == old(reader).data(),
            p0 == old(reader).pos(),
            i <= n,
            (Ok::<Seq<Seq<char>>, CodecErrorV>(out@.map_values(|x: String| x@)), reader.pos())
                == sp_cstrings(d, p0, i as nat),
        decreases n - i,
    {
        let s = match reader.read_cstring() {
            Ok(s) => s,
            Err(e) => {
                proof { lemma_cstrings_err(d, p0, (i + 1) as nat, n as nat); }
                return Err(e);
            },
        };
        let ghost before = out@.map_values(|x: String| x@);
        let ghost sv = s@;
        out.push(s);
        assert(out@.map_values(|x: String| x@) =~= before.push(sv));
        i = i + 1;
    }
    Ok(out)
}

fn read_layer_names(reader: &mut Reader<'_>, version: u32) -> (res: Result<Vec<String>, CodecError>)
    requires
        old(reader).wf(),
    ensures
        final(reader).wf(),
        final(reader).data() == old(reader).data(),
        ({
            let (r, q) = sp_layer_names(old(reader).data(), old(reader).pos(), version);
            &&& final(reader).pos() == q
            &&& match (res, r) {
                (Ok(v), Ok(s)) => v@.map_values(|x: String| x@) == s,
                (Err(x), Err(y)) => x@ == y,
                _ => false,
            }
        }),
{
    if version < 300 {
        return Err(CodecError::UnexpectedEof("layer names"));
    }
    reader.skip((14 + 5 + 1 + 1) * 4)?;
    reader.skip(16 + 8 + 4 + 4 + 8 + 16 + 16)?;
    read_cstrings(reader, 272)
}

pub(crate) fn hex_digit_exec(n: usize) -> (c: char)
    requires
        n < 16,
    ensures
        c == hex_digit(n as int),
{
    if n < 10 {
        ((('0' as u8) + (n as u8)) as char)
    } else {
        ((('A' as u8) + (n as u8) - 10) as char)
    }
}

pub(crate) fn default_group_name_exec(g: usize) -> (s: String)
    requires
        g < 16,
    ensures
        s@ == default_group_name(g as int),
{
    let chars = vec!['G', 'r', 'o', 'u', 'p', hex_digit_exec(g)];
    assert(chars@ =~= default_group_name(g as int));
    string_from_chars(chars.as_slice())
}

pub(crate) fn default_layer_name_exec(g: usize, l: usize) -> (s: String)
    requires
        g < 16,
        l < 16,
    ensures
        s@ == default_layer_name(g as int, l as int),
{
    let chars = vec![hex_digit_exec(g), '-', hex_digit_exec(l)];
    assert(chars@ =~= default_layer_name(g as int, l as int));
    string_from_chars(chars.as_slice())
}

pub(crate) open spec fn names_view(names: Option<Vec<String>>) -> Option<Seq<Seq<char>>> {
    match names {
        Some(v) => Some(v@.map_values(|x: String| x@)),
        None => None,
    }
}

pub(crate) fn assemble(groups: &Vec<GroupFixedExec>, names: &Option<Vec<String>>) -> (out: Vec<DecodedLayerGroup>)
    requires
        groups@.len() == 16,
        forall|g: int| 0 <= g < 16 ==> (#[trigger] groups@[g]).layers@.len() == 16,
        names matches Some(v) ==> v@.len() == 272,
    ensures
        out@.map_values(|g: DecodedLayerGroup| g@) == assemble_groups(groups_fixed_view(groups@), names_view(*names)),
{
    let ghost gv = groups_fixed_view(groups@);
    let ghost nv = names_view(*names);
    let ghost target = assemble_groups(gv, nv);
    let mut out: Vec<DecodedLayerGroup> = Vec::new();
    let mut g: usize = 0;
    while g < 16
        invariant
            g <= 16,
            groups@.len() == 16,
            forall|k: int| 0 <= k < 16 ==> (#[trigger] groups@[k]).layers@.len() == 16,
            names matches Some(v) ==> v@.len() == 272,
            gv == groups_fixed_view(groups@),
            nv == names_view(*names),
            target == assemble_groups(gv, nv),
            out@.len() == g,
            forall|k: int| 0 <= k < g ==> (#[trigger] out@[k])@ == target[k],
        decreases 16 - g,
    {
        let fixed = &groups[g];
        let mut layers: Vec<DecodedLayer> = Vec::new();
        let mut l: usize = 0;
        while l < 16
            invariant
                l <= 16,
                g < 16,
                fixed.layers@.len() == 16,
                *fixed == groups@[g as int],
                names matches Some(v) ==> v@.len() == 272,
                gv == groups_fixed_view(groups@),
                nv == names_view(*names),
                target == assemble_groups(gv, nv),
                groups@.len() == 16,
                layers@.len() == l,
                forall|k: int| 0 <= k < l ==> (#[trigger] layers@[k])@ == target[g as int].layers[k],
            decreases 16 - l,
        {
            let name = match names {
                Some(ns) => {
                    let n = &ns[16 * g + l];
                    if n.as_str().is_empty() {
                        default_layer_name_exec(g, l)
                    } else {
                        n.clone()
                    }
                },
                None => default_layer_name_exec(g, l),
            };
            proof {
                if let Some(ns) = names {
                    assert(nv->Some_0[16 * g + l] == ns@[16 * g + l]@);
                }
            }
            let (state, protect) = fixed.layers[l];
            layers.push(DecodedLayer { name, state, protect });
            l = l + 1;
        }
        let gname = match names {
            Some(ns) => {
                let n = &ns[256 + g];
                if n.as_str().is_empty() {
                    default_group_name_exec(g)
                } else {
                    n.clone()
                }
            },
            None => default_group_name_exec(g),
        };
        proof {
            if let Some(ns) = names {
                assert(nv->Some_0[256 + g] == ns@[256 + g]@);
            }
        }
        let group = DecodedLayerGroup {
            layers,
            name: gname,
            scale: fixed.scale,
            state: fixed.state,
            write_layer: fixed.write_layer,
            protect: fixed.protect,
        };
        assert(group@.layers =~= target[g as int].layers);
        out.push(group);
        g = g + 1;
    }
    assert(out@.map_values(|g: DecodedLayerGroup| g@) =~= target);
    out
}


/// Pen tables as read: screen colors, screen widths, print colors, print
/// widths and print point radii.
pub type PenTables = ([u32; 10], [u32; 10], [u32; 10], [u32; 10], [u64; 10]);

pub open spec fn pen_tables_view(t: PenTables) -> PenTablesV {
    (t.0@, t.1@, t.2@, t.3@, t.4@)
}

fn default_pen_rgb_exec(index: usize) -> (c: u32)
    requires
        index < 10,
    ensures
        c == default_pen_rgb_spec(index as int),
{
    let colors: [u32; 10] = [
        0x00ffffff,
        0x00c0c000,
        0x00000000,
        0x0000c000,
        0x0000c0c0,
        0x00c000c0,
        0x000000ff,
        0x00808080,
        0x008000ff,
        0x00ff80ff,
    ];
    colors[index]
}

/// The built-in pen colors (as 0x00BBGGRR) in pen order.
pub fn default_pen_rgb(index: usize) -> (c: u32)
    requires
        index < 10,
    ensures
        c == default_pen_rgb_spec(index as int),
{
    default_pen_rgb_exec(index)
}

fn default_pen_tables() -> (t: PenTables)
    ensures
        pen_tables_view(t) == default_pen_tables_spec(),
{
    let mut colors: [u32; 10] = [0; 10];
    let mut i: usize = 0;
    while i < 10
        invariant
            i <= 10,
            forall|k: int| 0 <= k < i ==> colors@[k] == default_pen_rgb_spec(k),
        decreases 10 - i,
    {
        colors[i] = default_pen_rgb_exec(i);
        i = i + 1;
    }
    let t = (colors, [1u32; 10], colors, [1u32; 10], [TENTH_BITS; 10]);
    assert(t.0@ =~= default_pen_tables_spec().0);
    assert(t.1@ =~= default_pen_tables_spec().1);
    assert(t.2@ =~= default_pen_tables_spec().2);
    assert(t.3@ =~= default_pen_tables_spec().3);
    assert(t.4@ =~= default_pen_tables_spec().4);
    t
}

fn read_version_600_pen_tables(reader: &mut Reader<'_>) -> (res: Result<PenTables, CodecError>)
    requires
        old(reader).wf(),
    ensures
        final(reader).wf(),
        final(reader).data() == old(reader).data(),
        ({
            let (r, q) = sp_pen_tables(old(reader).data(), old(reader).pos());
            &&& match (res, r) {
                (Ok(t), Ok(s)) => pen_tables_view(t) == s,
                (Err(x), Err(y)) => x@ == y,
                _ => false,
            }
        }),
{
    let ghost d = reader.data();
    reader.skip(464)?;
    let ghost p0 = reader.pos();
    let mut screen_colors: [u32; 10] = [0; 10];
    let mut screen_widths: [u32; 10] = [0; 10];
    let mut index: usize = 0;
    while index < 10
        invariant
            reader.wf(),
            reader.data() == d,
            d == old(reader).data(),
            sp_skip(d, old(reader).pos(), 464) == (Ok::<(), CodecErrorV>(()), p0),
            index <= 10,
            ({
                let (r, q) = sp_screen_pens(d, p0, index as nat);
                &&& q == reader.pos()
                &&& r matches Ok((cs, ws)) && cs == screen_colors@.subrange(0, index as int)
                    && ws == screen_widths@.subrange(0, index as int)
            }),
        decreases 10 - index,
    {
        let c = match reader.read_u32() {
            Ok(v) => v,
            Err(e) => {
                proof { lemma_screen_pens_err(d, p0, (index + 1) as nat, 10); }
                return Err(e);
            },
        };
        let w = match reader.read_u32() {
            Ok(v) => v,
            Err(e) => {
                proof { lemma_screen_pens_err(d, p0, (index + 1) as nat, 10); }
                return Err(e);
            },
        };
        let ghost cs0 = screen_colors@.subrange(0, index as int);
        let ghost ws0 = screen_widths@.subrange(0, index as int);
        screen_colors[index] = c;
        screen_widths[index] = w;
        assert(screen_colors@.subrange(0, index + 1) =~= cs0.push(c));
        assert(screen_widths@.subrange(0, index + 1) =~= ws0.push(w));
        index = index + 1;
    }
    let ghost p1 = reader.pos();
    assert(screen_colors@.subrange(0, 10) =~= screen_colors@);
    assert(screen_widths@.subrange(0, 10) =~= screen_widths@);
    let mut print_colors: [u32; 10] = [0; 10];
    let mut print_widths: [u32; 10] = [0; 10];
    let mut point_radii: [u64; 10] = [0; 10];
    let mut index: usize = 0;
    while index < 10
        invariant
            reader.wf(),
            reader.data() == d,
            d == old(reader).data(),
            sp_skip(d, old(reader).pos(), 464) == (Ok::<(), CodecErrorV>(()), p0),
            sp_screen_pens(d, p0, 10) == (Ok::<(Seq<u32>, Seq<u32>), CodecErrorV>((screen_colors@, screen_widths@)), p1),
            index <= 10,
            ({
                let (r, q) = sp_print_pens(d, p1, index as nat);
                &&& q == reader.pos()
                &&& r matches Ok((cs, ws, rs)) && cs == print_colors@.subrange(0, index as int)
                    && ws == print_widths@.subrange(0, index as int)
                    && rs == point_radii@.subrange(0, index as int)
            }),
        decreases 10 - index,
    {
        let c = match reader.read_u32() {
            Ok(v) => v,
            Err(e) => {
                proof { lemma_print_pens_err(d, p1, (index + 1) as nat, 10); }
                return Err(e);
            },
        };
        let w = match reader.read_u32() {
            Ok(v) => v,
            Err(e) => {
                proof { lemma_print_pens_err(d, p1, (index + 1) as nat, 10); }
                return Err(e);
            },
        };
        let x = match reader.read_f64() {
            Ok(v) => v,
            Err(e) => {
                proof { lemma_print_pens_err(d, p1, (index + 1) as nat, 10); }
                return Err(e);
            },
        };
        let ghost cs0 = print_colors@.subrange(0, index as int);
        let ghost ws0 = print_widths@.subrange(0, index as int);
        let ghost rs0 = point_radii@.subrange(0, index as int);
        print_colors[index] = c;
        print_widths[index] = w;
        point_radii[index] = x;
        assert(print_colors@.subrange(0, index + 1) =~= cs0.push(c));
        assert(print_widths@.subrange(0, index + 1) =~= ws0.push(w));
        assert(point_radii@.subrange(0, index + 1) =~= rs0.push(x));
        index = index + 1;
    }
    assert(screen_colors@.subrange(0, 10) =~= screen_colors@);
    assert(screen_widths@.subrange(0, 10) =~= screen_widths@);
    assert(print_colors@.subrange(0, 10) =~= print_colors@);
    assert(print_widths@.subrange(0, 10) =~= print_widths@);
    assert(point_radii@.subrange(0, 10) =~= point_radii@);
    Ok((screen_colors, screen_widths, print_colors, print_widths, point_radii))
}

pub(crate) fn has_signature(data: &[u8]) -> (ok: bool)
    ensures
        ok == (data@.len() >= 8 && data@.subrange(0, 8) == signature_bytes()),
{
    if data.len() < 8 {
        return false;
    }
    let sig: [u8; 8] = [0x4a, 0x77, 0x77, 0x44, 0x61, 0x74, 0x61, 0x2e];
    let mut i: usize = 0;
    while i < 8
        invariant
            i <= 8,
            data@.len() >= 8,
            sig@ == signature_bytes(),
            forall|k: int| 0 <= k < i ==> data@[k] == sig@[k],
        decreases 8 - i,
    {
        if data[i] != sig[i] {
            assert(data@.subrange(0, 8)[i as int] != signature_bytes()[i as int]);
            return false;
        }
        i = i + 1;
    }
    assert(data@.subrange(0, 8) =~= signature_bytes());
    true
}

/// Decodes the header of a JWW file.
pub fn read_header(data: &[u8]) -> (res: Result<DecodedHeader, CodecError>)
    ensures
        match (res, sp_header(data@)) {
            (Ok(h), Ok(s)) => h@ == s,
            (Err(x), Err(y)) => x@ == y,
            _ => false,
        },
{
    if !has_signature(data) {
        return Err(CodecError::InvalidSignature);
    }
    let mut reader = Reader::new(data);
    reader.skip(8)?;
    let version = reader.read_u32()?;
    let memo = reader.read_cstring()?;
    let paper_size = reader.read_u32()?;
    let write_layer_group = reader.read_u32()?;
    let ghost p4 = reader.pos();
    let groups = read_groups_fixed(&mut reader)?;
    proof {
        let gv = groups_fixed_view(groups@);
        lemma_groups_fixed_shape(data@, p4, 16);
        assert forall|g: int| 0 <= g < 16 implies (#[trigger] groups@[g]).layers@.len() == 16 by {
            assert(gv[g] == groups@[g].spec_view());
        }
    }
    let ghost p5 = reader.pos();
    let names = match read_layer_names(&mut reader, version) {
        Ok(names) => Some(names),
        Err(CodecError::UnexpectedEof(_)) => None,
        Err(error) => return Err(error),
    };
    proof {
        if names is Some {
            let (_, a) = crate::codec::reader::sp_skip(data@, p5, 84);
            let (_, b) = crate::codec::reader::sp_skip(data@, a, 72);
            lemma_cstrings_len(data@, b, 272);
        }
    }
    let layer_groups = assemble(&groups, &names);
    let tables = if version >= 600 {
        match read_version_600_pen_tables(&mut reader) {
            Ok(tables) => tables,
            Err(CodecError::UnexpectedEof(_)) => default_pen_tables(),
            Err(error) => return Err(error),
        }
    } else {
        default_pen_tables()
    };
    let (screen_pen_colors, screen_pen_widths, print_pen_colors, print_pen_widths, print_point_radii) = tables;
    Ok(
        DecodedHeader {
            version,
            memo,
            paper_size,
            write_layer_group,
            layer_groups,
            screen_pen_colors,
            screen_pen_widths,
            print_pen_colors,
            print_pen_widths,
            print_point_radii,
        },
    )
}

proof fn lemma_layers_fixed_len(d: Seq<u8>, p: int, n: nat)
    ensures
        sp_layers_fixed(d, p, n).0 matches Ok(ls) ==> ls.len() == n,
    decreases n,
{
    if n > 0 {
        lemma_layers_fixed_len(d, p, (n - 1) as nat);
    }
}

pub(crate) proof fn lemma_groups_fixed_shape(d: Seq<u8>, q: int, n: nat)
    ensures
        sp_groups_fixed(d, q, n).0 is Ok ==> sp_groups_fixed(d, q, n).0->Ok_0.len() == n && forall|g: int|
            0 <= g < n ==> (#[trigger] sp_groups_fixed(d, q, n).0->Ok_0[g]).layers.len() == 16,
    decreases n,
{
    if n > 0 {
        lemma_groups_fixed_shape(d, q, (n - 1) as nat);
        let (r, q1) = sp_groups_fixed(d, q, (n - 1) as nat);
        if let Ok(gs0) = r {
            let (_, p4) = sp_u32(d, q1);
            let (_, p4b) = sp_u32(d, p4);
            let (_, p4c) = sp_f64(d, p4b);
            let (_, p4d) = sp_u32(d, p4c);
            lemma_layers_fixed_len(d, p4d, 16);
        }
    }
}

pub(crate) proof fn lemma_cstrings_len(d: Seq<u8>, q: int, n: nat)
    ensures
        sp_cstrings(d, q, n).0 is Ok ==> sp_cstrings(d, q, n).0->Ok_0.len() == n,
    decreases n,
{
    if n > 0 {
        lemma_cstrings_len(d, q, (n - 1) as nat);
    }
}

} // verus!
