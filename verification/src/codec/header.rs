//! The version 6.00 header as written by this codec.
use vstd::prelude::*;
use vstd::bytes::*;
use crate::codec::error::{CodecError, CodecErrorV};
use crate::codec::writer::{Writer, enc_cstring, then_bytes, cat_bytes, wrote, lemma_wrote_seq};
use crate::codec::types::{Header, HeaderV, LayerGroup, LayerGroupV, Layer, LayerV, header_shape};
use crate::codec::encode::EXPORT_VERSION;
use crate::codec::decode::ONE_BITS;

verus! {

/// The file signature `JwwData.`.
pub open spec fn signature_bytes() -> Seq<u8> {
    seq![0x4au8, 0x77, 0x77, 0x44, 0x61, 0x74, 0x61, 0x2e]
}

/// Bit pattern of the double `0.1`.
pub const TENTH_BITS: u64 = 0x3fb9_9999_9999_999au64;

/// Bit pattern of the double `2.5`.
pub const TWO_AND_A_HALF_BITS: u64 = 0x4004_0000_0000_0000u64;

/// `b` repeated `n` times.
pub open spec fn rep(b: Seq<u8>, n: nat) -> Seq<u8>
    decreases n,
{
    if n == 0 {
        Seq::empty()
    } else {
        rep(b, (n - 1) as nat) + b
    }
}

/// An encoding repeated `n` times, failing with its error.
pub open spec fn rep_res(item: Result<Seq<u8>, CodecErrorV>, n: nat) -> Result<Seq<u8>, CodecErrorV>
    decreases n,
{
    if n == 0 {
        Ok(Seq::empty())
    } else {
        cat_bytes(rep_res(item, (n - 1) as nat), item)
    }
}

pub open spec fn u32b(v: u32) -> Seq<u8> {
    spec_u32_to_le_bytes(v)
}

pub open spec fn f64b(v: u64) -> Seq<u8> {
    spec_u64_to_le_bytes(v)
}

pub open spec fn enc_layers_fixed(ls: Seq<LayerV>) -> Seq<u8>
    decreases ls.len(),
{
    if ls.len() == 0 {
        Seq::empty()
    } else {
        enc_layers_fixed(ls.drop_last()) + u32b(ls.last().state) + u32b(ls.last().protect)
    }
}

/// The fixed part of every layer group: state, write layer, scale, protect,
/// then each layer's state and protect.
pub open spec fn enc_groups_fixed(gs: Seq<LayerGroupV>) -> Seq<u8>
    decreases gs.len(),
{
    if gs.len() == 0 {
        Seq::empty()
    } else {
        let g = gs.last();
        enc_groups_fixed(gs.drop_last()) + u32b(g.state) + u32b(g.write_layer) + f64b(g.scale)
            + u32b(g.protect) + enc_layers_fixed(g.layers)
    }
}

/// The settings between the layer states and the layer names.
pub open spec fn header_gap_a() -> Seq<u8> {
    rep(u32b(0), 21) + f64b(0) + f64b(0) + f64b(ONE_BITS) + u32b(0) + u32b(0) + rep(f64b(0), 5)
}

pub open spec fn enc_layer_names(ls: Seq<LayerV>) -> Result<Seq<u8>, CodecErrorV>
    decreases ls.len(),
{
    if ls.len() == 0 {
        Ok(Seq::empty())
    } else {
        cat_bytes(enc_layer_names(ls.drop_last()), enc_cstring(ls.last().name))
    }
}

/// Every layer name, group by group.
pub open spec fn enc_group_layer_names(gs: Seq<LayerGroupV>) -> Result<Seq<u8>, CodecErrorV>
    decreases gs.len(),
{
    if gs.len() == 0 {
        Ok(Seq::empty())
    } else {
        cat_bytes(enc_group_layer_names(gs.drop_last()), enc_layer_names(gs.last().layers))
    }
}

/// Every group name.
pub open spec fn enc_group_names(gs: Seq<LayerGroupV>) -> Result<Seq<u8>, CodecErrorV>
    decreases gs.len(),
{
    if gs.len() == 0 {
        Ok(Seq::empty())
    } else {
        cat_bytes(enc_group_names(gs.drop_last()), enc_cstring(gs.last().name))
    }
}

/// The 464 bytes of settings between the layer names and the pen tables.
pub open spec fn header_gap_b() -> Seq<u8> {
    f64b(0) + f64b(0) + u32b(0) + f64b(0) + f64b(0) + f64b(0) + u32b(0) + f64b(ONE_BITS) + f64b(0)
        + f64b(0) + f64b(ONE_BITS) + f64b(0) + f64b(0) + rep(
        f64b(0) + f64b(0) + f64b(0) + u32b(0),
        10,
    ) + rep(f64b(0), 11)
}

pub open spec fn enc_screen_pens(colors: Seq<u32>, widths: Seq<u32>, n: nat) -> Seq<u8>
    decreases n,
{
    if n == 0 {
        Seq::empty()
    } else {
        enc_screen_pens(colors, widths, (n - 1) as nat) + u32b(colors[n - 1]) + u32b(widths[n - 1])
    }
}

pub open spec fn enc_print_pens(colors: Seq<u32>, widths: Seq<u32>, radii: Seq<u64>, n: nat) -> Seq<
    u8,
>
    decreases n,
{
    if n == 0 {
        Seq::empty()
    } else {
        enc_print_pens(colors, widths, radii, (n - 1) as nat) + u32b(colors[n - 1]) + u32b(
            widths[n - 1],
        ) + f64b(radii[n - 1])
    }
}

/// The fixed defaults up to the 257 line type entries.
pub open spec fn header_tail_a() -> Seq<u8> {
    rep(u32b(0), 89) + rep(f64b(0), 9) + u32b(0) + u32b(0) + rep(u32b(0) + u32b(1), 257)
}

pub open spec fn header_tail_b() -> Result<Seq<u8>, CodecErrorV> {
    rep_res(cat_bytes(enc_cstring(Seq::empty()), Ok(u32b(0) + u32b(1) + f64b(TENTH_BITS))), 257)
}

pub open spec fn header_tail_c() -> Result<Seq<u8>, CodecErrorV> {
    then_bytes(
        rep(u32b(0), 132),
        rep_res(cat_bytes(enc_cstring(Seq::empty()), Ok(u32b(0) + rep(f64b(0), 10))), 33),
    )
}

pub open spec fn enc_text_sizes(n: nat) -> Seq<u8>
    decreases n,
{
    if n == 0 {
        Seq::empty()
    } else {
        enc_text_sizes((n - 1) as nat) + f64b(TWO_AND_A_HALF_BITS) + f64b(TWO_AND_A_HALF_BITS)
            + f64b(0) + u32b(n as u32)
    }
}

pub open spec fn header_tail_d() -> Seq<u8> {
    enc_text_sizes(10) + f64b(TWO_AND_A_HALF_BITS) + f64b(TWO_AND_A_HALF_BITS) + f64b(0) + u32b(1)
        + u32b(1) + f64b(0) + f64b(0) + u32b(0) + rep(f64b(0), 6)
}

/// The whole header: signature, version 600, memo, paper, write group, the
/// layer group table, fixed settings, the layer and group names, the pen
/// tables and the fixed defaults that follow them.
#[verifier::opaque]
pub open spec fn enc_header(h: HeaderV) -> Result<Seq<u8>, CodecErrorV> {
    let r1 = cat_bytes(Ok(signature_bytes() + u32b(600)), enc_cstring(h.memo));
    let r2 = cat_bytes(
        r1,
        Ok(
            u32b(h.paper_size) + u32b(h.write_layer_group) + enc_groups_fixed(h.layer_groups)
                + header_gap_a(),
        ),
    );
    let r3 = cat_bytes(r2, enc_group_layer_names(h.layer_groups));
    let r4 = cat_bytes(r3, enc_group_names(h.layer_groups));
    let r5 = cat_bytes(
        r4,
        Ok(
            header_gap_b() + enc_screen_pens(h.screen_pen_colors@, h.screen_pen_widths@, 10)
                + enc_print_pens(
                h.print_pen_colors@,
                h.print_pen_widths@,
                h.print_point_radii@,
                10,
            ) + header_tail_a(),
        ),
    );
    let r6 = cat_bytes(r5, header_tail_b());
    let r7 = cat_bytes(r6, header_tail_c());
    cat_bytes(r7, Ok(header_tail_d()))
}

fn write_rep_u32(writer: &mut Writer, value: u32, n: usize)
    ensures
        final(writer)@ == old(writer)@ + rep(u32b(value), n as nat),
{
    let ghost start = writer@;
    let mut i: usize = 0;
    assert(start + rep(u32b(value), 0) =~= start);
    while i < n
        invariant
            i <= n,
            writer@ == start + rep(u32b(value), i as nat),
        decreases n - i,
    {
        writer.u32(value);
        assert(writer@ =~= start + rep(u32b(value), (i + 1) as nat));
        i = i + 1;
    }
}

fn write_rep_f64(writer: &mut Writer, value: u64, n: usize)
    ensures
        final(writer)@ == old(writer)@ + rep(f64b(value), n as nat),
{
    let ghost start = writer@;
    let mut i: usize = 0;
    assert(start + rep(f64b(value), 0) =~= start);
    while i < n
        invariant
            i <= n,
            writer@ == start + rep(f64b(value), i as nat),
        decreases n - i,
    {
        writer.f64_bits(value);
        assert(writer@ =~= start + rep(f64b(value), (i + 1) as nat));
        i = i + 1;
    }
}

fn write_groups_fixed(writer: &mut Writer, groups: &Vec<LayerGroup>)
    ensures
        final(writer)@ == old(writer)@ + enc_groups_fixed(groups@.map_values(|g: LayerGroup| g@)),
{
    let ghost start = writer@;
    let ghost gv = groups@.map_values(|g: LayerGroup| g@);
    let mut i: usize = 0;
    assert(gv.subrange(0, 0) =~= Seq::<LayerGroupV>::empty());
    assert(start + Seq::<u8>::empty() =~= start);
    while i < groups.len()
        invariant
            i <= groups@.len(),
            gv == groups@.map_values(|g: LayerGroup| g@),
            writer@ == start + enc_groups_fixed(gv.subrange(0, i as int)),
        decreases groups.len() - i,
    {
        let group = &groups[i];
        let ghost before = writer@;
        writer.u32(group.state);
        writer.u32(group.write_layer);
        writer.f64_bits(group.scale);
        writer.u32(group.protect);
        let ghost lv = group.layers@.map_values(|l: Layer| l@);
        let ghost mid = writer@;
        let mut j: usize = 0;
        assert(lv.subrange(0, 0) =~= Seq::<LayerV>::empty());
        assert(mid + Seq::<u8>::empty() =~= mid);
        while j < group.layers.len()
            invariant
                j <= group.layers@.len(),
                lv == group.layers@.map_values(|l: Layer| l@),
                writer@ == mid + enc_layers_fixed(lv.subrange(0, j as int)),
            decreases group.layers.len() - j,
        {
            writer.u32(group.layers[j].state);
            writer.u32(group.layers[j].protect);
            assert(lv.subrange(0, j + 1).drop_last() =~= lv.subrange(0, j as int));
            assert(writer@ =~= mid + enc_layers_fixed(lv.subrange(0, j + 1)));
            j = j + 1;
        }
        assert(lv.subrange(0, j as int) =~= lv);
        assert(gv.subrange(0, i + 1).drop_last() =~= gv.subrange(0, i as int));
        assert(gv[i as int] == group@);
        assert(writer@ =~= start + enc_groups_fixed(gv.subrange(0, i + 1)));
        i = i + 1;
    }
    assert(gv.subrange(0, i as int) =~= gv);
}

fn write_group_layer_names(writer: &mut Writer, groups: &Vec<LayerGroup>) -> (res: Result<
    (),
    CodecError,
>)
    ensures
        wrote(
            old(writer)@,
            final(writer)@,
            res,
            enc_group_layer_names(groups@.map_values(|g: LayerGroup| g@)),
        ),
{
    let ghost start = writer@;
    let ghost gv = groups@.map_values(|g: LayerGroup| g@);
    let mut i: usize = 0;
    assert(gv.subrange(0, 0) =~= Seq::<LayerGroupV>::empty());
    assert(start + Seq::<u8>::empty() =~= start);
    while i < groups.len()
        invariant
            i <= groups@.len(),
            gv == groups@.map_values(|g: LayerGroup| g@),
            start == old(writer)@,
            wrote(start, writer@, Ok(()), enc_group_layer_names(gv.subrange(0, i as int))),
        decreases groups.len() - i,
    {
        let group = &groups[i];
        let ghost lv = group.layers@.map_values(|l: Layer| l@);
        let ghost mid = writer@;
        let mut j: usize = 0;
        assert(lv.subrange(0, 0) =~= Seq::<LayerV>::empty());
        assert(mid + Seq::<u8>::empty() =~= mid);
        while j < group.layers.len()
            invariant
                j <= group.layers@.len(),
                lv == group.layers@.map_values(|l: Layer| l@),
                wrote(mid, writer@, Ok(()), enc_layer_names(lv.subrange(0, j as int))),
                i < groups@.len(),
                *group == groups@[i as int],
                gv == groups@.map_values(|g: LayerGroup| g@),
                start == old(writer)@,
                wrote(start, mid, Ok(()), enc_group_layer_names(gv.subrange(0, i as int))),
            decreases group.layers.len() - j,
        {
            let ghost before = writer@;
            let r = writer.cstring(group.layers[j].name.as_str());
            assert(lv.subrange(0, j + 1).drop_last() =~= lv.subrange(0, j as int));
            assert(lv.subrange(0, j + 1).last() == group.layers@[j as int]@);
            proof {
                lemma_wrote_seq(
                    mid,
                    before,
                    writer@,
                    Ok(()),
                    enc_layer_names(lv.subrange(0, j as int)),
                    r,
                    enc_cstring(group.layers@[j as int].name@),
                );
            }
            if let Err(e) = r {
                proof {
                    lemma_wrote_seq(
                        start,
                        mid,
                        writer@,
                        Ok(()),
                        enc_group_layer_names(gv.subrange(0, i as int)),
                        Err(e),
                        enc_layer_names(lv.subrange(0, j + 1)),
                    );
                    assert(gv.subrange(0, i + 1).drop_last() =~= gv.subrange(0, i as int));
                    lemma_layer_names_err_extends(lv, j as int + 1);
                    lemma_group_layer_names_err_extends(gv, i as int + 1);
                }
                return Err(e);
            }
            j = j + 1;
        }
        assert(lv.subrange(0, j as int) =~= lv);
        proof {
            lemma_wrote_seq(
                start,
                mid,
                writer@,
                Ok(()),
                enc_group_layer_names(gv.subrange(0, i as int)),
                Ok(()),
                enc_layer_names(lv),
            );
            assert(gv.subrange(0, i + 1).drop_last() =~= gv.subrange(0, i as int));
            assert(gv[i as int] == group@);
        }
        i = i + 1;
    }
    assert(gv.subrange(0, i as int) =~= gv);
    Ok(())
}

proof fn lemma_layer_names_err_extends(ls: Seq<LayerV>, k: int)
    requires
        0 <= k <= ls.len(),
        enc_layer_names(ls.subrange(0, k)) is Err,
    ensures
        enc_layer_names(ls) == enc_layer_names(ls.subrange(0, k)),
    decreases ls.len() - k,
{
    if k < ls.len() {
        assert(ls.subrange(0, k + 1).drop_last() =~= ls.subrange(0, k));
        lemma_layer_names_err_extends(ls, k + 1);
    } else {
        assert(ls.subrange(0, k) =~= ls);
    }
}

proof fn lemma_group_layer_names_err_extends(gs: Seq<LayerGroupV>, k: int)
    requires
        0 <= k <= gs.len(),
        enc_group_layer_names(gs.subrange(0, k)) is Err,
    ensures
        enc_group_layer_names(gs) == enc_group_layer_names(gs.subrange(0, k)),
    decreases gs.len() - k,
{
    if k < gs.len() {
        assert(gs.subrange(0, k + 1).drop_last() =~= gs.subrange(0, k));
        lemma_group_layer_names_err_extends(gs, k + 1);
    } else {
        assert(gs.subrange(0, k) =~= gs);
    }
}


proof fn lemma_group_names_err_extends(gs: Seq<LayerGroupV>, k: int)
    requires
        0 <= k <= gs.len(),
        enc_group_names(gs.subrange(0, k)) is Err,
    ensures
        enc_group_names(gs) == enc_group_names(gs.subrange(0, k)),
    decreases gs.len() - k,
{
    if k < gs.len() {
        assert(gs.subrange(0, k + 1).drop_last() =~= gs.subrange(0, k));
        lemma_group_names_err_extends(gs, k + 1);
    } else {
        assert(gs.subrange(0, k) =~= gs);
    }
}

fn write_group_names(writer: &mut Writer, groups: &Vec<LayerGroup>) -> (res: Result<(), CodecError>)
    ensures
        wrote(
            old(writer)@,
            final(writer)@,
            res,
            enc_group_names(groups@.map_values(|g: LayerGroup| g@)),
        ),
{
    let ghost start = writer@;
    let ghost gv = groups@.map_values(|g: LayerGroup| g@);
    let mut i: usize = 0;
    assert(gv.subrange(0, 0) =~= Seq::<LayerGroupV>::empty());
    assert(start + Seq::<u8>::empty() =~= start);
    while i < groups.len()
        invariant
            i <= groups@.len(),
            gv == groups@.map_values(|g: LayerGroup| g@),
            start == old(writer)@,
            wrote(start, writer@, Ok(()), enc_group_names(gv.subrange(0, i as int))),
        decreases groups.len() - i,
    {
        let ghost before = writer@;
        let r = writer.cstring(groups[i].name.as_str());
        assert(gv.subrange(0, i + 1).drop_last() =~= gv.subrange(0, i as int));
        assert(gv.subrange(0, i + 1).last() == groups@[i as int]@);
        proof {
            lemma_wrote_seq(
                start,
                before,
                writer@,
                Ok(()),
                enc_group_names(gv.subrange(0, i as int)),
                r,
                enc_cstring(groups@[i as int].name@),
            );
        }
        if let Err(e) = r {
            proof {
                lemma_group_names_err_extends(gv, i as int + 1);
            }
            return Err(e);
        }
        i = i + 1;
    }
    assert(gv.subrange(0, i as int) =~= gv);
    Ok(())
}

fn write_pens(writer: &mut Writer, header: &Header)
    ensures
        final(writer)@ == old(writer)@ + enc_screen_pens(
            header.screen_pen_colors@,
            header.screen_pen_widths@,
            10,
        ) + enc_print_pens(
            header.print_pen_colors@,
            header.print_pen_widths@,
            header.print_point_radii@,
            10,
        ),
{
    let ghost start = writer@;
    let mut i: usize = 0;
    assert(start + enc_screen_pens(header.screen_pen_colors@, header.screen_pen_widths@, 0)
        =~= start);
    while i < 10
        invariant
            i <= 10,
            writer@ == start + enc_screen_pens(
                header.screen_pen_colors@,
                header.screen_pen_widths@,
                i as nat,
            ),
        decreases 10 - i,
    {
        writer.u32(header.screen_pen_colors[i]);
        writer.u32(header.screen_pen_widths[i]);
        assert(writer@ =~= start + enc_screen_pens(
            header.screen_pen_colors@,
            header.screen_pen_widths@,
            (i + 1) as nat,
        ));
        i = i + 1;
    }
    let ghost mid = writer@;
    let mut i: usize = 0;
    assert(mid + enc_print_pens(
        header.print_pen_colors@,
        header.print_pen_widths@,
        header.print_point_radii@,
        0,
    ) =~= mid);
    while i < 10
        invariant
            i <= 10,
            writer@ == mid + enc_print_pens(
                header.print_pen_colors@,
                header.print_pen_widths@,
                header.print_point_radii@,
                i as nat,
            ),
        decreases 10 - i,
    {
        writer.u32(header.print_pen_colors[i]);
        writer.u32(header.print_pen_widths[i]);
        writer.f64_bits(header.print_point_radii[i]);
        assert(writer@ =~= mid + enc_print_pens(
            header.print_pen_colors@,
            header.print_pen_widths@,
            header.print_point_radii@,
            (i + 1) as nat,
        ));
        i = i + 1;
    }
    assert(writer@ =~= start + enc_screen_pens(
        header.screen_pen_colors@,
        header.screen_pen_widths@,
        10,
    ) + enc_print_pens(
        header.print_pen_colors@,
        header.print_pen_widths@,
        header.print_point_radii@,
        10,
    ));
}

fn write_gap_a(writer: &mut Writer)
    ensures
        final(writer)@ == old(writer)@ + header_gap_a(),
{
    let ghost start = writer@;
    write_rep_u32(writer, 0, 21);
    writer.f64_bits(0);
    writer.f64_bits(0);
    writer.f64_bits(ONE_BITS);
    writer.u32(0);
    writer.u32(0);
    write_rep_f64(writer, 0, 5);
    assert(writer@ =~= start + header_gap_a());
}

fn write_gap_b(writer: &mut Writer)
    ensures
        final(writer)@ == old(writer)@ + header_gap_b(),
{
    let ghost start = writer@;
    writer.f64_bits(0);
    writer.f64_bits(0);
    writer.u32(0);
    writer.f64_bits(0);
    writer.f64_bits(0);
    writer.f64_bits(0);
    writer.u32(0);
    writer.f64_bits(ONE_BITS);
    writer.f64_bits(0);
    writer.f64_bits(0);
    writer.f64_bits(ONE_BITS);
    writer.f64_bits(0);
    writer.f64_bits(0);
    let ghost mid = writer@;
    let ghost item = f64b(0) + f64b(0) + f64b(0) + u32b(0);
    let mut i: usize = 0;
    assert(mid + rep(item, 0) =~= mid);
    while i < 10
        invariant
            i <= 10,
            item == f64b(0) + f64b(0) + f64b(0) + u32b(0),
            writer@ == mid + rep(item, i as nat),
        decreases 10 - i,
    {
        writer.f64_bits(0);
        writer.f64_bits(0);
        writer.f64_bits(0);
        writer.u32(0);
        assert(writer@ =~= mid + rep(item, (i + 1) as nat));
        i = i + 1;
    }
    write_rep_f64(writer, 0, 11);
    assert(writer@ =~= start + header_gap_b());
}

fn write_tail_a(writer: &mut Writer)
    ensures
        final(writer)@ == old(writer)@ + header_tail_a(),
{
    let ghost start = writer@;
    write_rep_u32(writer, 0, 89);
    write_rep_f64(writer, 0, 9);
    writer.u32(0);
    writer.u32(0);
    let ghost mid = writer@;
    let ghost item = u32b(0) + u32b(1);
    let mut i: usize = 0;
    assert(mid + rep(item, 0) =~= mid);
    while i < 257
        invariant
            i <= 257,
            item == u32b(0) + u32b(1),
            writer@ == mid + rep(item, i as nat),
        decreases 257 - i,
    {
        writer.u32(0);
        writer.u32(1);
        assert(writer@ =~= mid + rep(item, (i + 1) as nat));
        i = i + 1;
    }
    assert(writer@ =~= start + header_tail_a());
}

proof fn lemma_rep_res_err(item: Result<Seq<u8>, CodecErrorV>, n: nat)
    requires
        item is Err,
        n > 0,
    ensures
        rep_res(item, n) == item,
    decreases n,
{
    if n > 1 {
        lemma_rep_res_err(item, (n - 1) as nat);
        assert(rep_res(item, n) == cat_bytes(rep_res(item, (n - 1) as nat), item));
    } else {
        assert(rep_res(item, 0) == Ok::<Seq<u8>, CodecErrorV>(Seq::empty()));
        assert(rep_res(item, 1) == cat_bytes(rep_res(item, 0), item));
    }
}

fn write_tail_b(writer: &mut Writer) -> (res: Result<(), CodecError>)
    ensures
        wrote(old(writer)@, final(writer)@, res, header_tail_b()),
{
    let ghost start = writer@;
    let ghost item = cat_bytes(enc_cstring(Seq::empty()), Ok(u32b(0) + u32b(1) + f64b(TENTH_BITS)));
    let mut i: usize = 0;
    assert(start + Seq::<u8>::empty() =~= start);
    while i < 257
        invariant
            i <= 257,
            start == old(writer)@,
            item == cat_bytes(enc_cstring(Seq::empty()), Ok(u32b(0) + u32b(1) + f64b(TENTH_BITS))),
            wrote(start, writer@, Ok(()), rep_res(item, i as nat)),
        decreases 257 - i,
    {
        let ghost before = writer@;
        let r = writer.cstring("");
        proof {
            assert(""@ =~= Seq::<char>::empty()) by {
                reveal_strlit("");
            }
        }
        if let Err(e) = r {
            proof {
                lemma_rep_res_err(item, 257);
                assert(writer@.subrange(0, start.len() as int) =~= start) by {
                    if i > 0 {
                        assert(before.subrange(0, start.len() as int) =~= start);
                    }
                }
            }
            return Err(e);
        }
        let ghost mid = writer@;
        writer.u32(0);
        writer.u32(1);
        writer.f64_bits(TENTH_BITS);
        proof {
            let tail = u32b(0) + u32b(1) + f64b(TENTH_BITS);
            assert(writer@ =~= mid + tail);
            lemma_wrote_seq(before, mid, writer@, Ok(()), enc_cstring(Seq::empty()), Ok(()), Ok(tail));
            lemma_wrote_seq(start, before, writer@, Ok(()), rep_res(item, i as nat), Ok(()), item);
        }
        i = i + 1;
    }
    Ok(())
}

fn write_tail_c(writer: &mut Writer) -> (res: Result<(), CodecError>)
    ensures
        wrote(old(writer)@, final(writer)@, res, header_tail_c()),
{
    let ghost start = writer@;
    write_rep_u32(writer, 0, 132);
    let ghost first = writer@;
    let ghost item = cat_bytes(enc_cstring(Seq::empty()), Ok(u32b(0) + rep(f64b(0), 10)));
    let mut i: usize = 0;
    assert(first + Seq::<u8>::empty() =~= first);
    while i < 33
        invariant
            i <= 33,
            start == old(writer)@,
            first == start + rep(u32b(0), 132),
            item == cat_bytes(enc_cstring(Seq::empty()), Ok(u32b(0) + rep(f64b(0), 10))),
            wrote(first, writer@, Ok(()), rep_res(item, i as nat)),
        decreases 33 - i,
    {
        let ghost before = writer@;
        let r = writer.cstring("");
        proof {
            assert(""@ =~= Seq::<char>::empty()) by {
                reveal_strlit("");
            }
        }
        if let Err(e) = r {
            proof {
                lemma_rep_res_err(item, 33);
                assert(before.subrange(0, first.len() as int) =~= first);
                assert(writer@.subrange(0, start.len() as int) =~= start);
            }
            return Err(e);
        }
        let ghost mid = writer@;
        writer.u32(0);
        write_rep_f64(writer, 0, 10);
        proof {
            let tail = u32b(0) + rep(f64b(0), 10);
            assert(writer@ =~= mid + tail);
            lemma_wrote_seq(before, mid, writer@, Ok(()), enc_cstring(Seq::empty()), Ok(()), Ok(tail));
            lemma_wrote_seq(first, before, writer@, Ok(()), rep_res(item, i as nat), Ok(()), item);
        }
        i = i + 1;
    }
    proof {
        let b = rep_res(item, 33)->Ok_0;
        assert(writer@ =~= start + (rep(u32b(0), 132) + b));
    }
    Ok(())
}

fn write_tail_d(writer: &mut Writer)
    ensures
        final(writer)@ == old(writer)@ + header_tail_d(),
{
    let ghost start = writer@;
    let mut index: u32 = 1;
    assert(start + enc_text_sizes(0) =~= start);
    while index <= 10
        invariant
            1 <= index <= 11,
            writer@ == start + enc_text_sizes((index - 1) as nat),
        decreases 11 - index,
    {
        writer.f64_bits(TWO_AND_A_HALF_BITS);
        writer.f64_bits(TWO_AND_A_HALF_BITS);
        writer.f64_bits(0);
        writer.u32(index);
        assert(writer@ =~= start + enc_text_sizes(index as nat));
        index = index + 1;
    }
    writer.f64_bits(TWO_AND_A_HALF_BITS);
    writer.f64_bits(TWO_AND_A_HALF_BITS);
    writer.f64_bits(0);
    writer.u32(1);
    writer.u32(1);
    writer.f64_bits(0);
    writer.f64_bits(0);
    writer.u32(0);
    write_rep_f64(writer, 0, 6);
    assert(writer@ =~= start + header_tail_d());
}

fn signature_vec() -> (b: Vec<u8>)
    ensures
        b@ == signature_bytes(),
{
    let b = vec![0x4au8, 0x77, 0x77, 0x44, 0x61, 0x74, 0x61, 0x2e];
    assert(b@ =~= signature_bytes());
    b
}

/// Writes the version 6.00 header of `header`.
pub fn write_header(writer: &mut Writer, header: &Header) -> (res: Result<(), CodecError>)
    requires
        header_shape(header@),
    ensures
        wrote(old(writer)@, final(writer)@, res, enc_header(header@)),
{
    reveal(enc_header);
    let ghost h = header@;
    let ghost start = writer@;
    let sig = signature_vec();
    writer.raw(sig.as_slice());
    writer.u32(EXPORT_VERSION);
    let ghost s1 = writer@;
    let ghost e0: Result<Seq<u8>, CodecErrorV> = Ok(signature_bytes() + u32b(600));
    assert(s1 =~= start + (signature_bytes() + u32b(600)));
    let r = writer.cstring(header.memo.as_str());
    proof { lemma_wrote_seq(start, s1, writer@, Ok(()), e0, r, enc_cstring(h.memo)); }
    if let Err(e) = r {
        return Err(e);
    }
    let ghost r1 = cat_bytes(e0, enc_cstring(h.memo));
    let ghost s2 = writer@;
    writer.u32(header.paper_size);
    writer.u32(header.write_layer_group);
    write_groups_fixed(writer, &header.layer_groups);
    write_gap_a(writer);
    let ghost p1 = u32b(h.paper_size) + u32b(h.write_layer_group) + enc_groups_fixed(h.layer_groups)
        + header_gap_a();
    assert(writer@ =~= s2 + p1);
    proof { lemma_wrote_seq(start, s2, writer@, Ok(()), r1, Ok(()), Ok(p1)); }
    let ghost r2 = cat_bytes(r1, Ok(p1));
    let ghost s3 = writer@;
    let r = write_group_layer_names(writer, &header.layer_groups);
    proof { lemma_wrote_seq(start, s3, writer@, Ok(()), r2, r, enc_group_layer_names(h.layer_groups)); }
    if let Err(e) = r {
        return Err(e);
    }
    let ghost r3 = cat_bytes(r2, enc_group_layer_names(h.layer_groups));
    let ghost s4 = writer@;
    let r = write_group_names(writer, &header.layer_groups);
    proof { lemma_wrote_seq(start, s4, writer@, Ok(()), r3, r, enc_group_names(h.layer_groups)); }
    if let Err(e) = r {
        return Err(e);
    }
    let ghost r4 = cat_bytes(r3, enc_group_names(h.layer_groups));
    let ghost s5 = writer@;
    write_gap_b(writer);
    write_pens(writer, header);
    write_tail_a(writer);
    let ghost p2 = header_gap_b() + enc_screen_pens(h.screen_pen_colors@, h.screen_pen_widths@, 10)
        + enc_print_pens(h.print_pen_colors@, h.print_pen_widths@, h.print_point_radii@, 10)
        + header_tail_a();
    assert(writer@ =~= s5 + p2);
    proof { lemma_wrote_seq(start, s5, writer@, Ok(()), r4, Ok(()), Ok(p2)); }
    let ghost r5 = cat_bytes(r4, Ok(p2));
    let ghost s6 = writer@;
    let r = write_tail_b(writer);
    proof { lemma_wrote_seq(start, s6, writer@, Ok(()), r5, r, header_tail_b()); }
    if let Err(e) = r {
        return Err(e);
    }
    let ghost r6 = cat_bytes(r5, header_tail_b());
    let ghost s7 = writer@;
    let r = write_tail_c(writer);
    proof { lemma_wrote_seq(start, s7, writer@, Ok(()), r6, r, header_tail_c()); }
    if let Err(e) = r {
        return Err(e);
    }
    let ghost r7 = cat_bytes(r6, header_tail_c());
    let ghost s8 = writer@;
    write_tail_d(writer);
    proof { lemma_wrote_seq(start, s8, writer@, Ok(()), r7, Ok(()), Ok(header_tail_d())); }
    Ok(())
}

} // verus!
