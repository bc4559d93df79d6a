//! The conv micro-kernel's j-tile. The fold's `(k / div, k % div)` split
//! makes every tap offset a compile-time constant, so the tap nest is
//! unrolled (kq outer, kr inner, which walks k ascending) and each tap reads
//! one `a` element and sweeps the lanes of `b` from `b_row + j0 + offset`.
//! A constant-width tile keeps its accumulator in one SSA vector; any other
//! tile keeps it in memory and seeds and stores it with lane loops.
use vstd::prelude::*;
use vstd::seq_lib::lemma_concat_associative;
use crate::access::{gep_line, load_line, store_line};
use crate::arith::bin_line;
use crate::emit::{
    FnEmit, lemma_tile_index_counter, line_text, op_line, opt_text, splat_text, term_views, tile_index_upto,
    tmp_name, vec_text,
};
use crate::llt::{align_ok, llt_algn, parse_u64};
use crate::num;
use crate::site::{KSplit, TileSite};
use crate::tile::{lane_head_text, lane_tail_text};

verus! {

/// What one conv j-tile emits against: the accumulator scratch, the element
/// and array types, the operand pointers, the lane counter and the
/// arithmetic instructions.
pub struct ConvTileCtx {
    /// The j-tile width in lanes.
    pub tile_j: u64,
    pub acc: String,
    pub acc_llt: String,
    pub elem_llt: String,
    pub seed: String,
    pub mul_op: &'static str,
    pub add_op: &'static str,
    pub a_ptr: String,
    pub b_ptr: String,
    pub out_ptr: String,
    pub a_llt: String,
    pub b_llt: String,
    pub out_llt: String,
    pub lane_ctr: String,
    pub contract_flag: &'static str,
}

/// `<v> = <mul_op><flag> <ty>` on `a` and `b` in the source's order.
pub open spec fn conv_product(
    v: Seq<char>,
    site: TileSite,
    ctx: ConvTileCtx,
    ty: Seq<char>,
    a: Seq<char>,
    b: Seq<char>,
) -> Seq<char> {
    if site.mul_a_first {
        bin_line(v, ctx.mul_op@ + ctx.contract_flag@, ty, a, b)
    } else {
        bin_line(v, ctx.mul_op@ + ctx.contract_flag@, ty, b, a)
    }
}

/// `<v> = <add_op><flag> <ty>` on the accumulator and the product in the
/// source's order.
pub open spec fn conv_sum(
    v: Seq<char>,
    site: TileSite,
    ctx: ConvTileCtx,
    ty: Seq<char>,
    acc: Seq<char>,
    product: Seq<char>,
) -> Seq<char> {
    if site.add_acc_first {
        bin_line(v, ctx.add_op@ + ctx.contract_flag@, ty, acc, product)
    } else {
        bin_line(v, ctx.add_op@ + ctx.contract_flag@, ty, product, acc)
    }
}

/// Tap `i`'s offset into `b`: `cq * (i / div) + cr * (i % div)`.
pub open spec fn tap_offset(ks: KSplit, i: nat) -> nat {
    ks.cq as nat * (i / ks.div as nat) + ks.cr as nat * (i % ks.div as nat)
}

/// The conv window's shape: a k split with a nonzero divisor that divides
/// the fold, whose every tap offset fits in a `u64`.
pub open spec fn conv_window_ok(site: TileSite) -> bool {
    &&& site.b.ksplit is Some
    &&& site.b.ksplit.unwrap().div > 0
    &&& site.k % site.b.ksplit.unwrap().div == 0
    &&& site.k == 0 || {
        let ks = site.b.ksplit.unwrap();
        ks.cq * (site.k / ks.div - 1) + ks.cr * (ks.div - 1) <= u64::MAX
    }
}

/// Tap `i`'s `a` element, ordinals from `t`: `a[a_row + a.ck * i]` (or
/// `a[0]`), its address then its value. `(next, text, value)`.
pub open spec fn conv_a_read(t: nat, site: TileSite, ctx: ConvTileCtx, a_row: Option<Seq<char>>, i: nat) -> (
    nat,
    Seq<char>,
    Seq<char>,
) {
    let a = tile_index_upto(t, a_row, seq![(site.a.ck, num::dec_nat(i))], 1);
    let a_index = match a.1 {
        Some(s) => s,
        None => "0"@,
    };
    let u = a.0;
    (
        u + 2,
        a.2 + gep_line(tmp_name(u), ctx.a_llt@, ctx.a_ptr@, a_index) + load_line(
            tmp_name(u + 1),
            ctx.elem_llt@,
            tmp_name(u),
        ),
        tmp_name(u + 1),
    )
}

/// Where a tap's `b` run starts: the tile's start itself at offset 0, else
/// `b_tile + off` minted into `tmp(t)`. `(next, text, start)`.
pub open spec fn conv_b_start(t: nat, b_tile: Seq<char>, off: nat) -> (nat, Seq<char>, Seq<char>) {
    if off == 0 {
        (t, Seq::empty(), b_tile)
    } else {
        (t + 1, op_line(tmp_name(t), "add"@, b_tile, num::dec_nat(off)), tmp_name(t))
    }
}

/// `b[b_start + lane]` times `a`, ordinals from `w`, the product in `tmp(w+3)`.
pub open spec fn conv_lane_product(
    w: nat,
    site: TileSite,
    ctx: ConvTileCtx,
    a_value: Seq<char>,
    b_start: Seq<char>,
    lane: Seq<char>,
) -> Seq<char> {
    op_line(tmp_name(w), "add"@, b_start, lane) + gep_line(tmp_name(w + 1), ctx.b_llt@, ctx.b_ptr@, tmp_name(w))
        + load_line(tmp_name(w + 2), ctx.elem_llt@, tmp_name(w + 1)) + conv_product(
        tmp_name(w + 3),
        site,
        ctx,
        ctx.elem_llt@,
        a_value,
        tmp_name(w + 2),
    )
}

/// `acc[lane] = acc[lane] + product` in the source's order, ordinals from `w`.
pub open spec fn conv_acc_add(w: nat, site: TileSite, ctx: ConvTileCtx, lane: Seq<char>, product: Seq<char>) -> Seq<
    char,
> {
    gep_line(tmp_name(w), ctx.acc_llt@, ctx.acc@, lane) + load_line(tmp_name(w + 1), ctx.elem_llt@, tmp_name(w))
        + conv_sum(tmp_name(w + 2), site, ctx, ctx.elem_llt@, tmp_name(w + 1), product) + store_line(
        ctx.elem_llt@,
        tmp_name(w + 2),
        tmp_name(w),
    )
}

/// One tap's lane sweep, ordinals from `u`: `acc[lane] = acc[lane] + a *
/// b[b_start + lane]` (both in the source's order) over lanes `0..bound`.
pub open spec fn conv_lane(
    u: nat,
    site: TileSite,
    ctx: ConvTileCtx,
    a_value: Seq<char>,
    b_start: Seq<char>,
    bound: Seq<char>,
) -> (nat, Seq<char>) {
    let lane = tmp_name(u + 3);
    (
        u + 13,
        lane_head_text(u, ctx.lane_ctr@, bound) + conv_lane_product(u + 5, site, ctx, a_value, b_start, lane)
            + conv_acc_add(u + 9, site, ctx, lane, tmp_name(u + 8)) + lane_tail_text(u, u + 12, ctx.lane_ctr@),
    )
}

/// Tap `i` of the memory-form tile, ordinals from `t`.
pub open spec fn conv_tap(
    t: nat,
    site: TileSite,
    ctx: ConvTileCtx,
    a_row: Option<Seq<char>>,
    b_tile: Seq<char>,
    bound: Seq<char>,
    i: nat,
) -> (nat, Seq<char>) {
    let a = conv_a_read(t, site, ctx, a_row, i);
    let b = conv_b_start(a.0, b_tile, tap_offset(site.b.ksplit.unwrap(), i));
    let lane = conv_lane(b.0, site, ctx, a.2, b.2, bound);
    (lane.0, a.1 + b.1 + lane.1)
}

/// Taps `0..n` of the memory-form tile, ordinals from `t`.
pub open spec fn conv_taps(
    t: nat,
    site: TileSite,
    ctx: ConvTileCtx,
    a_row: Option<Seq<char>>,
    b_tile: Seq<char>,
    bound: Seq<char>,
    n: nat,
) -> (nat, Seq<char>)
    decreases n,
{
    if n == 0 {
        (t, Seq::empty())
    } else {
        let prev = conv_taps(t, site, ctx, a_row, b_tile, bound, (n - 1) as nat);
        let tap = conv_tap(prev.0, site, ctx, a_row, b_tile, bound, (n - 1) as nat);
        (tap.0, prev.1 + tap.1)
    }
}

/// The seed sweep, ordinals from `t`: `acc[lane] = seed` over `0..bound`.
pub open spec fn conv_seed_text(t: nat, ctx: ConvTileCtx, bound: Seq<char>) -> (nat, Seq<char>) {
    (
        t + 7,
        lane_head_text(t, ctx.lane_ctr@, bound) + gep_line(tmp_name(t + 5), ctx.acc_llt@, ctx.acc@, tmp_name(t + 3))
            + store_line(ctx.elem_llt@, ctx.seed@, tmp_name(t + 5)) + lane_tail_text(t, t + 6, ctx.lane_ctr@),
    )
}

/// The store sweep, ordinals from `t`: `out[row0 + j0 + lane] = acc[lane]`
/// over `0..bound`, the row start hoisted into `tmp(t)`.
pub open spec fn conv_store_text(t: nat, ctx: ConvTileCtx, j0: Seq<char>, row0: Seq<char>, bound: Seq<char>) -> (
    nat,
    Seq<char>,
) {
    let h = t + 1;
    let lane = tmp_name(h + 3);
    let elem = ctx.elem_llt@;
    (
        h + 10,
        op_line(tmp_name(t), "add"@, row0, j0) + lane_head_text(h, ctx.lane_ctr@, bound) + gep_line(
            tmp_name(h + 5),
            ctx.acc_llt@,
            ctx.acc@,
            lane,
        ) + load_line(tmp_name(h + 6), elem, tmp_name(h + 5)) + op_line(tmp_name(h + 7), "add"@, tmp_name(t), lane)
            + gep_line(tmp_name(h + 8), ctx.out_llt@, ctx.out_ptr@, tmp_name(h + 7)) + store_line(
            elem,
            tmp_name(h + 6),
            tmp_name(h + 8),
        ) + lane_tail_text(h, h + 9, ctx.lane_ctr@),
    )
}

/// The memory-form tile, ordinals from `t`: seed, the `b` tile start
/// `b_row + j0`, every tap, then the store sweep.
#[verifier::opaque]
pub open spec fn conv_tile_mem_text(
    t: nat,
    site: TileSite,
    ctx: ConvTileCtx,
    j0: Seq<char>,
    row0: Seq<char>,
    a_row: Option<Seq<char>>,
    b_row: Option<Seq<char>>,
    bound: Seq<char>,
) -> (nat, Seq<char>) {
    let seed = conv_seed_text(t, ctx, bound);
    let b = tile_index_upto(seed.0, b_row, seq![(1u64, j0)], 1);
    let taps = conv_taps(b.0, site, ctx, a_row, b.1.unwrap(), bound, site.k as nat);
    let store = conv_store_text(taps.0, ctx, j0, row0, bound);
    (store.0, seed.1 + b.2 + taps.1 + store.1)
}

/// `<v> = load <ty>, ptr <ptr>, align <align>`.
pub open spec fn aligned_load_line(v: Seq<char>, ty: Seq<char>, ptr: Seq<char>, align: nat) -> Seq<char> {
    line_text(v + " = load "@ + ty + ", ptr "@ + ptr + ", align "@ + num::dec_nat(align))
}

/// `store <ty> <val>, ptr <ptr>, align <align>`.
pub open spec fn aligned_store_line(ty: Seq<char>, val: Seq<char>, ptr: Seq<char>, align: nat) -> Seq<char> {
    line_text("store "@ + ty + " "@ + val + ", ptr "@ + ptr + ", align "@ + num::dec_nat(align))
}

/// One vector FMA of the vector-form tile, ordinals from `w`: `TJ` lanes
/// of `b` loaded from `b_start` (at the element's alignment), times the
/// splatted `a`, added to `acc`; the new accumulator is `tmp(w+3)`.
pub open spec fn conv_vec_fma(
    w: nat,
    site: TileSite,
    ctx: ConvTileCtx,
    a_vec: Seq<char>,
    b_start: Seq<char>,
    acc: Seq<char>,
) -> Seq<char> {
    let vllt = vec_text(ctx.elem_llt@, ctx.tile_j);
    gep_line(tmp_name(w), ctx.b_llt@, ctx.b_ptr@, b_start) + aligned_load_line(
        tmp_name(w + 1),
        vllt,
        tmp_name(w),
        llt_algn(ctx.elem_llt@),
    ) + conv_product(tmp_name(w + 2), site, ctx, vllt, a_vec, tmp_name(w + 1)) + conv_sum(
        tmp_name(w + 3),
        site,
        ctx,
        vllt,
        acc,
        tmp_name(w + 2),
    )
}

/// Tap `i` of the vector-form tile on the accumulator `acc`, ordinals from
/// `t`: `(next, text, new accumulator)`.
pub open spec fn conv_vec_tap(
    t: nat,
    site: TileSite,
    ctx: ConvTileCtx,
    a_row: Option<Seq<char>>,
    b_tile: Seq<char>,
    acc: Seq<char>,
    i: nat,
) -> (nat, Seq<char>, Seq<char>) {
    let a = conv_a_read(t, site, ctx, a_row, i);
    let s = a.0;
    let b = conv_b_start(s + 2, b_tile, tap_offset(site.b.ksplit.unwrap(), i));
    let w = b.0;
    (
        w + 4,
        a.1 + splat_text(s, ctx.elem_llt@, ctx.tile_j, a.2) + b.1 + conv_vec_fma(
            w,
            site,
            ctx,
            tmp_name(s + 1),
            b.2,
            acc,
        ),
        tmp_name(w + 3),
    )
}

/// Taps `0..n` of the vector-form tile from the accumulator `acc`, ordinals
/// from `t`: `(next, text, accumulator)`.
pub open spec fn conv_vec_taps(
    t: nat,
    site: TileSite,
    ctx: ConvTileCtx,
    a_row: Option<Seq<char>>,
    b_tile: Seq<char>,
    acc: Seq<char>,
    n: nat,
) -> (nat, Seq<char>, Seq<char>)
    decreases n,
{
    if n == 0 {
        (t, Seq::empty(), acc)
    } else {
        let prev = conv_vec_taps(t, site, ctx, a_row, b_tile, acc, (n - 1) as nat);
        let tap = conv_vec_tap(prev.0, site, ctx, a_row, b_tile, prev.2, (n - 1) as nat);
        (tap.0, prev.1 + tap.1, tap.2)
    }
}

/// The vector-form tile, ordinals from `t`: the `b` tile start, the seed
/// splat, every tap, then one vector store to `out[row0 + j0 ..]` at the
/// element's alignment.
#[verifier::opaque]
pub open spec fn conv_tile_vec_text(
    t: nat,
    site: TileSite,
    ctx: ConvTileCtx,
    j0: Seq<char>,
    row0: Seq<char>,
    a_row: Option<Seq<char>>,
    b_row: Option<Seq<char>>,
) -> (nat, Seq<char>) {
    let b = tile_index_upto(t, b_row, seq![(1u64, j0)], 1);
    let s = b.0;
    let taps = conv_vec_taps(s + 2, site, ctx, a_row, b.1.unwrap(), tmp_name(s + 1), site.k as nat);
    let u = taps.0;
    (
        u + 2,
        b.2 + splat_text(s, ctx.elem_llt@, ctx.tile_j, ctx.seed@) + taps.1 + op_line(tmp_name(u), "add"@, row0, j0)
            + gep_line(tmp_name(u + 1), ctx.out_llt@, ctx.out_ptr@, tmp_name(u)) + aligned_store_line(
            vec_text(ctx.elem_llt@, ctx.tile_j),
            taps.2,
            tmp_name(u + 1),
            llt_algn(ctx.elem_llt@),
        ),
    )
}

/// A conv j-tile, ordinals from `t`: the vector form when `bound` spells
/// the tile width, the memory form otherwise.
pub open spec fn conv_tile_text(
    t: nat,
    site: TileSite,
    ctx: ConvTileCtx,
    j0: Seq<char>,
    row0: Seq<char>,
    a_row: Option<Seq<char>>,
    b_row: Option<Seq<char>>,
    bound: Seq<char>,
) -> (nat, Seq<char>) {
    if parse_u64(bound) == Some(ctx.tile_j) {
        conv_tile_vec_text(t, site, ctx, j0, row0, a_row, b_row)
    } else {
        conv_tile_mem_text(t, site, ctx, j0, row0, a_row, b_row, bound)
    }
}

proof fn lemma_conv_vec_taps_width(
    t: nat,
    site: TileSite,
    ctx: ConvTileCtx,
    a_row: Option<Seq<char>>,
    b_tile: Seq<char>,
    acc: Seq<char>,
    n: nat,
)
    ensures
        t <= conv_vec_taps(t, site, ctx, a_row, b_tile, acc, n).0 <= t + 11 * n,
    decreases n,
{
    if n > 0 {
        lemma_conv_vec_taps_width(t, site, ctx, a_row, b_tile, acc, (n - 1) as nat);
        let prev = conv_vec_taps(t, site, ctx, a_row, b_tile, acc, (n - 1) as nat);
        lemma_tile_index_counter(prev.0, a_row, seq![(site.a.ck, num::dec_nat((n - 1) as nat))], 1);
    }
}

proof fn lemma_conv_taps_width(
    t: nat,
    site: TileSite,
    ctx: ConvTileCtx,
    a_row: Option<Seq<char>>,
    b_tile: Seq<char>,
    bound: Seq<char>,
    n: nat,
)
    ensures
        t <= conv_taps(t, site, ctx, a_row, b_tile, bound, n).0 <= t + 18 * n,
    decreases n,
{
    if n > 0 {
        lemma_conv_taps_width(t, site, ctx, a_row, b_tile, bound, (n - 1) as nat);
        let prev = conv_taps(t, site, ctx, a_row, b_tile, bound, (n - 1) as nat);
        lemma_tile_index_counter(prev.0, a_row, seq![(site.a.ck, num::dec_nat((n - 1) as nat))], 1);
    }
}

/// A conv j-tile takes at most `20 + 18*K` ordinals.
pub proof fn lemma_conv_tile_width(
    t: nat,
    site: TileSite,
    ctx: ConvTileCtx,
    j0: Seq<char>,
    row0: Seq<char>,
    a_row: Option<Seq<char>>,
    b_row: Option<Seq<char>>,
    bound: Seq<char>,
)
    ensures
        t <= conv_tile_text(t, site, ctx, j0, row0, a_row, b_row, bound).0 <= t + 20 + 18 * site.k,
{
    reveal(conv_tile_vec_text);
    reveal(conv_tile_mem_text);
    lemma_b_tile_some(t, b_row, j0);
    let b = tile_index_upto(t, b_row, seq![(1u64, j0)], 1);
    lemma_conv_vec_taps_width(b.0 + 2, site, ctx, a_row, b.1.unwrap(), tmp_name(b.0 + 1), site.k as nat);
    lemma_b_tile_some(t + 7, b_row, j0);
    let bm = tile_index_upto(t + 7, b_row, seq![(1u64, j0)], 1);
    lemma_conv_taps_width(bm.0, site, ctx, a_row, bm.1.unwrap(), bound, site.k as nat);
}

/// Tap `(kq, kr)` of a window is tap `kq * div + kr`, inside the fold, and
/// its offset fits.
pub(crate) proof fn lemma_tap_split(site: TileSite, kq: u64, kr: u64)
    requires
        conv_window_ok(site),
        kq < site.k / site.b.ksplit.unwrap().div,
        kr < site.b.ksplit.unwrap().div,
    ensures
        ({
            let ks = site.b.ksplit.unwrap();
            let i = kq * ks.div + kr;
            &&& i < site.k
            &&& ks.cq * kq + ks.cr * kr <= u64::MAX
            &&& tap_offset(ks, i as nat) == ks.cq * kq + ks.cr * kr
        }),
{
    let ks = site.b.ksplit.unwrap();
    let div = ks.div as int;
    let k = site.k as int;
    let groups = k / div;
    vstd::arithmetic::div_mod::lemma_fundamental_div_mod(k, div);
    assert(k == groups * div) by (nonlinear_arith)
        requires
            k == div * groups + k % div,
            k % div == 0,
    ;
    assert(kq * div + kr < site.k) by (nonlinear_arith)
        requires
            kq < groups,
            kr < div,
            site.k == groups * div,
    ;
    let i = kq * div + kr;
    vstd::arithmetic::div_mod::lemma_fundamental_div_mod_converse(i, div, kq as int, kr as int);
    assert(ks.cq * kq <= ks.cq * (groups - 1)) by (nonlinear_arith)
        requires
            kq < groups,
    ;
    assert(ks.cr * kr <= ks.cr * (div - 1)) by (nonlinear_arith)
        requires
            kr < div,
    ;
}

/// After `kq` full groups of a window, `kq * div` taps are done.
pub(crate) proof fn lemma_group_step(kq: u64, div: u64)
    ensures
        (kq + 1) * div == kq * div + div,
{
    assert((kq + 1) * div == kq * div + div) by (nonlinear_arith);
}

/// The `b` tile start `b_row + j0` always has a value.
pub(crate) proof fn lemma_b_tile_some(t: nat, b_row: Option<Seq<char>>, j0: Seq<char>)
    ensures
        tile_index_upto(t, b_row, seq![(1u64, j0)], 1).1 is Some,
        t <= tile_index_upto(t, b_row, seq![(1u64, j0)], 1).0 <= t + 1,
{
    let terms = seq![(1u64, j0)];
    assert(tile_index_upto(t, b_row, terms, 0) == (t, b_row, Seq::<char>::empty()));
}

impl<'a> FnEmit<'a> {
    /// Seed the accumulator: `acc[lane] = seed` over lanes `0..bound`.
    #[verifier::spinoff_prover]
    fn emit_conv_seed(&mut self, ctx: &ConvTileCtx, bound: &str)
        requires
            old(self).next + 7 <= u32::MAX,
        ensures
            ({
                let res = conv_seed_text(old(self).next as nat, *ctx, bound@);
                &&& final(self).next == res.0
                &&& final(self).body@ == old(self).body@ + res.1
            }),
            final(self).allocas == old(self).allocas,
            final(self).heap_used == old(self).heap_used,
            final(self).same_setup(*old(self)),
    {
        let ghost t = old(self).next as nat;
        let ghost o = old(self).body@;
        let (head, done, lane) = self.emit_lane_head(ctx.lane_ctr.as_str(), bound);
        let ghost w1 = lane_head_text(t, ctx.lane_ctr@, bound@);
        let seed_ptr = self.emit_gep(ctx.acc_llt.as_str(), ctx.acc.as_str(), lane.as_str());
        let ghost p2 = gep_line(tmp_name(t + 5), ctx.acc_llt@, ctx.acc@, tmp_name(t + 3));
        proof {
            lemma_concat_associative(o, w1, p2);
        }
        self.emit_store(ctx.elem_llt.as_str(), ctx.seed.as_str(), seed_ptr.as_str());
        let ghost p3 = store_line(ctx.elem_llt@, ctx.seed@, tmp_name(t + 5));
        proof {
            lemma_concat_associative(o, w1 + p2, p3);
        }
        self.emit_loop_tail(ctx.lane_ctr.as_str(), lane.as_str(), head.as_str(), done.as_str());
        proof {
            lemma_concat_associative(o, w1 + p2 + p3, lane_tail_text(t, t + 6, ctx.lane_ctr@));
        }
    }

    /// Tap `i`'s `a` element: `a[a_row + a.ck * i]` (or `a[0]`); returns it.
    #[verifier::spinoff_prover]
    pub(crate) fn emit_conv_a_read(&mut self, site: &TileSite, ctx: &ConvTileCtx, a_row: &Option<String>, i: u64) -> (v:
        String)
        requires
            old(self).next + 4 <= u32::MAX,
        ensures
            ({
                let res = conv_a_read(old(self).next as nat, *site, *ctx, opt_text(*a_row), i as nat);
                &&& final(self).next == res.0
                &&& final(self).body@ == old(self).body@ + res.1
                &&& v@ == res.2
            }),
            final(self).allocas == old(self).allocas,
            final(self).heap_used == old(self).heap_used,
            final(self).same_setup(*old(self)),
    {
        let ghost t = old(self).next as nat;
        let ghost o = old(self).body@;
        let k_tap = num::u64_to_string(i);
        let base = match a_row {
            Some(b) => Some(b.clone()),
            None => None,
        };
        let terms = [(site.a.ck, k_tap.as_str())];
        let ghost tv = seq![(site.a.ck, num::dec_nat(i as nat))];
        assert(term_views(terms@) =~= tv);
        proof {
            lemma_tile_index_counter(t, opt_text(*a_row), tv, 1);
        }
        let a_index = match self.emit_tile_index(base, &terms) {
            Some(s) => s,
            None => String::from_str("0"),
        };
        let ghost a = tile_index_upto(t, opt_text(*a_row), tv, 1);
        let ghost u = a.0;
        let a_elem_ptr = self.emit_gep(ctx.a_llt.as_str(), ctx.a_ptr.as_str(), a_index.as_str());
        let ghost a_idx = match a.1 {
            Some(s) => s,
            None => "0"@,
        };
        let ghost p1 = gep_line(tmp_name(u), ctx.a_llt@, ctx.a_ptr@, a_idx);
        proof {
            lemma_concat_associative(o, a.2, p1);
        }
        let a_value = self.emit_load(ctx.elem_llt.as_str(), a_elem_ptr.as_str());
        let ghost p2 = load_line(tmp_name(u + 1), ctx.elem_llt@, tmp_name(u));
        proof {
            lemma_concat_associative(o, a.2 + p1, p2);
        }
        a_value
    }

    /// Where a tap's `b` run starts: `b_tile`, shifted by `off` when nonzero.
    pub(crate) fn emit_conv_b_start(&mut self, b_tile: &str, off: u64) -> (r: String)
        requires
            old(self).next < u32::MAX,
        ensures
            ({
                let res = conv_b_start(old(self).next as nat, b_tile@, off as nat);
                &&& final(self).next == res.0
                &&& final(self).body@ == old(self).body@ + res.1
                &&& r@ == res.2
            }),
            final(self).allocas == old(self).allocas,
            final(self).heap_used == old(self).heap_used,
            final(self).same_setup(*old(self)),
    {
        if off == 0 {
            let r = String::from_str(b_tile);
            assert(old(self).body@ + Seq::<char>::empty() =~= old(self).body@);
            r
        } else {
            let off_text = num::u64_to_string(off);
            self.emit_op("add", b_tile, off_text.as_str())
        }
    }

    /// `b[b_start + lane]` times `a`, in the source's order; returns the product.
    #[verifier::spinoff_prover]
    fn emit_conv_lane_product(
        &mut self,
        site: &TileSite,
        ctx: &ConvTileCtx,
        a_value: &str,
        b_start: &str,
        lane: &str,
    ) -> (v: String)
        requires
            old(self).next + 4 <= u32::MAX,
        ensures
            v@ == tmp_name(old(self).next as nat + 3),
            final(self).next == old(self).next + 4,
            final(self).body@ == old(self).body@ + conv_lane_product(
                old(self).next as nat,
                *site,
                *ctx,
                a_value@,
                b_start@,
                lane@,
            ),
            final(self).allocas == old(self).allocas,
            final(self).heap_used == old(self).heap_used,
            final(self).same_setup(*old(self)),
    {
        let ghost w = old(self).next as nat;
        let ghost o = old(self).body@;
        let elem = ctx.elem_llt.as_str();
        let index = self.emit_op("add", b_start, lane);
        let ghost p1 = op_line(tmp_name(w), "add"@, b_start@, lane@);
        let b_elem_ptr = self.emit_gep(ctx.b_llt.as_str(), ctx.b_ptr.as_str(), index.as_str());
        let ghost p2 = gep_line(tmp_name(w + 1), ctx.b_llt@, ctx.b_ptr@, tmp_name(w));
        proof {
            lemma_concat_associative(o, p1, p2);
        }
        let b_value = self.emit_load(elem, b_elem_ptr.as_str());
        let ghost p3 = load_line(tmp_name(w + 2), ctx.elem_llt@, tmp_name(w + 1));
        proof {
            lemma_concat_associative(o, p1 + p2, p3);
        }
        let product = if site.mul_a_first {
            self.emit_flagged(ctx.mul_op, ctx.contract_flag, elem, a_value, b_value.as_str())
        } else {
            self.emit_flagged(ctx.mul_op, ctx.contract_flag, elem, b_value.as_str(), a_value)
        };
        proof {
            lemma_concat_associative(
                o,
                p1 + p2 + p3,
                conv_product(tmp_name(w + 3), *site, *ctx, ctx.elem_llt@, a_value@, tmp_name(w + 2)),
            );
        }
        product
    }

    /// `acc[lane] = acc[lane] + product` in the source's order.
    #[verifier::spinoff_prover]
    fn emit_conv_acc_add(&mut self, site: &TileSite, ctx: &ConvTileCtx, lane: &str, product: &str)
        requires
            old(self).next + 3 <= u32::MAX,
        ensures
            final(self).next == old(self).next + 3,
            final(self).body@ == old(self).body@ + conv_acc_add(old(self).next as nat, *site, *ctx, lane@, product@),
            final(self).allocas == old(self).allocas,
            final(self).heap_used == old(self).heap_used,
            final(self).same_setup(*old(self)),
    {
        let ghost w = old(self).next as nat;
        let ghost o = old(self).body@;
        let elem = ctx.elem_llt.as_str();
        let acc_ptr = self.emit_gep(ctx.acc_llt.as_str(), ctx.acc.as_str(), lane);
        let ghost p1 = gep_line(tmp_name(w), ctx.acc_llt@, ctx.acc@, lane@);
        let acc_value = self.emit_load(elem, acc_ptr.as_str());
        let ghost p2 = load_line(tmp_name(w + 1), ctx.elem_llt@, tmp_name(w));
        proof {
            lemma_concat_associative(o, p1, p2);
        }
        let sum = if site.add_acc_first {
            self.emit_flagged(ctx.add_op, ctx.contract_flag, elem, acc_value.as_str(), product)
        } else {
            self.emit_flagged(ctx.add_op, ctx.contract_flag, elem, product, acc_value.as_str())
        };
        let ghost p3 = conv_sum(tmp_name(w + 2), *site, *ctx, ctx.elem_llt@, tmp_name(w + 1), product@);
        proof {
            lemma_concat_associative(o, p1 + p2, p3);
        }
        self.emit_store(elem, sum.as_str(), acc_ptr.as_str());
        proof {
            lemma_concat_associative(o, p1 + p2 + p3, store_line(ctx.elem_llt@, tmp_name(w + 2), tmp_name(w)));
        }
    }

    /// One tap's lane sweep: `acc[lane] = acc[lane] + a * b[b_start + lane]`
    /// over lanes `0..bound`.
    #[verifier::spinoff_prover]
    fn emit_conv_lane(
        &mut self,
        site: &TileSite,
        ctx: &ConvTileCtx,
        a_value: &str,
        b_start: &str,
        bound: &str,
    )
        requires
            old(self).next + 13 <= u32::MAX,
        ensures
            ({
                let res = conv_lane(old(self).next as nat, *site, *ctx, a_value@, b_start@, bound@);
                &&& final(self).next == res.0
                &&& final(self).body@ == old(self).body@ + res.1
            }),
            final(self).allocas == old(self).allocas,
            final(self).heap_used == old(self).heap_used,
            final(self).same_setup(*old(self)),
    {
        let ghost u = old(self).next as nat;
        let ghost o = old(self).body@;
        let (head, done, lane) = self.emit_lane_head(ctx.lane_ctr.as_str(), bound);
        let ghost w1 = lane_head_text(u, ctx.lane_ctr@, bound@);
        let product = self.emit_conv_lane_product(site, ctx, a_value, b_start, lane.as_str());
        let ghost p2 = conv_lane_product(u + 5, *site, *ctx, a_value@, b_start@, tmp_name(u + 3));
        proof {
            lemma_concat_associative(o, w1, p2);
        }
        self.emit_conv_acc_add(site, ctx, lane.as_str(), product.as_str());
        let ghost p3 = conv_acc_add(u + 9, *site, *ctx, tmp_name(u + 3), tmp_name(u + 8));
        proof {
            lemma_concat_associative(o, w1 + p2, p3);
        }
        self.emit_loop_tail(ctx.lane_ctr.as_str(), lane.as_str(), head.as_str(), done.as_str());
        proof {
            lemma_concat_associative(o, w1 + p2 + p3, lane_tail_text(u, u + 12, ctx.lane_ctr@));
        }
    }

    /// Tap `i` of the memory-form tile, `off` being its `b` offset.
    #[verifier::spinoff_prover]
    fn emit_conv_tap(
        &mut self,
        site: &TileSite,
        ctx: &ConvTileCtx,
        a_row: &Option<String>,
        b_tile: &str,
        bound: &str,
        i: u64,
        off: u64,
    )
        requires
            old(self).next + 18 <= u32::MAX,
            site.b.ksplit is Some,
            off == tap_offset(site.b.ksplit.unwrap(), i as nat),
        ensures
            ({
                let res = conv_tap(old(self).next as nat, *site, *ctx, opt_text(*a_row), b_tile@, bound@, i as nat);
                &&& final(self).next == res.0
                &&& final(self).body@ == old(self).body@ + res.1
            }),
            final(self).allocas == old(self).allocas,
            final(self).heap_used == old(self).heap_used,
            final(self).same_setup(*old(self)),
    {
        let ghost t = old(self).next as nat;
        let ghost o = old(self).body@;
        proof {
            lemma_tile_index_counter(t, opt_text(*a_row), seq![(site.a.ck, num::dec_nat(i as nat))], 1);
        }
        let a_value = self.emit_conv_a_read(site, ctx, a_row, i);
        let ghost a = conv_a_read(t, *site, *ctx, opt_text(*a_row), i as nat);
        let b_start = self.emit_conv_b_start(b_tile, off);
        let ghost b = conv_b_start(a.0, b_tile@, off as nat);
        proof {
            lemma_concat_associative(o, a.1, b.1);
        }
        self.emit_conv_lane(site, ctx, a_value.as_str(), b_start.as_str(), bound);
        proof {
            lemma_concat_associative(o, a.1 + b.1, conv_lane(b.0, *site, *ctx, a.2, b.2, bound@).1);
        }
    }

    /// Every tap of the window, kq outer and kr inner, so k ascends.
    #[verifier::spinoff_prover]
    fn emit_conv_taps(&mut self, site: &TileSite, ctx: &ConvTileCtx, a_row: &Option<String>, b_tile: &str, bound: &str)
        requires
            old(self).next + 18 * site.k <= u32::MAX,
            conv_window_ok(*site),
        ensures
            ({
                let res = conv_taps(
                    old(self).next as nat,
                    *site,
                    *ctx,
                    opt_text(*a_row),
                    b_tile@,
                    bound@,
                    site.k as nat,
                );
                &&& final(self).next == res.0
                &&& final(self).body@ == old(self).body@ + res.1
            }),
            final(self).allocas == old(self).allocas,
            final(self).heap_used == old(self).heap_used,
            final(self).same_setup(*old(self)),
    {
        let ghost t = old(self).next as nat;
        let ghost ks = site.b.ksplit.unwrap();
        let (div, cq, cr) = match &site.b.ksplit {
            Some(k) => (k.div, k.cq, k.cr),
            None => (1, 0, 0),
        };
        assert(div == ks.div && cq == ks.cq && cr == ks.cr);
        let groups = site.k / div;
        proof {
            vstd::arithmetic::div_mod::lemma_fundamental_div_mod(site.k as int, div as int);
            assert(site.k == groups * div) by (nonlinear_arith)
                requires
                    site.k == div * groups + site.k % div,
                    site.k % div == 0,
            ;
        }
        let mut kq: u64 = 0;
        while kq < groups
            invariant
                kq <= groups,
                groups == site.k / div,
                site.k == groups * div,
                div == ks.div && cq == ks.cq && cr == ks.cr,
                ks == site.b.ksplit.unwrap(),
                t == old(self).next,
                old(self).next + 18 * site.k <= u32::MAX,
                conv_window_ok(*site),
                ({
                    let res = conv_taps(t, *site, *ctx, opt_text(*a_row), b_tile@, bound@, (kq * div) as nat);
                    &&& self.next == res.0
                    &&& self.body@ == old(self).body@ + res.1
                }),
                self.allocas == old(self).allocas,
                self.heap_used == old(self).heap_used,
                self.same_setup(*old(self)),
            decreases groups - kq,
        {
            let mut kr: u64 = 0;
            while kr < div
                invariant
                    kq < groups,
                    kr <= div,
                    groups == site.k / div,
                    site.k == groups * div,
                    div == ks.div && cq == ks.cq && cr == ks.cr,
                    ks == site.b.ksplit.unwrap(),
                    t == old(self).next,
                    old(self).next + 18 * site.k <= u32::MAX,
                    conv_window_ok(*site),
                    ({
                        let res = conv_taps(
                            t,
                            *site,
                            *ctx,
                            opt_text(*a_row),
                            b_tile@,
                            bound@,
                            (kq * div + kr) as nat,
                        );
                        &&& self.next == res.0
                        &&& self.body@ == old(self).body@ + res.1
                    }),
                    self.allocas == old(self).allocas,
                    self.heap_used == old(self).heap_used,
                    self.same_setup(*old(self)),
                decreases div - kr,
            {
                proof {
                    lemma_tap_split(*site, kq, kr);
                    lemma_conv_taps_width(
                        t,
                        *site,
                        *ctx,
                        opt_text(*a_row),
                        b_tile@,
                        bound@,
                        (kq * div + kr) as nat,
                    );
                }
                let i = kq * div + kr;
                let off = cq * kq + cr * kr;
                self.emit_conv_tap(site, ctx, a_row, b_tile, bound, i, off);
                proof {
                    let prev = conv_taps(t, *site, *ctx, opt_text(*a_row), b_tile@, bound@, i as nat);
                    lemma_concat_associative(
                        old(self).body@,
                        prev.1,
                        conv_tap(prev.0, *site, *ctx, opt_text(*a_row), b_tile@, bound@, i as nat).1,
                    );
                }
                kr += 1;
            }
            proof {
                lemma_group_step(kq, div);
            }
            kq += 1;
        }
    }

    /// The store sweep: `out[row0 + j0 + lane] = acc[lane]` over `0..bound`.
    #[verifier::spinoff_prover]
    fn emit_conv_store(&mut self, ctx: &ConvTileCtx, j0: &str, row0: &str, bound: &str)
        requires
            old(self).next + 11 <= u32::MAX,
        ensures
            ({
                let res = conv_store_text(old(self).next as nat, *ctx, j0@, row0@, bound@);
                &&& final(self).next == res.0
                &&& final(self).body@ == old(self).body@ + res.1
            }),
            final(self).allocas == old(self).allocas,
            final(self).heap_used == old(self).heap_used,
            final(self).same_setup(*old(self)),
    {
        let ghost t = old(self).next as nat;
        let ghost h = t + 1;
        let ghost o = old(self).body@;
        let elem = ctx.elem_llt.as_str();
        let out_start = self.emit_op("add", row0, j0);
        let ghost w1 = op_line(tmp_name(t), "add"@, row0@, j0@);
        let (head, done, lane) = self.emit_lane_head(ctx.lane_ctr.as_str(), bound);
        let ghost p2 = lane_head_text(h, ctx.lane_ctr@, bound@);
        proof {
            lemma_concat_associative(o, w1, p2);
        }
        let ghost w2 = w1 + p2;
        let acc_ptr = self.emit_gep(ctx.acc_llt.as_str(), ctx.acc.as_str(), lane.as_str());
        let ghost p3 = gep_line(tmp_name(h + 5), ctx.acc_llt@, ctx.acc@, tmp_name(h + 3));
        proof {
            lemma_concat_associative(o, w2, p3);
        }
        let ghost w3 = w2 + p3;
        let value = self.emit_load(elem, acc_ptr.as_str());
        let ghost p4 = load_line(tmp_name(h + 6), ctx.elem_llt@, tmp_name(h + 5));
        proof {
            lemma_concat_associative(o, w3, p4);
        }
        let ghost w4 = w3 + p4;
        let out_index = self.emit_op("add", out_start.as_str(), lane.as_str());
        let ghost p5 = op_line(tmp_name(h + 7), "add"@, tmp_name(t), tmp_name(h + 3));
        proof {
            lemma_concat_associative(o, w4, p5);
        }
        let ghost w5 = w4 + p5;
        let out_elem_ptr = self.emit_gep(ctx.out_llt.as_str(), ctx.out_ptr.as_str(), out_index.as_str());
        let ghost p6 = gep_line(tmp_name(h + 8), ctx.out_llt@, ctx.out_ptr@, tmp_name(h + 7));
        proof {
            lemma_concat_associative(o, w5, p6);
        }
        let ghost w6 = w5 + p6;
        self.emit_store(elem, value.as_str(), out_elem_ptr.as_str());
        let ghost p7 = store_line(ctx.elem_llt@, tmp_name(h + 6), tmp_name(h + 8));
        proof {
            lemma_concat_associative(o, w6, p7);
        }
        let ghost w7 = w6 + p7;
        self.emit_loop_tail(ctx.lane_ctr.as_str(), lane.as_str(), head.as_str(), done.as_str());
        proof {
            lemma_concat_associative(o, w7, lane_tail_text(h, h + 9, ctx.lane_ctr@));
        }
    }

    /// `<v> = load <ty>, ptr <ptr>, align <align>` into a fresh temporary.
    pub(crate) fn emit_aligned_load(&mut self, ty: &str, ptr: &str, align: u64) -> (v: String)
        requires
            old(self).next < u32::MAX,
        ensures
            v@ == tmp_name(old(self).next as nat),
            final(self).body@ == old(self).body@ + aligned_load_line(v@, ty@, ptr@, align as nat),
            final(self).next == old(self).next + 1,
            final(self).allocas == old(self).allocas,
            final(self).heap_used == old(self).heap_used,
            final(self).same_setup(*old(self)),
    {
        let v = self.tmp();
        let mut s = String::from_str(v.as_str());
        s.append(" = load ");
        s.append(ty);
        s.append(", ptr ");
        s.append(ptr);
        s.append(", align ");
        s.append(num::u64_to_string(align).as_str());
        self.line(s.as_str());
        assert(s@ =~= v@ + " = load "@ + ty@ + ", ptr "@ + ptr@ + ", align "@ + num::dec_nat(align as nat));
        v
    }

    /// `store <ty> <val>, ptr <ptr>, align <align>`.
    pub(crate) fn emit_aligned_store(&mut self, ty: &str, val: &str, ptr: &str, align: u64)
        ensures
            final(self).body@ == old(self).body@ + aligned_store_line(ty@, val@, ptr@, align as nat),
            final(self).next == old(self).next,
            final(self).allocas == old(self).allocas,
            final(self).heap_used == old(self).heap_used,
            final(self).same_setup(*old(self)),
    {
        let mut s = String::from_str("store ");
        s.append(ty);
        s.append(" ");
        s.append(val);
        s.append(", ptr ");
        s.append(ptr);
        s.append(", align ");
        s.append(num::u64_to_string(align).as_str());
        self.line(s.as_str());
        assert(s@ =~= "store "@ + ty@ + " "@ + val@ + ", ptr "@ + ptr@ + ", align "@ + num::dec_nat(align as nat));
    }

    /// One vector FMA: `acc + a_vec * <TJ lanes of b from b_start>` in the
    /// source's orders; returns the new accumulator.
    #[verifier::spinoff_prover]
    fn emit_conv_vec_fma(
        &mut self,
        site: &TileSite,
        ctx: &ConvTileCtx,
        vllt: &str,
        align: u64,
        a_vec: &str,
        b_start: &str,
        acc: &str,
    ) -> (v: String)
        requires
            old(self).next + 4 <= u32::MAX,
            vllt@ == vec_text(ctx.elem_llt@, ctx.tile_j),
            align == llt_algn(ctx.elem_llt@),
        ensures
            v@ == tmp_name(old(self).next as nat + 3),
            final(self).next == old(self).next + 4,
            final(self).body@ == old(self).body@ + conv_vec_fma(
                old(self).next as nat,
                *site,
                *ctx,
                a_vec@,
                b_start@,
                acc@,
            ),
            final(self).allocas == old(self).allocas,
            final(self).heap_used == old(self).heap_used,
            final(self).same_setup(*old(self)),
    {
        let ghost w = old(self).next as nat;
        let ghost o = old(self).body@;
        let b_elem_ptr = self.emit_gep(ctx.b_llt.as_str(), ctx.b_ptr.as_str(), b_start);
        let ghost p1 = gep_line(tmp_name(w), ctx.b_llt@, ctx.b_ptr@, b_start@);
        let b_vec = self.emit_aligned_load(vllt, b_elem_ptr.as_str(), align);
        let ghost p2 = aligned_load_line(tmp_name(w + 1), vllt@, tmp_name(w), align as nat);
        proof {
            lemma_concat_associative(o, p1, p2);
        }
        let product = if site.mul_a_first {
            self.emit_flagged(ctx.mul_op, ctx.contract_flag, vllt, a_vec, b_vec.as_str())
        } else {
            self.emit_flagged(ctx.mul_op, ctx.contract_flag, vllt, b_vec.as_str(), a_vec)
        };
        let ghost p3 = conv_product(tmp_name(w + 2), *site, *ctx, vllt@, a_vec@, tmp_name(w + 1));
        proof {
            lemma_concat_associative(o, p1 + p2, p3);
        }
        let sum = if site.add_acc_first {
            self.emit_flagged(ctx.add_op, ctx.contract_flag, vllt, acc, product.as_str())
        } else {
            self.emit_flagged(ctx.add_op, ctx.contract_flag, vllt, product.as_str(), acc)
        };
        proof {
            lemma_concat_associative(
                o,
                p1 + p2 + p3,
                conv_sum(tmp_name(w + 3), *site, *ctx, vllt@, acc@, tmp_name(w + 2)),
            );
        }
        sum
    }

    /// Tap `i` of the vector-form tile on `acc`, `off` being its `b`
    /// offset; returns the new accumulator.
    #[verifier::spinoff_prover]
    fn emit_conv_vec_tap(
        &mut self,
        site: &TileSite,
        ctx: &ConvTileCtx,
        vllt: &str,
        align: u64,
        a_row: &Option<String>,
        b_tile: &str,
        acc: &str,
        i: u64,
        off: u64,
    ) -> (v: String)
        requires
            old(self).next + 11 <= u32::MAX,
            site.b.ksplit is Some,
            off == tap_offset(site.b.ksplit.unwrap(), i as nat),
            vllt@ == vec_text(ctx.elem_llt@, ctx.tile_j),
            align == llt_algn(ctx.elem_llt@),
        ensures
            ({
                let res = conv_vec_tap(old(self).next as nat, *site, *ctx, opt_text(*a_row), b_tile@, acc@, i as nat);
                &&& final(self).next == res.0
                &&& final(self).body@ == old(self).body@ + res.1
                &&& v@ == res.2
            }),
            final(self).allocas == old(self).allocas,
            final(self).heap_used == old(self).heap_used,
            final(self).same_setup(*old(self)),
    {
        let ghost t = old(self).next as nat;
        let ghost o = old(self).body@;
        proof {
            lemma_tile_index_counter(t, opt_text(*a_row), seq![(site.a.ck, num::dec_nat(i as nat))], 1);
        }
        let a_value = self.emit_conv_a_read(site, ctx, a_row, i);
        let ghost a = conv_a_read(t, *site, *ctx, opt_text(*a_row), i as nat);
        let ghost s = a.0;
        let a_vec = self.emit_splat(ctx.elem_llt.as_str(), ctx.tile_j, a_value.as_str());
        let ghost p2 = splat_text(s, ctx.elem_llt@, ctx.tile_j, a.2);
        proof {
            lemma_concat_associative(o, a.1, p2);
        }
        let b_start = self.emit_conv_b_start(b_tile, off);
        let ghost b = conv_b_start(s + 2, b_tile@, off as nat);
        proof {
            lemma_concat_associative(o, a.1 + p2, b.1);
        }
        let sum = self.emit_conv_vec_fma(site, ctx, vllt, align, a_vec.as_str(), b_start.as_str(), acc);
        proof {
            lemma_concat_associative(o, a.1 + p2 + b.1, conv_vec_fma(b.0, *site, *ctx, tmp_name(s + 1), b.2, acc@));
        }
        sum
    }

    /// Every tap of the vector-form tile from the accumulator `acc`, kq
    /// outer and kr inner; returns the final accumulator.
    #[verifier::spinoff_prover]
    fn emit_conv_vec_taps(
        &mut self,
        site: &TileSite,
        ctx: &ConvTileCtx,
        vllt: &str,
        align: u64,
        a_row: &Option<String>,
        b_tile: &str,
        acc: String,
    ) -> (v: String)
        requires
            old(self).next + 11 * site.k <= u32::MAX,
            conv_window_ok(*site),
            vllt@ == vec_text(ctx.elem_llt@, ctx.tile_j),
            align == llt_algn(ctx.elem_llt@),
        ensures
            ({
                let res = conv_vec_taps(
                    old(self).next as nat,
                    *site,
                    *ctx,
                    opt_text(*a_row),
                    b_tile@,
                    acc@,
                    site.k as nat,
                );
                &&& final(self).next == res.0
                &&& final(self).body@ == old(self).body@ + res.1
                &&& v@ == res.2
            }),
            final(self).allocas == old(self).allocas,
            final(self).heap_used == old(self).heap_used,
            final(self).same_setup(*old(self)),
    {
        let ghost t = old(self).next as nat;
        let ghost acc0 = acc@;
        let ghost ks = site.b.ksplit.unwrap();
        let (div, cq, cr) = match &site.b.ksplit {
            Some(k) => (k.div, k.cq, k.cr),
            None => (1, 0, 0),
        };
        assert(div == ks.div && cq == ks.cq && cr == ks.cr);
        let groups = site.k / div;
        proof {
            vstd::arithmetic::div_mod::lemma_fundamental_div_mod(site.k as int, div as int);
            assert(site.k == groups * div) by (nonlinear_arith)
                requires
                    site.k == div * groups + site.k % div,
                    site.k % div == 0,
            ;
        }
        let mut acc = acc;
        let mut kq: u64 = 0;
        while kq < groups
            invariant
                kq <= groups,
                groups == site.k / div,
                site.k == groups * div,
                div == ks.div && cq == ks.cq && cr == ks.cr,
                ks == site.b.ksplit.unwrap(),
                t == old(self).next,
                old(self).next + 11 * site.k <= u32::MAX,
                conv_window_ok(*site),
                vllt@ == vec_text(ctx.elem_llt@, ctx.tile_j),
                align == llt_algn(ctx.elem_llt@),
                ({
                    let res = conv_vec_taps(t, *site, *ctx, opt_text(*a_row), b_tile@, acc0, (kq * div) as nat);
                    &&& self.next == res.0
                    &&& self.body@ == old(self).body@ + res.1
                    &&& acc@ == res.2
                }),
                self.allocas == old(self).allocas,
                self.heap_used == old(self).heap_used,
                self.same_setup(*old(self)),
            decreases groups - kq,
        {
            let mut kr: u64 = 0;
            while kr < div
                invariant
                    kq < groups,
                    kr <= div,
                    groups == site.k / div,
                    site.k == groups * div,
                    div == ks.div && cq == ks.cq && cr == ks.cr,
                    ks == site.b.ksplit.unwrap(),
                    t == old(self).next,
                    old(self).next + 11 * site.k <= u32::MAX,
                    conv_window_ok(*site),
                    vllt@ == vec_text(ctx.elem_llt@, ctx.tile_j),
                    align == llt_algn(ctx.elem_llt@),
                    ({
                        let res = conv_vec_taps(
                            t,
                            *site,
                            *ctx,
                            opt_text(*a_row),
                            b_tile@,
                            acc0,
                            (kq * div + kr) as nat,
                        );
                        &&& self.next == res.0
                        &&& self.body@ == old(self).body@ + res.1
                        &&& acc@ == res.2
                    }),
                    self.allocas == old(self).allocas,
                    self.heap_used == old(self).heap_used,
                    self.same_setup(*old(self)),
                decreases div - kr,
            {
                proof {
                    lemma_tap_split(*site, kq, kr);
                    lemma_conv_vec_taps_width(
                        t,
                        *site,
                        *ctx,
                        opt_text(*a_row),
                        b_tile@,
                        acc0,
                        (kq * div + kr) as nat,
                    );
                }
                let i = kq * div + kr;
                let off = cq * kq + cr * kr;
                let sum = self.emit_conv_vec_tap(site, ctx, vllt, align, a_row, b_tile, acc.as_str(), i, off);
                proof {
                    let prev = conv_vec_taps(t, *site, *ctx, opt_text(*a_row), b_tile@, acc0, i as nat);
                    lemma_concat_associative(
                        old(self).body@,
                        prev.1,
                        conv_vec_tap(prev.0, *site, *ctx, opt_text(*a_row), b_tile@, prev.2, i as nat).1,
                    );
                }
                acc = sum;
                kr += 1;
            }
            proof {
                lemma_group_step(kq, div);
            }
            kq += 1;
        }
        acc
    }

    /// The `b` tile start `b_row + j0`, hoisted once per tile.
    pub(crate) fn emit_conv_b_tile(&mut self, b_row: &Option<String>, j0: &str) -> (r: String)
        requires
            old(self).next + 2 <= u32::MAX,
        ensures
            ({
                let res = tile_index_upto(old(self).next as nat, opt_text(*b_row), seq![(1u64, j0@)], 1);
                &&& final(self).next == res.0
                &&& final(self).body@ == old(self).body@ + res.2
                &&& res.1 == Some(r@)
            }),
            final(self).allocas == old(self).allocas,
            final(self).heap_used == old(self).heap_used,
            final(self).same_setup(*old(self)),
    {
        let base = match b_row {
            Some(b) => Some(b.clone()),
            None => None,
        };
        let terms = [(1u64, j0)];
        assert(term_views(terms@) =~= seq![(1u64, j0@)]);
        proof {
            lemma_b_tile_some(old(self).next as nat, opt_text(*b_row), j0@);
        }
        self.emit_tile_index(base, &terms).expect("conv b has lane term")
    }

    /// The constant-width tile on SSA vectors: no accumulator memory, one
    /// splat of `a` and one vector load of `b` per tap, and one vector store
    /// of the `TJ` sums to `out[row0 + j0 ..]`, all at the element's
    /// alignment.
    #[verifier::spinoff_prover]
    pub fn emit_tile_conv_tile_vec(
        &mut self,
        site: &TileSite,
        ctx: &ConvTileCtx,
        j0: &str,
        row0: &str,
        a_row: &Option<String>,
        b_row: &Option<String>,
    )
        requires
            old(self).next + 5 + 11 * site.k <= u32::MAX,
            conv_window_ok(*site),
            align_ok(ctx.elem_llt@),
        ensures
            ({
                let res = conv_tile_vec_text(
                    old(self).next as nat,
                    *site,
                    *ctx,
                    j0@,
                    row0@,
                    opt_text(*a_row),
                    opt_text(*b_row),
                );
                &&& final(self).next == res.0
                &&& final(self).body@ == old(self).body@ + res.1
            }),
            final(self).allocas == old(self).allocas,
            final(self).heap_used == old(self).heap_used,
            final(self).same_setup(*old(self)),
    {
        reveal(conv_tile_vec_text);
        let ghost t = old(self).next as nat;
        let ghost o = old(self).body@;
        let vllt = crate::llt::vec_llt(ctx.elem_llt.as_str(), ctx.tile_j);
        proof {
            reveal_strlit("<");
            reveal_strlit(" x ");
            reveal_strlit(">");
            assert(vllt@ =~= vec_text(ctx.elem_llt@, ctx.tile_j));
        }
        let align = crate::llt::llt_align(ctx.elem_llt.as_str());
        let b_tile = self.emit_conv_b_tile(b_row, j0);
        let ghost b = tile_index_upto(t, opt_text(*b_row), seq![(1u64, j0@)], 1);
        let ghost s = b.0;
        proof {
            lemma_b_tile_some(t, opt_text(*b_row), j0@);
        }
        let acc = self.emit_splat(ctx.elem_llt.as_str(), ctx.tile_j, ctx.seed.as_str());
        let ghost p2 = splat_text(s, ctx.elem_llt@, ctx.tile_j, ctx.seed@);
        proof {
            lemma_concat_associative(o, b.2, p2);
        }
        let sum = self.emit_conv_vec_taps(site, ctx, vllt.as_str(), align, a_row, b_tile.as_str(), acc);
        let ghost taps = conv_vec_taps(s + 2, *site, *ctx, opt_text(*a_row), b_tile@, tmp_name(s + 1), site.k as nat);
        proof {
            lemma_concat_associative(o, b.2 + p2, taps.1);
            lemma_conv_vec_taps_width(s + 2, *site, *ctx, opt_text(*a_row), b_tile@, tmp_name(s + 1), site.k as nat);
        }
        let ghost w3 = b.2 + p2 + taps.1;
        let ghost u = taps.0;
        let out_start = self.emit_op("add", row0, j0);
        let ghost p4 = op_line(tmp_name(u), "add"@, row0@, j0@);
        proof {
            lemma_concat_associative(o, w3, p4);
        }
        let out_elem_ptr = self.emit_gep(ctx.out_llt.as_str(), ctx.out_ptr.as_str(), out_start.as_str());
        let ghost p5 = gep_line(tmp_name(u + 1), ctx.out_llt@, ctx.out_ptr@, tmp_name(u));
        proof {
            lemma_concat_associative(o, w3 + p4, p5);
        }
        self.emit_aligned_store(vllt.as_str(), sum.as_str(), out_elem_ptr.as_str(), align);
        proof {
            lemma_concat_associative(
                o,
                w3 + p4 + p5,
                aligned_store_line(vllt@, taps.2, tmp_name(u + 1), align as nat),
            );
        }
    }

    /// One conv j-tile over lanes `0..bound`: the vector form when `bound`
    /// spells the tile width; otherwise the accumulator lives in memory,
    /// seeded and stored by lane loops, with one lane sweep per tap.
    #[verifier::spinoff_prover]
    pub fn emit_tile_conv_tile(
        &mut self,
        site: &TileSite,
        ctx: &ConvTileCtx,
        j0: &str,
        row0: &str,
        a_row: &Option<String>,
        b_row: &Option<String>,
        bound: &str,
    )
        requires
            old(self).next + 20 + 18 * site.k <= u32::MAX,
            conv_window_ok(*site),
            parse_u64(bound@) == Some(ctx.tile_j) ==> align_ok(ctx.elem_llt@),
        ensures
            ({
                let res = conv_tile_text(
                    old(self).next as nat,
                    *site,
                    *ctx,
                    j0@,
                    row0@,
                    opt_text(*a_row),
                    opt_text(*b_row),
                    bound@,
                );
                &&& final(self).next == res.0
                &&& final(self).body@ == old(self).body@ + res.1
            }),
            final(self).allocas == old(self).allocas,
            final(self).heap_used == old(self).heap_used,
            final(self).same_setup(*old(self)),
    {
        if crate::llt::parse_u64_text(bound) == Some(ctx.tile_j) {
            self.emit_tile_conv_tile_vec(site, ctx, j0, row0, a_row, b_row);
            return ;
        }
        reveal(conv_tile_mem_text);
        let ghost t = old(self).next as nat;
        let ghost o = old(self).body@;
        self.emit_conv_seed(ctx, bound);
        let ghost w1 = conv_seed_text(t, *ctx, bound@).1;
        let b_tile = self.emit_conv_b_tile(b_row, j0);
        let ghost b = tile_index_upto(t + 7, opt_text(*b_row), seq![(1u64, j0@)], 1);
        proof {
            lemma_concat_associative(o, w1, b.2);
            lemma_b_tile_some(t + 7, opt_text(*b_row), j0@);
        }
        self.emit_conv_taps(site, ctx, a_row, b_tile.as_str(), bound);
        let ghost taps = conv_taps(b.0, *site, *ctx, opt_text(*a_row), b_tile@, bound@, site.k as nat);
        proof {
            lemma_concat_associative(o, w1 + b.2, taps.1);
            lemma_conv_taps_width(b.0, *site, *ctx, opt_text(*a_row), b_tile@, bound@, site.k as nat);
        }
        self.emit_conv_store(ctx, j0, row0, bound);
        proof {
            lemma_concat_associative(o, w1 + b.2 + taps.1, conv_store_text(taps.0, *ctx, j0@, row0@, bound@).1);
        }
    }
}

} // verus!
