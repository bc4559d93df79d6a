//! The tiled nests' building blocks: lane loops over a `TJ`-wide j-tile,
//! the accumulator seed and store sweeps, and the k steps that FMA one
//! k-slice of `a * b` into the accumulators, all in the operand orders the
//! source wrote. Each emitter's text is stated with the ordinal it starts
//! from and the ordinal it leaves.
use vstd::prelude::*;
use vstd::seq_lib::lemma_concat_associative;
use crate::access::{gep_line, latch_text, load_line, store_line};
use crate::arith::{bin_line, branch_line, jump_line};
use crate::emit::{
    FnEmit, TileCtx, label_name, label_text, lemma_tile_index_counter, line_text, op_line,
    opt_text, term_views, tile_index_upto, tmp_name,
};
use crate::num;
use crate::site::TileSite;

verus! {

/// A lane loop's header, ordinals from `t`: the counter `ctr` starts at 0;
/// the head `t` loads the lane into `t+3` and leaves for `t+2` once it
/// reaches `bound`; the body starts at `t+1`.
pub open spec fn lane_head_text(t: nat, ctr: Seq<char>, bound: Seq<char>) -> Seq<char> {
    store_line("i64"@, "0"@, ctr) + jump_line(label_name(t)) + label_text(label_name(t)) + load_line(
        tmp_name(t + 3),
        "i64"@,
        ctr,
    ) + op_line(tmp_name(t + 4), "icmp uge"@, tmp_name(t + 3), bound) + branch_line(
        tmp_name(t + 4),
        label_name(t + 2),
        label_name(t + 1),
    ) + label_text(label_name(t + 1))
}

/// A lane loop's latch into temporary `u`, for the loop opened at `t`.
pub open spec fn lane_tail_text(t: nat, u: nat, ctr: Seq<char>) -> Seq<char> {
    latch_text(tmp_name(u), tmp_name(t + 3), ctr, label_name(t), label_name(t + 2))
}

/// The accumulator offset of subrow `r`'s lane, minted into `tmp(u)` unless
/// `r` is 0: `(next, offset, text)`.
pub open spec fn acc_offset(u: nat, lane: Seq<char>, r: nat, tile_j: u64) -> (nat, Seq<char>, Seq<char>) {
    if r == 0 {
        (u, lane, Seq::empty())
    } else {
        (u + 1, tmp_name(u), op_line(tmp_name(u), "add"@, lane, num::dec_nat(r * tile_j as nat)))
    }
}

/// `mul_op` (with the contraction flag) on the two operands in the source's order.
pub open spec fn product_line(
    v: Seq<char>,
    site: TileSite,
    ctx: TileCtx,
    a_value: Seq<char>,
    b_value: Seq<char>,
) -> Seq<char> {
    if site.mul_a_first {
        bin_line(v, ctx.mul_op@ + ctx.contract_flag@, ctx.elem_llt@, a_value, b_value)
    } else {
        bin_line(v, ctx.mul_op@ + ctx.contract_flag@, ctx.elem_llt@, b_value, a_value)
    }
}

/// `add_op` (with the contraction flag) on the accumulator and the product
/// in the source's order.
pub open spec fn sum_line(
    v: Seq<char>,
    site: TileSite,
    ctx: TileCtx,
    acc_value: Seq<char>,
    product: Seq<char>,
) -> Seq<char> {
    if site.add_acc_first {
        bin_line(v, ctx.add_op@ + ctx.contract_flag@, ctx.elem_llt@, acc_value, product)
    } else {
        bin_line(v, ctx.add_op@ + ctx.contract_flag@, ctx.elem_llt@, product, acc_value)
    }
}

/// `acc[r*TJ + lane] = acc[...] + product` (in the source's order), ordinals
/// from `u`: `(next, text)`.
pub open spec fn acc_update(u: nat, site: TileSite, ctx: TileCtx, lane: Seq<char>, r: nat, product: Seq<char>) -> (
    nat,
    Seq<char>,
) {
    let acc = acc_offset(u, lane, r, ctx.tile_j);
    let w = acc.0;
    let elem = ctx.elem_llt@;
    (
        w + 3,
        acc.2 + gep_line(tmp_name(w), ctx.acc_llt@, ctx.acc@, acc.1) + load_line(
            tmp_name(w + 1),
            elem,
            tmp_name(w),
        ) + sum_line(tmp_name(w + 2), site, ctx, tmp_name(w + 1), product) + store_line(
            elem,
            tmp_name(w + 2),
            tmp_name(w),
        ),
    )
}

/// The `b` index terms of a window read at `kk` in the j-tile at `jb`.
pub open spec fn window_b_terms(site: TileSite, kk: Seq<char>, jb: Seq<char>) -> Seq<(u64, Seq<char>)> {
    seq![(site.b.ck, kk), (1u64, jb)]
}

/// The constant part of subrow `r`'s `b` index, when it is not 0.
pub open spec fn window_b_base(site: TileSite, ctx: TileCtx, r: nat) -> Option<Seq<char>> {
    let base = site.b.base + r * ctx.tile_j;
    if base != 0 {
        Some(num::dec_nat(base as nat))
    } else {
        None
    }
}

/// Subrow `r`'s FMA sweep of one window k step, ordinals from `u`:
/// `acc[r*TJ + lane] += a * b[b_start + lane]` over the j-tile.
pub open spec fn window_lane(
    u: nat,
    site: TileSite,
    ctx: TileCtx,
    a_value: Seq<char>,
    b_start: Seq<char>,
    r: nat,
) -> (nat, Seq<char>) {
    let lane = tmp_name(u + 3);
    let upd = acc_update(u + 9, site, ctx, lane, r, tmp_name(u + 8));
    let elem = ctx.elem_llt@;
    let text = lane_head_text(u, ctx.lane_ctr@, num::dec_nat(ctx.tile_j as nat)) + op_line(
        tmp_name(u + 5),
        "add"@,
        b_start,
        lane,
    ) + gep_line(tmp_name(u + 6), ctx.b_llt@, ctx.b_ptr@, tmp_name(u + 5)) + load_line(
        tmp_name(u + 7),
        elem,
        tmp_name(u + 6),
    ) + product_line(tmp_name(u + 8), site, ctx, a_value, tmp_name(u + 7)) + upd.1 + lane_tail_text(
        u,
        upd.0,
        ctx.lane_ctr@,
    );
    (upd.0 + 1, text)
}

/// Subrow `r` of one window k step, ordinals from `t`: `acc[r*TJ + lane] +=
/// a * b[b.base + r*TJ + b.ck*k + jb + lane]` over the j-tile. `(next, text)`.
pub open spec fn window_row(
    t: nat,
    site: TileSite,
    ctx: TileCtx,
    jb: Seq<char>,
    kk: Seq<char>,
    a_value: Seq<char>,
    r: nat,
) -> (nat, Seq<char>) {
    let idx = tile_index_upto(t, window_b_base(site, ctx, r), window_b_terms(site, kk, jb), 2);
    let lane = window_lane(idx.0, site, ctx, a_value, idx.1.unwrap(), r);
    (lane.0, idx.2 + lane.1)
}

/// The first `n` subrows of one window k step, ordinals from `t`.
pub open spec fn window_rows(
    t: nat,
    site: TileSite,
    ctx: TileCtx,
    jb: Seq<char>,
    kk: Seq<char>,
    a_value: Seq<char>,
    n: nat,
) -> (nat, Seq<char>)
    decreases n,
{
    if n == 0 {
        (t, Seq::empty())
    } else {
        let prev = window_rows(t, site, ctx, jb, kk, a_value, (n - 1) as nat);
        let row = window_row(prev.0, site, ctx, jb, kk, a_value, (n - 1) as nat);
        (row.0, prev.1 + row.1)
    }
}

/// One window k step, ordinals from `t`: the one `a` element
/// `a[a_base + a.ck*k]`, then every subrow's FMA sweep.
#[verifier::opaque]
pub open spec fn window_step_text(
    t: nat,
    site: TileSite,
    ctx: TileCtx,
    jb: Seq<char>,
    a_base: Option<Seq<char>>,
    kk: Seq<char>,
) -> (nat, Seq<char>) {
    let a = tile_index_upto(t, a_base, seq![(site.a.ck, kk)], 1);
    let a_index = match a.1 {
        Some(s) => s,
        None => "0"@,
    };
    let u = a.0;
    let rows = window_rows(u + 2, site, ctx, jb, kk, tmp_name(u + 1), ctx.tile_i as nat);
    (
        rows.0,
        a.2 + gep_line(tmp_name(u), ctx.a_llt@, ctx.a_ptr@, a_index) + load_line(
            tmp_name(u + 1),
            ctx.elem_llt@,
            tmp_name(u),
        ) + rows.1,
    )
}

/// Seeding subrow `r`'s lanes `0..bound` of the accumulator, ordinals from `t`.
pub open spec fn seed_row(t: nat, ctx: TileCtx, bound: Seq<char>, r: nat) -> (nat, Seq<char>) {
    let acc = acc_offset(t + 5, tmp_name(t + 3), r, ctx.tile_j);
    let w = acc.0;
    (
        w + 2,
        lane_head_text(t, ctx.lane_ctr@, bound) + acc.2 + gep_line(tmp_name(w), ctx.acc_llt@, ctx.acc@, acc.1)
            + store_line(ctx.elem_llt@, ctx.seed@, tmp_name(w)) + lane_tail_text(t, w + 1, ctx.lane_ctr@),
    )
}

/// Seeding the first `n` subrows, ordinals from `t`.
pub open spec fn seed_rows(t: nat, ctx: TileCtx, bound: Seq<char>, n: nat) -> (nat, Seq<char>)
    decreases n,
{
    if n == 0 {
        (t, Seq::empty())
    } else {
        let prev = seed_rows(t, ctx, bound, (n - 1) as nat);
        let row = seed_row(prev.0, ctx, bound, (n - 1) as nat);
        (row.0, prev.1 + row.1)
    }
}

/// Storing subrow `r`'s lanes `0..bound` to `out[base + r*stride + lane]`,
/// ordinals from `t`.
pub open spec fn store_row(
    t: nat,
    ctx: TileCtx,
    base: Seq<char>,
    stride: u64,
    bound: Seq<char>,
    r: nat,
) -> (nat, Seq<char>) {
    let shifted = if r == 0 {
        (t, base, Seq::<char>::empty())
    } else {
        (t + 1, tmp_name(t), op_line(tmp_name(t), "add"@, base, num::dec_nat(r * stride as nat)))
    };
    let h = shifted.0;
    let lane = tmp_name(h + 3);
    let acc = acc_offset(h + 5, lane, r, ctx.tile_j);
    let w = acc.0;
    let elem = ctx.elem_llt@;
    (
        w + 5,
        shifted.2 + lane_head_text(h, ctx.lane_ctr@, bound) + acc.2 + gep_line(
            tmp_name(w),
            ctx.acc_llt@,
            ctx.acc@,
            acc.1,
        ) + load_line(tmp_name(w + 1), elem, tmp_name(w)) + op_line(
            tmp_name(w + 2),
            "add"@,
            shifted.1,
            lane,
        ) + gep_line(tmp_name(w + 3), ctx.out_llt@, ctx.out_ptr@, tmp_name(w + 2)) + store_line(
            elem,
            tmp_name(w + 1),
            tmp_name(w + 3),
        ) + lane_tail_text(h, w + 4, ctx.lane_ctr@),
    )
}

/// Storing the first `n` subrows, ordinals from `t`.
pub open spec fn store_rows(
    t: nat,
    ctx: TileCtx,
    base: Seq<char>,
    stride: u64,
    bound: Seq<char>,
    n: nat,
) -> (nat, Seq<char>)
    decreases n,
{
    if n == 0 {
        (t, Seq::empty())
    } else {
        let prev = store_rows(t, ctx, base, stride, bound, (n - 1) as nat);
        let row = store_row(prev.0, ctx, base, stride, bound, (n - 1) as nat);
        (row.0, prev.1 + row.1)
    }
}

pub(crate) proof fn lemma_seed_rows_width(t: nat, ctx: TileCtx, bound: Seq<char>, n: nat)
    ensures
        t <= seed_rows(t, ctx, bound, n).0 <= t + 8 * n,
    decreases n,
{
    if n > 0 {
        lemma_seed_rows_width(t, ctx, bound, (n - 1) as nat);
    }
}

pub(crate) proof fn lemma_store_rows_width(t: nat, ctx: TileCtx, base: Seq<char>, stride: u64, bound: Seq<char>, n: nat)
    ensures
        t <= store_rows(t, ctx, base, stride, bound, n).0 <= t + 12 * n,
    decreases n,
{
    if n > 0 {
        lemma_store_rows_width(t, ctx, base, stride, bound, (n - 1) as nat);
    }
}

/// A k loop's opening, ordinals from `t`: the counter `k_ctr` starts at
/// `k_lo`, the head `t` loads `k` into `t+3`.
pub open spec fn k_open_text(t: nat, ctx: TileCtx, k_lo: Seq<char>) -> Seq<char> {
    store_line("i64"@, k_lo, ctx.k_ctr@) + jump_line(label_name(t)) + label_text(label_name(t))
        + load_line(tmp_name(t + 3), "i64"@, ctx.k_ctr@)
}

/// The paired trip of an even-K window k loop, ordinals from `t`: `k+1`
/// into `t`, the test into `t+1`; steps `k` and `k+1`; `k += 2`.
/// `(next, text)`.
#[verifier::opaque]
pub open spec fn window_k_main(
    t: nat,
    site: TileSite,
    ctx: TileCtx,
    jb: Seq<char>,
    a_base: Option<Seq<char>>,
    head: Seq<char>,
    body: Seq<char>,
    tail_check: Seq<char>,
    kk: Seq<char>,
) -> (nat, Seq<char>) {
    let kk1 = tmp_name(t);
    let s1 = window_step_text(t + 2, site, ctx, jb, a_base, kk);
    let s2 = window_step_text(s1.0, site, ctx, jb, a_base, kk1);
    (
        s2.0 + 1,
        op_line(kk1, "add"@, kk, "1"@) + op_line(tmp_name(t + 1), "icmp ult"@, kk1, num::dec_nat(site.k as nat))
            + branch_line(tmp_name(t + 1), body, tail_check) + label_text(body) + s1.1 + s2.1 + op_line(
            tmp_name(s2.0),
            "add"@,
            kk,
            "2"@,
        ) + store_line("i64"@, tmp_name(s2.0), ctx.k_ctr@) + jump_line(head),
    )
}

/// The tail of an even-K window k loop, ordinals from `t`: one more step
/// while `k < K`. `(next, text)`.
#[verifier::opaque]
pub open spec fn window_k_rest(
    t: nat,
    site: TileSite,
    ctx: TileCtx,
    jb: Seq<char>,
    a_base: Option<Seq<char>>,
    tail_check: Seq<char>,
    tail: Seq<char>,
    done: Seq<char>,
    kk: Seq<char>,
) -> (nat, Seq<char>) {
    let s3 = window_step_text(t + 1, site, ctx, jb, a_base, kk);
    (
        s3.0,
        label_text(tail_check) + op_line(tmp_name(t), "icmp ult"@, kk, num::dec_nat(site.k as nat))
            + branch_line(tmp_name(t), tail, done) + label_text(tail) + s3.1 + jump_line(done),
    )
}

/// The single-step trip of an odd-K window k loop, ordinals from `t`.
#[verifier::opaque]
pub open spec fn window_k_single(
    t: nat,
    site: TileSite,
    ctx: TileCtx,
    jb: Seq<char>,
    a_base: Option<Seq<char>>,
    head: Seq<char>,
    body: Seq<char>,
    done: Seq<char>,
    kk: Seq<char>,
) -> (nat, Seq<char>) {
    let s1 = window_step_text(t + 1, site, ctx, jb, a_base, kk);
    (
        s1.0 + 1,
        op_line(tmp_name(t), "icmp uge"@, kk, num::dec_nat(site.k as nat)) + branch_line(tmp_name(t), done, body)
            + label_text(body) + s1.1 + latch_text(tmp_name(s1.0), kk, ctx.k_ctr@, head, done),
    )
}

/// The k loop of a full window block, ordinals from `t` (head `t`, body
/// `t+1`, done `t+2`, `k` in `t+3`): unrolled by two when K is even, with a
/// single-step tail for the last odd step; else one step per trip.
#[verifier::opaque]
pub open spec fn window_k_loop(t: nat, site: TileSite, ctx: TileCtx, jb: Seq<char>, a_base: Option<Seq<char>>) -> (
    nat,
    Seq<char>,
) {
    let kk = tmp_name(t + 3);
    if site.k % 2 == 0 {
        let main = window_k_main(t + 6, site, ctx, jb, a_base, label_name(t), label_name(t + 1), label_name(t + 4), kk);
        let rest = window_k_rest(main.0, site, ctx, jb, a_base, label_name(t + 4), label_name(t + 5), label_name(t + 2), kk);
        (rest.0, k_open_text(t, ctx, "0"@) + main.1 + rest.1 + label_text(label_name(t + 2)))
    } else {
        let single = window_k_single(t + 4, site, ctx, jb, a_base, label_name(t), label_name(t + 1), label_name(t + 2), kk);
        (single.0, k_open_text(t, ctx, "0"@) + single.1)
    }
}

/// One full `TI x TJ` block of the window nest at `jb`, ordinals from `t`:
/// seed every subrow's lanes, run the k loop, store every subrow to
/// `out[jb + r*TJ + lane]`.
pub open spec fn window_block_text(t: nat, site: TileSite, ctx: TileCtx, jb: Seq<char>, a_base: Option<Seq<char>>) -> (
    nat,
    Seq<char>,
) {
    let tj = num::dec_nat(ctx.tile_j as nat);
    let seed = seed_rows(t, ctx, tj, ctx.tile_i as nat);
    let k = window_k_loop(seed.0, site, ctx, jb, a_base);
    let store = store_rows(k.0, ctx, jb, ctx.tile_j, tj, ctx.tile_i as nat);
    (store.0, seed.1 + k.1 + store.1)
}

proof fn lemma_window_step_width(t: nat, site: TileSite, ctx: TileCtx, jb: Seq<char>, a_base: Option<Seq<char>>, kk: Seq<char>)
    ensures
        t <= window_step_text(t, site, ctx, jb, a_base, kk).0 <= t + 4 + 18 * ctx.tile_i,
{
    reveal(window_step_text);
    lemma_tile_index_counter(t, a_base, seq![(site.a.ck, kk)], 1);
    let a = tile_index_upto(t, a_base, seq![(site.a.ck, kk)], 1);
    lemma_window_rows_width(a.0 + 2, site, ctx, jb, kk, tmp_name(a.0 + 1), ctx.tile_i as nat);
}

proof fn lemma_window_k_loop_width(t: nat, site: TileSite, ctx: TileCtx, jb: Seq<char>, a_base: Option<Seq<char>>)
    ensures
        t <= window_k_loop(t, site, ctx, jb, a_base).0 <= t + 12 + 3 * (4 + 18 * ctx.tile_i),
{
    reveal(window_k_loop);
    reveal(window_k_main);
    reveal(window_k_rest);
    reveal(window_k_single);
    let kk = tmp_name(t + 3);
    if site.k % 2 == 0 {
        lemma_window_step_width(t + 8, site, ctx, jb, a_base, kk);
        let s1 = window_step_text(t + 8, site, ctx, jb, a_base, kk);
        lemma_window_step_width(s1.0, site, ctx, jb, a_base, tmp_name(t + 6));
        let s2 = window_step_text(s1.0, site, ctx, jb, a_base, tmp_name(t + 6));
        lemma_window_step_width(s2.0 + 2, site, ctx, jb, a_base, kk);
    } else {
        lemma_window_step_width(t + 5, site, ctx, jb, a_base, kk);
    }
}

proof fn lemma_window_rows_width(
    t: nat,
    site: TileSite,
    ctx: TileCtx,
    jb: Seq<char>,
    kk: Seq<char>,
    a_value: Seq<char>,
    n: nat,
)
    ensures
        t <= window_rows(t, site, ctx, jb, kk, a_value, n).0 <= t + 18 * n,
    decreases n,
{
    if n > 0 {
        let prev = window_rows(t, site, ctx, jb, kk, a_value, (n - 1) as nat);
        lemma_window_rows_width(t, site, ctx, jb, kk, a_value, (n - 1) as nat);
        lemma_tile_index_counter(
            prev.0,
            window_b_base(site, ctx, (n - 1) as nat),
            window_b_terms(site, kk, jb),
            2,
        );
    }
}

/// A window block takes at most `12 + 3*(4 + 18*TI) + 20*TI` ordinals.
pub proof fn lemma_window_block_width(t: nat, site: TileSite, ctx: TileCtx, jb: Seq<char>, a_base: Option<Seq<char>>)
    ensures
        t <= window_block_text(t, site, ctx, jb, a_base).0 <= t + 12 + 3 * (4 + 18 * ctx.tile_i) + 20 * ctx.tile_i,
{
    let tj = num::dec_nat(ctx.tile_j as nat);
    lemma_seed_rows_width(t, ctx, tj, ctx.tile_i as nat);
    let seed = seed_rows(t, ctx, tj, ctx.tile_i as nat);
    lemma_window_k_loop_width(seed.0, site, ctx, jb, a_base);
    let k = window_k_loop(seed.0, site, ctx, jb, a_base);
    lemma_store_rows_width(k.0, ctx, jb, ctx.tile_j, tj, ctx.tile_i as nat);
}

/// The tile's sizes keep every index constant and ordinal in range.
pub open spec fn tile_fits(site: TileSite, ctx: TileCtx) -> bool {
    &&& site.b.base + ctx.tile_i * ctx.tile_j <= u64::MAX
    &&& ctx.tile_i * ctx.tile_j <= u64::MAX
}

impl<'a> FnEmit<'a> {
    /// `<v> = load <llt>, ptr <ptr>` into a fresh temporary.
    pub(crate) fn emit_load(&mut self, llt: &str, ptr: &str) -> (v: String)
        requires
            old(self).next < u32::MAX,
        ensures
            v@ == tmp_name(old(self).next as nat),
            final(self).body@ == old(self).body@ + load_line(v@, llt@, ptr@),
            final(self).next == old(self).next + 1,
            final(self).allocas == old(self).allocas,
            final(self).heap_used == old(self).heap_used,
            final(self).same_setup(*old(self)),
    {
        let v = self.tmp();
        let mut s = String::from_str(v.as_str());
        s.append(" = load ");
        s.append(llt);
        s.append(", ptr ");
        s.append(ptr);
        self.line(s.as_str());
        assert(s@ =~= v@ + " = load "@ + llt@ + ", ptr "@ + ptr@);
        v
    }

    /// Open a lane loop over `0..bound` on the counter `ctr`; returns the
    /// head and done labels and the lane.
    #[verifier::spinoff_prover]
    pub(crate) fn emit_lane_head(&mut self, ctr: &str, bound: &str) -> (r: (String, String, String))
        requires
            old(self).next + 5 <= u32::MAX,
        ensures
            ({
                let t = old(self).next as nat;
                &&& final(self).body@ == old(self).body@ + lane_head_text(t, ctr@, bound@)
                &&& r.0@ == label_name(t)
                &&& r.1@ == label_name(t + 2)
                &&& r.2@ == tmp_name(t + 3)
            }),
            final(self).next == old(self).next + 5,
            final(self).allocas == old(self).allocas,
            final(self).heap_used == old(self).heap_used,
            final(self).same_setup(*old(self)),
    {
        let ghost t = old(self).next as nat;
        let ghost o = old(self).body@;
        let head = self.label();
        let body = self.label();
        let done = self.label();
        self.emit_store("i64", "0", ctr);
        let ghost w1 = store_line("i64"@, "0"@, ctr@);
        self.jump(head.as_str());
        let ghost p2 = jump_line(label_name(t));
        proof {
            lemma_concat_associative(o, w1, p2);
        }
        self.label_line(head.as_str());
        let ghost p3 = label_text(label_name(t));
        proof {
            lemma_concat_associative(o, w1 + p2, p3);
        }
        let lane = self.emit_load("i64", ctr);
        let ghost p4 = load_line(tmp_name(t + 3), "i64"@, ctr@);
        proof {
            lemma_concat_associative(o, w1 + p2 + p3, p4);
        }
        let cond = self.emit_op("icmp uge", lane.as_str(), bound);
        let ghost p5 = op_line(tmp_name(t + 4), "icmp uge"@, tmp_name(t + 3), bound@);
        proof {
            lemma_concat_associative(o, w1 + p2 + p3 + p4, p5);
        }
        self.branch(cond.as_str(), done.as_str(), body.as_str());
        let ghost p6 = branch_line(tmp_name(t + 4), label_name(t + 2), label_name(t + 1));
        proof {
            lemma_concat_associative(o, w1 + p2 + p3 + p4 + p5, p6);
        }
        self.label_line(body.as_str());
        let ghost p7 = label_text(label_name(t + 1));
        proof {
            lemma_concat_associative(o, w1 + p2 + p3 + p4 + p5 + p6, p7);
        }
        (head, done, lane)
    }

    /// `<v> = <op><flag> <elem> <x>, <y>` into a fresh temporary.
    pub(crate) fn emit_flagged(&mut self, op: &str, flag: &str, elem: &str, x: &str, y: &str) -> (v: String)
        requires
            old(self).next < u32::MAX,
        ensures
            v@ == tmp_name(old(self).next as nat),
            final(self).body@ == old(self).body@ + bin_line(v@, op@ + flag@, elem@, x@, y@),
            final(self).next == old(self).next + 1,
            final(self).allocas == old(self).allocas,
            final(self).heap_used == old(self).heap_used,
            final(self).same_setup(*old(self)),
    {
        let mut instr = String::from_str(op);
        instr.append(flag);
        self.emit_bin(instr.as_str(), elem, x, y)
    }

    /// `acc[r*TJ + lane] = acc[...] + product` in the source's order.
    #[verifier::spinoff_prover]
    pub(crate) fn emit_acc_update(&mut self, site: &TileSite, ctx: &TileCtx, lane: &str, r: u64, product: &str)
        requires
            old(self).next + 4 <= u32::MAX,
            r == 0 || r * ctx.tile_j <= u64::MAX,
        ensures
            ({
                let res = acc_update(old(self).next as nat, *site, *ctx, lane@, r as nat, product@);
                &&& final(self).next == res.0
                &&& final(self).body@ == old(self).body@ + res.1
            }),
            final(self).allocas == old(self).allocas,
            final(self).heap_used == old(self).heap_used,
            final(self).same_setup(*old(self)),
    {
        let ghost t = old(self).next as nat;
        let ghost o = old(self).body@;
        let acc_lane = self.emit_acc_lane(lane, None, r, ctx.tile_j);
        let ghost acc = acc_offset(t, lane@, r as nat, ctx.tile_j);
        assert(self.body@ == o + acc.2) by {
            if r != 0 {
                assert((r * ctx.tile_j) as nat == r as nat * ctx.tile_j as nat);
            } else {
                assert(o + acc.2 =~= o);
            }
        }
        let ghost w = acc.0;
        let acc_ptr = self.emit_gep(ctx.acc_llt.as_str(), ctx.acc.as_str(), acc_lane.as_str());
        let ghost p7 = gep_line(tmp_name(w), ctx.acc_llt@, ctx.acc@, acc.1);
        proof {
            lemma_concat_associative(o, acc.2, p7);
        }
        let ghost w7 = acc.2 + p7;
        let acc_value = self.emit_load(ctx.elem_llt.as_str(), acc_ptr.as_str());
        let ghost p8 = load_line(tmp_name(w + 1), ctx.elem_llt@, tmp_name(w));
        proof {
            lemma_concat_associative(o, w7, p8);
        }
        let ghost w8 = w7 + p8;
        let sum = if site.add_acc_first {
            self.emit_flagged(ctx.add_op, ctx.contract_flag, ctx.elem_llt.as_str(), acc_value.as_str(), product)
        } else {
            self.emit_flagged(ctx.add_op, ctx.contract_flag, ctx.elem_llt.as_str(), product, acc_value.as_str())
        };
        let ghost p9 = sum_line(tmp_name(w + 2), *site, *ctx, tmp_name(w + 1), product@);
        proof {
            lemma_concat_associative(o, w8, p9);
        }
        let ghost w9 = w8 + p9;
        self.emit_store(ctx.elem_llt.as_str(), sum.as_str(), acc_ptr.as_str());
        let ghost p10 = store_line(ctx.elem_llt@, tmp_name(w + 2), tmp_name(w));
        proof {
            lemma_concat_associative(o, w9, p10);
        }
    }

    /// Subrow `r`'s FMA sweep of one window k step from `b_start`.
    #[verifier::spinoff_prover]
    fn emit_window_lane(&mut self, site: &TileSite, ctx: &TileCtx, a_value: &str, b_start: &str, r: u64)
        requires
            old(self).next + 14 <= u32::MAX,
            r == 0 || r * ctx.tile_j <= u64::MAX,
        ensures
            ({
                let res = window_lane(old(self).next as nat, *site, *ctx, a_value@, b_start@, r as nat);
                &&& final(self).next == res.0
                &&& final(self).body@ == old(self).body@ + res.1
            }),
            final(self).allocas == old(self).allocas,
            final(self).heap_used == old(self).heap_used,
            final(self).same_setup(*old(self)),
    {
        let ghost u = old(self).next as nat;
        let ghost o = old(self).body@;
        let tj = num::u64_to_string(ctx.tile_j);
        let (head, done, lane) = self.emit_lane_head(ctx.lane_ctr.as_str(), tj.as_str());
        let ghost w1 = lane_head_text(u, ctx.lane_ctr@, num::dec_nat(ctx.tile_j as nat));
        let index = self.emit_op("add", b_start, lane.as_str());
        let ghost p2 = op_line(tmp_name(u + 5), "add"@, b_start@, tmp_name(u + 3));
        proof {
            lemma_concat_associative(o, w1, p2);
        }
        let ghost w2 = w1 + p2;
        let b_elem_ptr = self.emit_gep(ctx.b_llt.as_str(), ctx.b_ptr.as_str(), index.as_str());
        let ghost p3 = gep_line(tmp_name(u + 6), ctx.b_llt@, ctx.b_ptr@, tmp_name(u + 5));
        proof {
            lemma_concat_associative(o, w2, p3);
        }
        let ghost w3 = w2 + p3;
        let b_value = self.emit_load(ctx.elem_llt.as_str(), b_elem_ptr.as_str());
        let ghost p4 = load_line(tmp_name(u + 7), ctx.elem_llt@, tmp_name(u + 6));
        proof {
            lemma_concat_associative(o, w3, p4);
        }
        let ghost w4 = w3 + p4;
        let product = if site.mul_a_first {
            self.emit_flagged(ctx.mul_op, ctx.contract_flag, ctx.elem_llt.as_str(), a_value, b_value.as_str())
        } else {
            self.emit_flagged(ctx.mul_op, ctx.contract_flag, ctx.elem_llt.as_str(), b_value.as_str(), a_value)
        };
        let ghost p5 = product_line(tmp_name(u + 8), *site, *ctx, a_value@, tmp_name(u + 7));
        proof {
            lemma_concat_associative(o, w4, p5);
        }
        let ghost w5 = w4 + p5;
        self.emit_acc_update(site, ctx, lane.as_str(), r, product.as_str());
        let ghost upd = acc_update(u + 9, *site, *ctx, tmp_name(u + 3), r as nat, tmp_name(u + 8));
        proof {
            lemma_concat_associative(o, w5, upd.1);
        }
        let ghost w10 = w5 + upd.1;
        self.emit_loop_tail(ctx.lane_ctr.as_str(), lane.as_str(), head.as_str(), done.as_str());
        let ghost p11 = lane_tail_text(u, upd.0, ctx.lane_ctr@);
        proof {
            lemma_concat_associative(o, w10, p11);
        }
    }

    /// Subrow `r` of one window k step.
    #[verifier::spinoff_prover]
    fn emit_window_row(
        &mut self,
        site: &TileSite,
        ctx: &TileCtx,
        jb: &str,
        kk: &str,
        a_value: &str,
        r: u64,
    )
        requires
            old(self).next + 18 <= u32::MAX,
            tile_fits(*site, *ctx),
            r < ctx.tile_i,
        ensures
            ({
                let res = window_row(old(self).next as nat, *site, *ctx, jb@, kk@, a_value@, r as nat);
                &&& final(self).next == res.0
                &&& final(self).body@ == old(self).body@ + res.1
            }),
            final(self).allocas == old(self).allocas,
            final(self).heap_used == old(self).heap_used,
            final(self).same_setup(*old(self)),
    {
        let ghost t = old(self).next as nat;
        let ghost o = old(self).body@;
        proof {
            vstd::arithmetic::mul::lemma_mul_inequality(r as int, ctx.tile_i as int, ctx.tile_j as int);
        }
        let b_base_r = site.b.base + r * ctx.tile_j;
        let base = if b_base_r != 0 {
            Some(num::u64_to_string(b_base_r))
        } else {
            None
        };
        let terms = [(site.b.ck, kk), (1u64, jb)];
        assert(term_views(terms@) =~= window_b_terms(*site, kk@, jb@));
        assert(opt_text(base) == window_b_base(*site, *ctx, r as nat));
        proof {
            lemma_tile_index_counter(t, window_b_base(*site, *ctx, r as nat), window_b_terms(*site, kk@, jb@), 2);
        }
        let b_start = match self.emit_tile_index(base, &terms) {
            Some(s) => s,
            None => {
                assert(false);
                String::new()
            },
        };
        let ghost idx = tile_index_upto(t, window_b_base(*site, *ctx, r as nat), window_b_terms(*site, kk@, jb@), 2);
        self.emit_window_lane(site, ctx, a_value, b_start.as_str(), r);
        proof {
            lemma_concat_associative(
                o,
                idx.2,
                window_lane(idx.0, *site, *ctx, a_value@, idx.1.unwrap(), r as nat).1,
            );
        }
    }

    /// Seed subrow `r`'s lanes `0..bound` of the accumulator.
    #[verifier::spinoff_prover]
    fn emit_seed_row(&mut self, ctx: &TileCtx, bound: &str, r: u64)
        requires
            old(self).next + 8 <= u32::MAX,
            r == 0 || r * ctx.tile_j <= u64::MAX,
        ensures
            ({
                let res = seed_row(old(self).next as nat, *ctx, bound@, r as nat);
                &&& final(self).next == res.0
                &&& final(self).body@ == old(self).body@ + res.1
            }),
            final(self).allocas == old(self).allocas,
            final(self).heap_used == old(self).heap_used,
            final(self).same_setup(*old(self)),
    {
        let ghost t = old(self).next as nat;
        let ghost o = old(self).body@;
        let (head, done, lane) = self.emit_lane_head(ctx.lane_ctr.as_str(), bound);
        let ghost w1 = lane_head_text(t, ctx.lane_ctr@, bound@);
        let acc_lane = self.emit_acc_lane(lane.as_str(), None, r, ctx.tile_j);
        let ghost acc = acc_offset(t + 5, tmp_name(t + 3), r as nat, ctx.tile_j);
        assert(self.body@ == o + w1 + acc.2) by {
            if r != 0 {
                assert((r * ctx.tile_j) as nat == r as nat * ctx.tile_j as nat);
            } else {
                assert(o + w1 + acc.2 =~= o + w1);
            }
        }
        proof {
            lemma_concat_associative(o, w1, acc.2);
        }
        let ghost w2 = w1 + acc.2;
        let ghost w = acc.0;
        let seed_ptr = self.emit_gep(ctx.acc_llt.as_str(), ctx.acc.as_str(), acc_lane.as_str());
        let ghost p3 = gep_line(tmp_name(w), ctx.acc_llt@, ctx.acc@, acc.1);
        proof {
            lemma_concat_associative(o, w2, p3);
        }
        let ghost w3 = w2 + p3;
        self.emit_store(ctx.elem_llt.as_str(), ctx.seed.as_str(), seed_ptr.as_str());
        let ghost p4 = store_line(ctx.elem_llt@, ctx.seed@, tmp_name(w));
        proof {
            lemma_concat_associative(o, w3, p4);
        }
        let ghost w4 = w3 + p4;
        self.emit_loop_tail(ctx.lane_ctr.as_str(), lane.as_str(), head.as_str(), done.as_str());
        proof {
            lemma_concat_associative(o, w4, lane_tail_text(t, w + 1, ctx.lane_ctr@));
        }
    }

    /// Seed subrows `0..rows`, each over lanes `0..bound`: subrow `r`'s lanes
    /// sit at accumulator offset `r*TJ`.
    pub(crate) fn emit_seed_rows(&mut self, ctx: &TileCtx, bound: &str, rows: u64)
        requires
            old(self).next + 8 * rows <= u32::MAX,
            rows * ctx.tile_j <= u64::MAX,
        ensures
            ({
                let res = seed_rows(old(self).next as nat, *ctx, bound@, rows as nat);
                &&& final(self).next == res.0
                &&& final(self).body@ == old(self).body@ + res.1
            }),
            final(self).allocas == old(self).allocas,
            final(self).heap_used == old(self).heap_used,
            final(self).same_setup(*old(self)),
    {
        let ghost t = old(self).next as nat;
        let mut r: u64 = 0;
        while r < rows
            invariant
                0 <= r <= rows,
                t == old(self).next,
                old(self).next + 8 * rows <= u32::MAX,
                rows * ctx.tile_j <= u64::MAX,
                ({
                    let res = seed_rows(t, *ctx, bound@, r as nat);
                    &&& self.next == res.0
                    &&& self.body@ == old(self).body@ + res.1
                }),
                self.allocas == old(self).allocas,
                self.heap_used == old(self).heap_used,
                self.same_setup(*old(self)),
            decreases rows - r,
        {
            proof {
                lemma_seed_rows_width(t, *ctx, bound@, r as nat);
                vstd::arithmetic::mul::lemma_mul_inequality(r as int, rows as int, ctx.tile_j as int);
            }
            self.emit_seed_row(ctx, bound, r);
            proof {
                let prev = seed_rows(t, *ctx, bound@, r as nat);
                lemma_concat_associative(
                    old(self).body@,
                    prev.1,
                    seed_row(prev.0, *ctx, bound@, r as nat).1,
                );
            }
            r += 1;
        }
    }

    /// Store subrow `r`'s lanes `0..bound` to `out[base + r*stride + lane]`.
    #[verifier::spinoff_prover]
    #[verifier::rlimit(40)]
    fn emit_store_row(&mut self, ctx: &TileCtx, base: &str, stride: u64, bound: &str, r: u64)
        requires
            old(self).next + 12 <= u32::MAX,
            r == 0 || r * ctx.tile_j <= u64::MAX,
            r == 0 || r * stride <= u64::MAX,
        ensures
            ({
                let res = store_row(old(self).next as nat, *ctx, base@, stride, bound@, r as nat);
                &&& final(self).next == res.0
                &&& final(self).body@ == old(self).body@ + res.1
            }),
            final(self).allocas == old(self).allocas,
            final(self).heap_used == old(self).heap_used,
            final(self).same_setup(*old(self)),
    {
        let ghost t = old(self).next as nat;
        let ghost o = old(self).body@;
        let base_r = self.emit_acc_lane(base, None, r, stride);
        let ghost shifted = if r == 0 {
            (t, base@, Seq::<char>::empty())
        } else {
            (t + 1, tmp_name(t), op_line(tmp_name(t), "add"@, base@, num::dec_nat(r as nat * stride as nat)))
        };
        assert(self.body@ == o + shifted.2 && base_r@ == shifted.1 && self.next == shifted.0) by {
            if r != 0 {
                assert((r * stride) as nat == r as nat * stride as nat);
            } else {
                assert(o + shifted.2 =~= o);
            }
        }
        let ghost h = shifted.0;
        let ghost w0 = shifted.2;
        let (head, done, lane) = self.emit_lane_head(ctx.lane_ctr.as_str(), bound);
        let ghost p1 = lane_head_text(h, ctx.lane_ctr@, bound@);
        proof {
            lemma_concat_associative(o, w0, p1);
        }
        let ghost w1 = w0 + p1;
        let acc_lane = self.emit_acc_lane(lane.as_str(), None, r, ctx.tile_j);
        let ghost acc = acc_offset(h + 5, tmp_name(h + 3), r as nat, ctx.tile_j);
        assert(self.body@ == o + w1 + acc.2) by {
            if r != 0 {
                assert((r * ctx.tile_j) as nat == r as nat * ctx.tile_j as nat);
            } else {
                assert(o + w1 + acc.2 =~= o + w1);
            }
        }
        proof {
            lemma_concat_associative(o, w1, acc.2);
        }
        let ghost w2 = w1 + acc.2;
        let ghost w = acc.0;
        let acc_ptr = self.emit_gep(ctx.acc_llt.as_str(), ctx.acc.as_str(), acc_lane.as_str());
        let ghost p3 = gep_line(tmp_name(w), ctx.acc_llt@, ctx.acc@, acc.1);
        proof {
            lemma_concat_associative(o, w2, p3);
        }
        let ghost w3 = w2 + p3;
        let value = self.emit_load(ctx.elem_llt.as_str(), acc_ptr.as_str());
        let ghost p4 = load_line(tmp_name(w + 1), ctx.elem_llt@, tmp_name(w));
        proof {
            lemma_concat_associative(o, w3, p4);
        }
        let ghost w4 = w3 + p4;
        let out_index = self.emit_op("add", base_r.as_str(), lane.as_str());
        let ghost p5 = op_line(tmp_name(w + 2), "add"@, shifted.1, tmp_name(h + 3));
        proof {
            lemma_concat_associative(o, w4, p5);
        }
        let ghost w5 = w4 + p5;
        let out_ptr = self.emit_gep(ctx.out_llt.as_str(), ctx.out_ptr.as_str(), out_index.as_str());
        let ghost p6 = gep_line(tmp_name(w + 3), ctx.out_llt@, ctx.out_ptr@, tmp_name(w + 2));
        proof {
            lemma_concat_associative(o, w5, p6);
        }
        let ghost w6 = w5 + p6;
        self.emit_store(ctx.elem_llt.as_str(), value.as_str(), out_ptr.as_str());
        let ghost p7 = store_line(ctx.elem_llt@, tmp_name(w + 1), tmp_name(w + 3));
        proof {
            lemma_concat_associative(o, w6, p7);
        }
        let ghost w7 = w6 + p7;
        self.emit_loop_tail(ctx.lane_ctr.as_str(), lane.as_str(), head.as_str(), done.as_str());
        proof {
            lemma_concat_associative(o, w7, lane_tail_text(h, w + 4, ctx.lane_ctr@));
        }
    }

    /// Store subrows `0..rows`, subrow `r` to `out[base + r*stride + lane]`
    /// for lanes `0..bound`.
    pub(crate) fn emit_store_rows(&mut self, ctx: &TileCtx, base: &str, stride: u64, bound: &str, rows: u64)
        requires
            old(self).next + 12 * rows <= u32::MAX,
            rows * ctx.tile_j <= u64::MAX,
            rows * stride <= u64::MAX,
        ensures
            ({
                let res = store_rows(old(self).next as nat, *ctx, base@, stride, bound@, rows as nat);
                &&& final(self).next == res.0
                &&& final(self).body@ == old(self).body@ + res.1
            }),
            final(self).allocas == old(self).allocas,
            final(self).heap_used == old(self).heap_used,
            final(self).same_setup(*old(self)),
    {
        let ghost t = old(self).next as nat;
        let mut r: u64 = 0;
        while r < rows
            invariant
                0 <= r <= rows,
                t == old(self).next,
                old(self).next + 12 * rows <= u32::MAX,
                rows * ctx.tile_j <= u64::MAX,
                rows * stride <= u64::MAX,
                ({
                    let res = store_rows(t, *ctx, base@, stride, bound@, r as nat);
                    &&& self.next == res.0
                    &&& self.body@ == old(self).body@ + res.1
                }),
                self.allocas == old(self).allocas,
                self.heap_used == old(self).heap_used,
                self.same_setup(*old(self)),
            decreases rows - r,
        {
            proof {
                lemma_store_rows_width(t, *ctx, base@, stride, bound@, r as nat);
                vstd::arithmetic::mul::lemma_mul_inequality(r as int, rows as int, ctx.tile_j as int);
                vstd::arithmetic::mul::lemma_mul_inequality(r as int, rows as int, stride as int);
            }
            self.emit_store_row(ctx, base, stride, bound, r);
            proof {
                let prev = store_rows(t, *ctx, base@, stride, bound@, r as nat);
                lemma_concat_associative(
                    old(self).body@,
                    prev.1,
                    store_row(prev.0, *ctx, base@, stride, bound@, r as nat).1,
                );
            }
            r += 1;
        }
    }

    /// Subrows `0..TI` of one window k step.
    fn emit_window_rows(&mut self, site: &TileSite, ctx: &TileCtx, jb: &str, kk: &str, a_value: &str)
        requires
            old(self).next + 18 * ctx.tile_i <= u32::MAX,
            tile_fits(*site, *ctx),
        ensures
            ({
                let res = window_rows(old(self).next as nat, *site, *ctx, jb@, kk@, a_value@, ctx.tile_i as nat);
                &&& final(self).next == res.0
                &&& final(self).body@ == old(self).body@ + res.1
            }),
            final(self).allocas == old(self).allocas,
            final(self).heap_used == old(self).heap_used,
            final(self).same_setup(*old(self)),
    {
        let ghost t = old(self).next as nat;
        let mut r: u64 = 0;
        while r < ctx.tile_i
            invariant
                0 <= r <= ctx.tile_i,
                t == old(self).next,
                old(self).next + 18 * ctx.tile_i <= u32::MAX,
                tile_fits(*site, *ctx),
                ({
                    let res = window_rows(t, *site, *ctx, jb@, kk@, a_value@, r as nat);
                    &&& self.next == res.0
                    &&& self.body@ == old(self).body@ + res.1
                }),
                self.allocas == old(self).allocas,
                self.heap_used == old(self).heap_used,
                self.same_setup(*old(self)),
            decreases ctx.tile_i - r,
        {
            proof {
                lemma_window_rows_width(t, *site, *ctx, jb@, kk@, a_value@, r as nat);
            }
            self.emit_window_row(site, ctx, jb, kk, a_value, r);
            proof {
                let prev = window_rows(t, *site, *ctx, jb@, kk@, a_value@, r as nat);
                lemma_concat_associative(
                    old(self).body@,
                    prev.1,
                    window_row(prev.0, *site, *ctx, jb@, kk@, a_value@, r as nat).1,
                );
            }
            r += 1;
        }
    }

    /// One k step of a full window block: ONE `a` element
    /// (`a[a_base + a.ck*k]`) shared across the subrows; subrow `r` FMAs
    /// `b[b.base + b.ck*k + jb + r*TJ + lane]` into `acc[r*TJ + lane]`.
    #[verifier::spinoff_prover]
    pub fn emit_tile_window_step(
        &mut self,
        site: &TileSite,
        ctx: &TileCtx,
        jb: &str,
        a_base: &Option<String>,
        kk: &str,
    )
        requires
            old(self).next + 4 + 18 * ctx.tile_i <= u32::MAX,
            tile_fits(*site, *ctx),
        ensures
            ({
                let res = window_step_text(old(self).next as nat, *site, *ctx, jb@, opt_text(*a_base), kk@);
                &&& final(self).next == res.0
                &&& final(self).body@ == old(self).body@ + res.1
            }),
            final(self).allocas == old(self).allocas,
            final(self).heap_used == old(self).heap_used,
            final(self).same_setup(*old(self)),
    {
        reveal(window_step_text);
        let ghost t = old(self).next as nat;
        let ghost o = old(self).body@;
        let base = match a_base {
            Some(b) => Some(b.clone()),
            None => None,
        };
        let terms = [(site.a.ck, kk)];
        assert(term_views(terms@) =~= seq![(site.a.ck, kk@)]);
        proof {
            lemma_tile_index_counter(t, opt_text(*a_base), seq![(site.a.ck, kk@)], 1);
        }
        let a_index = match self.emit_tile_index(base, &terms) {
            Some(i) => i,
            None => String::from_str("0"),
        };
        let ghost a = tile_index_upto(t, opt_text(*a_base), seq![(site.a.ck, kk@)], 1);
        let ghost u = a.0;
        let a_elem_ptr = self.emit_gep(ctx.a_llt.as_str(), ctx.a_ptr.as_str(), a_index.as_str());
        let ghost a_idx = match a.1 {
            Some(s) => s,
            None => "0"@,
        };
        let ghost p1 = gep_line(tmp_name(u), ctx.a_llt@, ctx.a_ptr@, a_idx);
        proof {
            lemma_concat_associative(o, a.2, p1);
        }
        let a_value = self.emit_load(ctx.elem_llt.as_str(), a_elem_ptr.as_str());
        let ghost p2 = load_line(tmp_name(u + 1), ctx.elem_llt@, tmp_name(u));
        proof {
            lemma_concat_associative(o, a.2 + p1, p2);
        }
        self.emit_window_rows(site, ctx, jb, kk, a_value.as_str());
        proof {
            lemma_concat_associative(
                o,
                a.2 + p1 + p2,
                window_rows(u + 2, *site, *ctx, jb@, kk@, tmp_name(u + 1), ctx.tile_i as nat).1,
            );
        }
    }

    /// Open a k loop: the counter starts at 0, the head loads `k`. Returns
    /// the head, body and done labels and `k`.
    pub(crate) fn emit_k_open(&mut self, ctx: &TileCtx, k_lo: &str) -> (r: (String, String, String, String))
        requires
            old(self).next + 4 <= u32::MAX,
        ensures
            ({
                let t = old(self).next as nat;
                &&& final(self).body@ == old(self).body@ + k_open_text(t, *ctx, k_lo@)
                &&& r.0@ == label_name(t)
                &&& r.1@ == label_name(t + 1)
                &&& r.2@ == label_name(t + 2)
                &&& r.3@ == tmp_name(t + 3)
            }),
            final(self).next == old(self).next + 4,
            final(self).allocas == old(self).allocas,
            final(self).heap_used == old(self).heap_used,
            final(self).same_setup(*old(self)),
    {
        let ghost t = old(self).next as nat;
        let ghost o = old(self).body@;
        let head = self.label();
        let body = self.label();
        let done = self.label();
        self.emit_store("i64", k_lo, ctx.k_ctr.as_str());
        let ghost w1 = store_line("i64"@, k_lo@, ctx.k_ctr@);
        self.jump(head.as_str());
        proof {
            lemma_concat_associative(o, w1, jump_line(label_name(t)));
        }
        let ghost w2 = w1 + jump_line(label_name(t));
        self.label_line(head.as_str());
        proof {
            lemma_concat_associative(o, w2, label_text(label_name(t)));
        }
        let ghost w3 = w2 + label_text(label_name(t));
        let kk = self.emit_load("i64", ctx.k_ctr.as_str());
        proof {
            lemma_concat_associative(o, w3, load_line(tmp_name(t + 3), "i64"@, ctx.k_ctr@));
        }
        (head, body, done, kk)
    }

    /// The unrolled k loop of an even-K window block, after its opening.
    /// The paired trip of an even-K window k loop: steps `k` and `k+1`,
    /// then `k += 2`; leaves for `tail_check` when `k+1` reaches K.
    #[verifier::spinoff_prover]
    fn emit_window_k_main(
        &mut self,
        site: &TileSite,
        ctx: &TileCtx,
        jb: &str,
        a_base: &Option<String>,
        head: &str,
        body: &str,
        tail_check: &str,
        kk: &str,
    )
        requires
            old(self).next + 5 + 2 * (4 + 18 * ctx.tile_i) <= u32::MAX,
            tile_fits(*site, *ctx),
        ensures
            ({
                let res = window_k_main(
                    old(self).next as nat,
                    *site,
                    *ctx,
                    jb@,
                    opt_text(*a_base),
                    head@,
                    body@,
                    tail_check@,
                    kk@,
                );
                &&& final(self).next == res.0
                &&& final(self).body@ == old(self).body@ + res.1
            }),
            final(self).allocas == old(self).allocas,
            final(self).heap_used == old(self).heap_used,
            final(self).same_setup(*old(self)),
    {
        reveal(window_k_main);
        let ghost t = old(self).next as nat;
        let ghost o = old(self).body@;
        let ghost ab = opt_text(*a_base);
        let k = num::u64_to_string(site.k);
        let kk1 = self.emit_op("add", kk, "1");
        let ghost w1 = op_line(tmp_name(t), "add"@, kk@, "1"@);
        let pair = self.emit_op("icmp ult", kk1.as_str(), k.as_str());
        let ghost p = op_line(tmp_name(t + 1), "icmp ult"@, tmp_name(t), num::dec_nat(site.k as nat));
        proof {
            lemma_concat_associative(o, w1, p);
        }
        let ghost w2 = w1 + p;
        self.branch(pair.as_str(), body, tail_check);
        let ghost p = branch_line(tmp_name(t + 1), body@, tail_check@);
        proof {
            lemma_concat_associative(o, w2, p);
        }
        let ghost w3 = w2 + p;
        self.label_line(body);
        let ghost p = label_text(body@);
        proof {
            lemma_concat_associative(o, w3, p);
        }
        let ghost w4 = w3 + p;
        proof {
            lemma_window_step_width(t + 2, *site, *ctx, jb@, ab, kk@);
        }
        self.emit_tile_window_step(site, ctx, jb, a_base, kk);
        let ghost s1 = window_step_text(t + 2, *site, *ctx, jb@, ab, kk@);
        proof {
            lemma_concat_associative(o, w4, s1.1);
            lemma_window_step_width(s1.0, *site, *ctx, jb@, ab, tmp_name(t));
        }
        let ghost w5 = w4 + s1.1;
        self.emit_tile_window_step(site, ctx, jb, a_base, kk1.as_str());
        let ghost s2 = window_step_text(s1.0, *site, *ctx, jb@, ab, tmp_name(t));
        proof {
            lemma_concat_associative(o, w5, s2.1);
        }
        let ghost w6 = w5 + s2.1;
        let kk2 = self.emit_op("add", kk, "2");
        let ghost p = op_line(tmp_name(s2.0), "add"@, kk@, "2"@);
        proof {
            lemma_concat_associative(o, w6, p);
        }
        let ghost w7 = w6 + p;
        self.emit_store("i64", kk2.as_str(), ctx.k_ctr.as_str());
        let ghost p = store_line("i64"@, tmp_name(s2.0), ctx.k_ctr@);
        proof {
            lemma_concat_associative(o, w7, p);
        }
        let ghost w8 = w7 + p;
        self.jump(head);
        proof {
            lemma_concat_associative(o, w8, jump_line(head@));
        }
    }

    /// The tail of an even-K window k loop: one more step while `k < K`.
    #[verifier::spinoff_prover]
    fn emit_window_k_rest(
        &mut self,
        site: &TileSite,
        ctx: &TileCtx,
        jb: &str,
        a_base: &Option<String>,
        tail_check: &str,
        tail: &str,
        done: &str,
        kk: &str,
    )
        requires
            old(self).next + 1 + (4 + 18 * ctx.tile_i) <= u32::MAX,
            tile_fits(*site, *ctx),
        ensures
            ({
                let res = window_k_rest(
                    old(self).next as nat,
                    *site,
                    *ctx,
                    jb@,
                    opt_text(*a_base),
                    tail_check@,
                    tail@,
                    done@,
                    kk@,
                );
                &&& final(self).next == res.0
                &&& final(self).body@ == old(self).body@ + res.1
            }),
            final(self).allocas == old(self).allocas,
            final(self).heap_used == old(self).heap_used,
            final(self).same_setup(*old(self)),
    {
        reveal(window_k_rest);
        let ghost t = old(self).next as nat;
        let ghost o = old(self).body@;
        let ghost ab = opt_text(*a_base);
        let k = num::u64_to_string(site.k);
        self.label_line(tail_check);
        let ghost w1 = label_text(tail_check@);
        let more = self.emit_op("icmp ult", kk, k.as_str());
        let ghost p = op_line(tmp_name(t), "icmp ult"@, kk@, num::dec_nat(site.k as nat));
        proof {
            lemma_concat_associative(o, w1, p);
        }
        let ghost w2 = w1 + p;
        self.branch(more.as_str(), tail, done);
        let ghost p = branch_line(tmp_name(t), tail@, done@);
        proof {
            lemma_concat_associative(o, w2, p);
        }
        let ghost w3 = w2 + p;
        self.label_line(tail);
        let ghost p = label_text(tail@);
        proof {
            lemma_concat_associative(o, w3, p);
        }
        let ghost w4 = w3 + p;
        proof {
            lemma_window_step_width(t + 1, *site, *ctx, jb@, ab, kk@);
        }
        self.emit_tile_window_step(site, ctx, jb, a_base, kk);
        let ghost s3 = window_step_text(t + 1, *site, *ctx, jb@, ab, kk@);
        proof {
            lemma_concat_associative(o, w4, s3.1);
        }
        let ghost w5 = w4 + s3.1;
        self.jump(done);
        proof {
            lemma_concat_associative(o, w5, jump_line(done@));
        }
    }

    /// The single-step trip of an odd-K window k loop.
    #[verifier::spinoff_prover]
    fn emit_window_k_single(
        &mut self,
        site: &TileSite,
        ctx: &TileCtx,
        jb: &str,
        a_base: &Option<String>,
        head: &str,
        body: &str,
        done: &str,
        kk: &str,
    )
        requires
            old(self).next + 2 + (4 + 18 * ctx.tile_i) <= u32::MAX,
            tile_fits(*site, *ctx),
        ensures
            ({
                let res = window_k_single(
                    old(self).next as nat,
                    *site,
                    *ctx,
                    jb@,
                    opt_text(*a_base),
                    head@,
                    body@,
                    done@,
                    kk@,
                );
                &&& final(self).next == res.0
                &&& final(self).body@ == old(self).body@ + res.1
            }),
            final(self).allocas == old(self).allocas,
            final(self).heap_used == old(self).heap_used,
            final(self).same_setup(*old(self)),
    {
        reveal(window_k_single);
        let ghost t = old(self).next as nat;
        let ghost o = old(self).body@;
        let ghost ab = opt_text(*a_base);
        let k = num::u64_to_string(site.k);
        let depth_done = self.emit_op("icmp uge", kk, k.as_str());
        let ghost w1 = op_line(tmp_name(t), "icmp uge"@, kk@, num::dec_nat(site.k as nat));
        self.branch(depth_done.as_str(), done, body);
        let ghost p = branch_line(tmp_name(t), done@, body@);
        proof {
            lemma_concat_associative(o, w1, p);
        }
        let ghost w2 = w1 + p;
        self.label_line(body);
        let ghost p = label_text(body@);
        proof {
            lemma_concat_associative(o, w2, p);
            lemma_window_step_width(t + 1, *site, *ctx, jb@, ab, kk@);
        }
        let ghost w3 = w2 + p;
        self.emit_tile_window_step(site, ctx, jb, a_base, kk);
        let ghost s1 = window_step_text(t + 1, *site, *ctx, jb@, ab, kk@);
        proof {
            lemma_concat_associative(o, w3, s1.1);
        }
        let ghost w4 = w3 + s1.1;
        self.emit_loop_tail(ctx.k_ctr.as_str(), kk, head, done);
        proof {
            lemma_concat_associative(o, w4, latch_text(tmp_name(s1.0), kk@, ctx.k_ctr@, head@, done@));
        }
    }

    /// The k loop of a full window block.
    #[verifier::spinoff_prover]
    fn emit_window_k_loop(&mut self, site: &TileSite, ctx: &TileCtx, jb: &str, a_base: &Option<String>)
        requires
            old(self).next + 12 + 3 * (4 + 18 * ctx.tile_i) <= u32::MAX,
            tile_fits(*site, *ctx),
        ensures
            ({
                let res = window_k_loop(old(self).next as nat, *site, *ctx, jb@, opt_text(*a_base));
                &&& final(self).next == res.0
                &&& final(self).body@ == old(self).body@ + res.1
            }),
            final(self).allocas == old(self).allocas,
            final(self).heap_used == old(self).heap_used,
            final(self).same_setup(*old(self)),
    {
        reveal(window_k_loop);
        let ghost t = old(self).next as nat;
        let ghost o = old(self).body@;
        let ghost ab = opt_text(*a_base);
        proof {
            lemma_window_k_loop_width(t, *site, *ctx, jb@, ab);
            reveal(window_k_main);
            reveal(window_k_rest);
            reveal(window_k_single);
            if site.k % 2 == 0 {
                lemma_window_step_width(t + 8, *site, *ctx, jb@, ab, tmp_name(t + 3));
                let s1 = window_step_text(t + 8, *site, *ctx, jb@, ab, tmp_name(t + 3));
                lemma_window_step_width(s1.0, *site, *ctx, jb@, ab, tmp_name(t + 6));
            } else {
                lemma_window_step_width(t + 5, *site, *ctx, jb@, ab, tmp_name(t + 3));
            }
        }
        let (head, body, done, kk) = self.emit_k_open(ctx, "0");
        let ghost w0 = k_open_text(t, *ctx, "0"@);
        if site.k % 2 == 0 {
            let tail_check = self.label();
            let tail = self.label();
            self.emit_window_k_main(site, ctx, jb, a_base, head.as_str(), body.as_str(), tail_check.as_str(), kk.as_str());
            let ghost main = window_k_main(
                t + 6,
                *site,
                *ctx,
                jb@,
                ab,
                label_name(t),
                label_name(t + 1),
                label_name(t + 4),
                tmp_name(t + 3),
            );
            proof {
                lemma_concat_associative(o, w0, main.1);
                reveal(window_k_main);
                let s1 = window_step_text(t + 8, *site, *ctx, jb@, ab, tmp_name(t + 3));
                let s2 = window_step_text(s1.0, *site, *ctx, jb@, ab, tmp_name(t + 6));
                lemma_window_step_width(s2.0 + 2, *site, *ctx, jb@, ab, tmp_name(t + 3));
            }
            self.emit_window_k_rest(site, ctx, jb, a_base, tail_check.as_str(), tail.as_str(), done.as_str(), kk.as_str());
            let ghost rest = window_k_rest(
                main.0,
                *site,
                *ctx,
                jb@,
                ab,
                label_name(t + 4),
                label_name(t + 5),
                label_name(t + 2),
                tmp_name(t + 3),
            );
            proof {
                lemma_concat_associative(o, w0 + main.1, rest.1);
            }
            self.label_line(done.as_str());
            proof {
                lemma_concat_associative(o, w0 + main.1 + rest.1, label_text(label_name(t + 2)));
            }
        } else {
            self.emit_window_k_single(site, ctx, jb, a_base, head.as_str(), body.as_str(), done.as_str(), kk.as_str());
            proof {
                lemma_concat_associative(
                    o,
                    w0,
                    window_k_single(
                        t + 4,
                        *site,
                        *ctx,
                        jb@,
                        ab,
                        label_name(t),
                        label_name(t + 1),
                        label_name(t + 2),
                        tmp_name(t + 3),
                    ).1,
                );
            }
        }
    }

    /// One full `TI x TJ` block of the window nest at `jb`: subrow `r`'s
    /// lanes live at accumulator offset `r*TJ`; the seed and store sweeps
    /// run over the constant TJ lanes; the k loop unrolls by two when K is
    /// even; per k one `a` element is shared across the subrows, and each
    /// cell's chain stays k-ascending.
    #[verifier::spinoff_prover]
    pub fn emit_tile_window_block(&mut self, site: &TileSite, ctx: &TileCtx, jb: &str, a_base: &Option<String>)
        requires
            old(self).next + 12 + 3 * (4 + 18 * ctx.tile_i) + 20 * ctx.tile_i <= u32::MAX,
            tile_fits(*site, *ctx),
        ensures
            ({
                let res = window_block_text(old(self).next as nat, *site, *ctx, jb@, opt_text(*a_base));
                &&& final(self).next == res.0
                &&& final(self).body@ == old(self).body@ + res.1
            }),
            final(self).allocas == old(self).allocas,
            final(self).heap_used == old(self).heap_used,
            final(self).same_setup(*old(self)),
    {
        let ghost t = old(self).next as nat;
        let ghost o = old(self).body@;
        let ghost ab = opt_text(*a_base);
        let tj = num::u64_to_string(ctx.tile_j);
        proof {
            lemma_seed_rows_width(t, *ctx, tj@, ctx.tile_i as nat);
        }
        self.emit_seed_rows(ctx, tj.as_str(), ctx.tile_i);
        let ghost seed = seed_rows(t, *ctx, tj@, ctx.tile_i as nat);
        proof {
            lemma_window_k_loop_width(seed.0, *site, *ctx, jb@, ab);
        }
        self.emit_window_k_loop(site, ctx, jb, a_base);
        let ghost k = window_k_loop(seed.0, *site, *ctx, jb@, ab);
        proof {
            lemma_concat_associative(o, seed.1, k.1);
            lemma_store_rows_width(k.0, *ctx, jb@, ctx.tile_j, tj@, ctx.tile_i as nat);
        }
        self.emit_store_rows(ctx, jb, ctx.tile_j, tj.as_str(), ctx.tile_i);
        let ghost store = store_rows(k.0, *ctx, jb@, ctx.tile_j, tj@, ctx.tile_i as nat);
        proof {
            lemma_concat_associative(o, seed.1 + k.1, store.1);
        }
    }
}

} // verus!
