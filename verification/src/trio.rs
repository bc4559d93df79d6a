//! The matmul rung's lane-loop trio for one j-tile of an i-block: seed the
//! accumulators, run the k loop (x2-unrolled on the full constant-width
//! body), store the sums. Per k step each subrow reads one `a` scalar and
//! every lane reads ONE `b` element, shared by all the subrows' FMAs, all in
//! the operand orders the source wrote. The KC nest's variant reads `a` from
//! the packed panel and parks its partial sums in `out` between panels.
use vstd::prelude::*;
use vstd::seq_lib::lemma_concat_associative;
use crate::access::{gep_line, latch_text, load_line, store_line};
use crate::arith::{bin_line, branch_line, jump_line};
use crate::conv::{aligned_load_line, aligned_store_line};
use crate::llt::{align_ok, llt_algn, parse_u64};
use crate::emit::{
    FnEmit, PackedBuffer, TileCtx, label_name, label_text, lemma_tile_index_counter, line_text, op_line, opt_text,
    splat_text, term_views, tile_index_upto, tmp_name, vec_text,
};
use crate::num;
use crate::site::TileSite;
use crate::tile::{
    k_open_text, lane_head_text, lane_tail_text, lemma_seed_rows_width, lemma_store_rows_width, product_line, seed_rows,
    store_rows, sum_line,
};

verus! {

/// An optional text's characters.
pub open spec fn opt_str(s: Option<&str>) -> Option<Seq<char>> {
    match s {
        Some(s) => Some(s@),
        None => None,
    }
}

/// Strings' characters.
pub open spec fn texts(v: Seq<String>) -> Seq<Seq<char>> {
    Seq::new(v.len(), |i: int| v[i]@)
}

/// The k steps of a lane loop: each step's `k` and its subrows' `a` values.
pub open spec fn steps_view(steps: Seq<(&str, Vec<String>)>) -> Seq<(Seq<char>, Seq<Seq<char>>)> {
    Seq::new(steps.len(), |i: int| (steps[i].0@, texts(steps[i].1@)))
}

/// The ordinals a lane loop's first `n` k steps may take.
pub open spec fn steps_budget(steps: Seq<(Seq<char>, Seq<Seq<char>>)>, n: nat) -> nat
    decreases n,
{
    if n == 0 {
        0
    } else {
        steps_budget(steps, (n - 1) as nat) + 9 + 6 * steps[n - 1].1.len()
    }
}


/// The accumulator's flat offset for (subrow `r`, `lane`): `acc_base +
/// r*stride + lane`, the additions minted from `t` only where needed.
/// `(next, text, offset)`.
pub open spec fn acc_lane_text(t: nat, lane: Seq<char>, acc_base: Option<Seq<char>>, r: nat, stride: u64) -> (
    nat,
    Seq<char>,
    Seq<char>,
) {
    let rs = num::dec_nat((r * stride) as nat);
    match acc_base {
        None => if r == 0 {
            (t, Seq::empty(), lane)
        } else {
            (t + 1, op_line(tmp_name(t), "add"@, lane, rs), tmp_name(t))
        },
        Some(base) => if r == 0 {
            (t + 1, op_line(tmp_name(t), "add"@, lane, base), tmp_name(t))
        } else {
            (t + 2, op_line(tmp_name(t), "add"@, base, rs) + op_line(tmp_name(t + 1), "add"@, lane, tmp_name(t)), tmp_name(t + 1))
        },
    }
}

/// Subrow `r`'s FMA at one lane, ordinals from `u`: the product into
/// `tmp(u)`, then `acc[offset] = acc[offset] + product`, both in the
/// source's order.
pub open spec fn fma_row(
    u: nat,
    site: TileSite,
    ctx: TileCtx,
    lane: Seq<char>,
    acc_base: Option<Seq<char>>,
    stride: u64,
    r: nat,
    a_value: Seq<char>,
    b_value: Seq<char>,
) -> (nat, Seq<char>) {
    let acc = acc_lane_text(u + 1, lane, acc_base, r, stride);
    let w = acc.0;
    let elem = ctx.elem_llt@;
    (
        w + 3,
        product_line(tmp_name(u), site, ctx, a_value, b_value) + acc.1 + gep_line(
            tmp_name(w),
            ctx.acc_llt@,
            ctx.acc@,
            acc.2,
        ) + load_line(tmp_name(w + 1), elem, tmp_name(w)) + sum_line(tmp_name(w + 2), site, ctx, tmp_name(w + 1), tmp_name(u))
            + store_line(elem, tmp_name(w + 2), tmp_name(w)),
    )
}

/// The first `n` subrows' FMAs at one lane on the shared `b_value`.
pub open spec fn fma_rows(
    u: nat,
    site: TileSite,
    ctx: TileCtx,
    lane: Seq<char>,
    acc_base: Option<Seq<char>>,
    stride: u64,
    a_values: Seq<Seq<char>>,
    b_value: Seq<char>,
    n: nat,
) -> (nat, Seq<char>)
    decreases n,
{
    if n == 0 {
        (u, Seq::empty())
    } else {
        let prev = fma_rows(u, site, ctx, lane, acc_base, stride, a_values, b_value, (n - 1) as nat);
        let row = fma_row(prev.0, site, ctx, lane, acc_base, stride, (n - 1) as nat, a_values[n - 1], b_value);
        (row.0, prev.1 + row.1)
    }
}

/// A packed panel row and lane from a hoisted panel base, ordinals from
/// `t`: row `panel_base + k*TJ`, lane `panel_lane0 + lane` (or `lane`).
/// `(next, text, row, panel lane)`.
pub open spec fn panel_row_text(
    t: nat,
    ctx: TileCtx,
    k: Seq<char>,
    panel_base: Seq<char>,
    lane: Seq<char>,
    panel_lane0: Option<Seq<char>>,
) -> (nat, Seq<char>, Seq<char>, Seq<char>) {
    let head = op_line(tmp_name(t), "mul"@, k, num::dec_nat(ctx.tile_j as nat)) + op_line(
        tmp_name(t + 1),
        "add"@,
        panel_base,
        tmp_name(t),
    );
    match panel_lane0 {
        Some(pl0) => (t + 3, head + op_line(tmp_name(t + 2), "add"@, pl0, lane), tmp_name(t + 1), tmp_name(t + 2)),
        None => (t + 2, head, tmp_name(t + 1), lane),
    }
}

/// A packed panel row and lane found from `j = j0 + lane`, ordinals from
/// `t`: the panel `(j / TJ) * (K*TJ)`, row `panel + k*TJ`, lane `j % TJ`.
/// `(next, text, row, panel lane)`.
pub open spec fn panel_find_text(t: nat, site: TileSite, ctx: TileCtx, j0: Seq<char>, lane: Seq<char>, k: Seq<char>) -> (
    nat,
    Seq<char>,
    Seq<char>,
    Seq<char>,
) {
    let tj = num::dec_nat(ctx.tile_j as nat);
    (
        t + 6,
        op_line(tmp_name(t), "add"@, j0, lane) + op_line(tmp_name(t + 1), "udiv"@, tmp_name(t), tj) + op_line(
            tmp_name(t + 2),
            "urem"@,
            tmp_name(t),
            tj,
        ) + op_line(tmp_name(t + 3), "mul"@, tmp_name(t + 1), num::dec_nat((site.k * ctx.tile_j) as nat)) + op_line(
            tmp_name(t + 4),
            "mul"@,
            k,
            tj,
        ) + op_line(tmp_name(t + 5), "add"@, tmp_name(t + 3), tmp_name(t + 4)),
        tmp_name(t + 5),
        tmp_name(t + 2),
    )
}

/// Where one lane's `b` element sits, ordinals from `t`: `(next, text,
/// array type, base pointer, index)`. A packed site addresses the
/// j-tile-major panel at row plus panel lane; an unpacked one reads
/// `b[b_row + b.ck*k + j0 + lane]`.
pub open spec fn b_index_text(
    t: nat,
    site: TileSite,
    ctx: TileCtx,
    j0: Seq<char>,
    b_row: Option<Seq<char>>,
    lane: Seq<char>,
    k: Seq<char>,
    panel_base: Option<Seq<char>>,
    panel_lane0: Option<Seq<char>>,
) -> (nat, Seq<char>, Seq<char>, Seq<char>, Seq<char>) {
    match ctx.packed {
        Some(packed) => {
            let rp = match panel_base {
                Some(pb) => panel_row_text(t, ctx, k, pb, lane, panel_lane0),
                None => panel_find_text(t, site, ctx, j0, lane, k),
            };
            let i = rp.0;
            (i + 1, rp.1 + op_line(tmp_name(i), "add"@, rp.2, rp.3), packed.llt@, packed.ptr@, tmp_name(i))
        },
        None => {
            let s = tile_index_upto(t, b_row, seq![(site.b.ck, k), (1u64, j0)], 2);
            let i = s.0;
            (i + 1, s.2 + op_line(tmp_name(i), "add"@, s.1.unwrap(), lane), ctx.b_llt@, ctx.b_ptr@, tmp_name(i))
        },
    }
}

/// One lane's `b` element, ordinals from `t`: its index, address and value.
/// `(next, text, value)`.
pub open spec fn b_value_text(
    t: nat,
    site: TileSite,
    ctx: TileCtx,
    j0: Seq<char>,
    b_row: Option<Seq<char>>,
    lane: Seq<char>,
    k: Seq<char>,
    panel_base: Option<Seq<char>>,
    panel_lane0: Option<Seq<char>>,
) -> (nat, Seq<char>, Seq<char>) {
    let ix = b_index_text(t, site, ctx, j0, b_row, lane, k, panel_base, panel_lane0);
    let i = ix.0;
    (
        i + 2,
        ix.1 + gep_line(tmp_name(i), ix.2, ix.3, ix.4) + load_line(tmp_name(i + 1), ctx.elem_llt@, tmp_name(i)),
        tmp_name(i + 1),
    )
}

/// The lane loop's shape parameters: the `b` addressing (`j0`, `b_row`, the
/// hoisted panel base and panel lane) and the accumulator layout (base and
/// subrow stride).
pub struct LaneShape {
    pub j0: Seq<char>,
    pub b_row: Option<Seq<char>>,
    pub panel_base: Option<Seq<char>>,
    pub panel_lane0: Option<Seq<char>>,
    pub acc_base: Option<Seq<char>>,
    pub stride: u64,
}

/// The lane loop's shape from its arguments.
pub open spec fn shape_of(
    j0: &str,
    b_row: Option<String>,
    panel_base: Option<&str>,
    panel_lane0: Option<&str>,
    acc_base: Option<&str>,
    stride: u64,
) -> LaneShape {
    LaneShape {
        j0: j0@,
        b_row: opt_text(b_row),
        panel_base: opt_str(panel_base),
        panel_lane0: opt_str(panel_lane0),
        acc_base: opt_str(acc_base),
        stride,
    }
}

/// Every step's subrows fit the accumulator stride.
pub open spec fn steps_fit(steps: Seq<(Seq<char>, Seq<Seq<char>>)>, stride: u64) -> bool {
    forall|i: int| 0 <= i < steps.len() ==> #[trigger] steps[i].1.len() * stride <= u64::MAX
}

/// One k step at one lane, ordinals from `u`: the shared `b` element, then
/// every subrow's FMA with its `a` value.
pub open spec fn lane_step(
    u: nat,
    site: TileSite,
    ctx: TileCtx,
    shape: LaneShape,
    lane: Seq<char>,
    k: Seq<char>,
    a_values: Seq<Seq<char>>,
) -> (nat, Seq<char>) {
    let b = b_value_text(u, site, ctx, shape.j0, shape.b_row, lane, k, shape.panel_base, shape.panel_lane0);
    let rows = fma_rows(b.0, site, ctx, lane, shape.acc_base, shape.stride, a_values, b.2, a_values.len());
    (rows.0, b.1 + rows.1)
}

/// The first `n` k steps at one lane.
pub open spec fn lane_steps(
    u: nat,
    site: TileSite,
    ctx: TileCtx,
    shape: LaneShape,
    lane: Seq<char>,
    steps: Seq<(Seq<char>, Seq<Seq<char>>)>,
    n: nat,
) -> (nat, Seq<char>)
    decreases n,
{
    if n == 0 {
        (u, Seq::empty())
    } else {
        let prev = lane_steps(u, site, ctx, shape, lane, steps, (n - 1) as nat);
        let step = lane_step(prev.0, site, ctx, shape, lane, steps[n - 1].0, steps[n - 1].1);
        (step.0, prev.1 + step.1)
    }
}

/// The lane loop over `0..bound`, ordinals from `t`: every k step of
/// `steps` at each lane.
#[verifier::opaque]
pub open spec fn lane_loop_text(
    t: nat,
    site: TileSite,
    ctx: TileCtx,
    shape: LaneShape,
    bound: Seq<char>,
    steps: Seq<(Seq<char>, Seq<Seq<char>>)>,
) -> (nat, Seq<char>) {
    let body = lane_steps(t + 5, site, ctx, shape, tmp_name(t + 3), steps, steps.len());
    (body.0 + 1, lane_head_text(t, ctx.lane_ctr@, bound) + body.1 + lane_tail_text(t, body.0, ctx.lane_ctr@))
}

/// Optional texts' characters.
pub open spec fn opt_texts(v: Seq<Option<String>>) -> Seq<Option<Seq<char>>> {
    Seq::new(v.len(), |i: int| opt_text(v[i]))
}

/// The first `n` subrows' `a` values at `k`, ordinals from `t`: subrow `r`
/// reads `a[a_rows[r] + a.ck*k]` (or `a[0]`). `(next, text, values)`.
pub open spec fn a_values_text(
    t: nat,
    site: TileSite,
    ctx: TileCtx,
    a_rows: Seq<Option<Seq<char>>>,
    k: Seq<char>,
    n: nat,
) -> (nat, Seq<char>, Seq<Seq<char>>)
    decreases n,
{
    if n == 0 {
        (t, Seq::empty(), Seq::empty())
    } else {
        let prev = a_values_text(t, site, ctx, a_rows, k, (n - 1) as nat);
        let a = tile_index_upto(prev.0, a_rows[n - 1], seq![(site.a.ck, k)], 1);
        let index = match a.1 {
            Some(s) => s,
            None => "0"@,
        };
        let u = a.0;
        (
            u + 2,
            prev.1 + a.2 + gep_line(tmp_name(u), ctx.a_llt@, ctx.a_ptr@, index) + load_line(
                tmp_name(u + 1),
                ctx.elem_llt@,
                tmp_name(u),
            ),
            prev.2.push(tmp_name(u + 1)),
        )
    }
}

/// The first `n` subrows' `a` values from the packed `a` panel, ordinals
/// from `t`: subrow `r` reads `apack[koff + r*KC]`. `(next, text, values)`.
pub open spec fn kc_a_values_text(t: nat, ctx: TileCtx, apack: PackedBuffer, koff: Seq<char>, n: nat) -> (
    nat,
    Seq<char>,
    Seq<Seq<char>>,
)
    decreases n,
{
    if n == 0 {
        (t, Seq::empty(), Seq::empty())
    } else {
        let prev = kc_a_values_text(t, ctx, apack, koff, (n - 1) as nat);
        let r = (n - 1) as nat;
        let ix: (nat, Seq<char>, Seq<char>) = if r == 0 {
            (prev.0, Seq::empty(), koff)
        } else {
            (
                prev.0 + 1,
                op_line(tmp_name(prev.0), "add"@, koff, num::dec_nat((r * ctx.tile_kc) as nat)),
                tmp_name(prev.0),
            )
        };
        let u = ix.0;
        (
            u + 2,
            prev.1 + ix.1 + gep_line(tmp_name(u), apack.llt@, apack.ptr@, ix.2) + load_line(
                tmp_name(u + 1),
                ctx.elem_llt@,
                tmp_name(u),
            ),
            prev.2.push(tmp_name(u + 1)),
        )
    }
}

/// Where a trio's `a` values come from: each subrow's hoisted row base in
/// `a`, or the packed `a` panel (with the panel's first `k` and the subrow
/// count).
pub enum ASource {
    Rows(Seq<Option<Seq<char>>>),
    Panel(PackedBuffer, Seq<char>, nat),
}

/// The `a` source from an emitter's arguments.
pub open spec fn a_source(a_rows: Seq<Option<String>>, apack: Option<(&PackedBuffer, &str)>, rows: u64) -> ASource {
    match apack {
        Some((p, k_lo)) => ASource::Panel(*p, k_lo@, rows as nat),
        None => ASource::Rows(opt_texts(a_rows)),
    }
}

/// One k step's `a` values at `kk`, ordinals from `t`; a panel read first
/// mints `koff = kk - k_lo`. `(next, text, values)`.
pub open spec fn a_step_text(t: nat, site: TileSite, ctx: TileCtx, src: ASource, kk: Seq<char>) -> (
    nat,
    Seq<char>,
    Seq<Seq<char>>,
) {
    match src {
        ASource::Rows(rows) => a_values_text(t, site, ctx, rows, kk, rows.len()),
        ASource::Panel(apack, k_lo, n) => {
            let a = kc_a_values_text(t + 1, ctx, apack, tmp_name(t), n);
            (a.0, op_line(tmp_name(t), "sub"@, kk, k_lo) + a.1, a.2)
        },
    }
}

/// Two k steps' `a` values at `kk` and `kk1`, ordinals from `t`; a panel
/// read mints both offsets before reading. `(next, text, values at kk,
/// values at kk1)`.
pub open spec fn a_pair_text(t: nat, site: TileSite, ctx: TileCtx, src: ASource, kk: Seq<char>, kk1: Seq<char>) -> (
    nat,
    Seq<char>,
    Seq<Seq<char>>,
    Seq<Seq<char>>,
) {
    match src {
        ASource::Rows(rows) => {
            let a0 = a_values_text(t, site, ctx, rows, kk, rows.len());
            let a1 = a_values_text(a0.0, site, ctx, rows, kk1, rows.len());
            (a1.0, a0.1 + a1.1, a0.2, a1.2)
        },
        ASource::Panel(apack, k_lo, n) => {
            let a0 = kc_a_values_text(t + 2, ctx, apack, tmp_name(t), n);
            let a1 = kc_a_values_text(a0.0, ctx, apack, tmp_name(t + 1), n);
            (
                a1.0,
                op_line(tmp_name(t), "sub"@, kk, k_lo) + op_line(tmp_name(t + 1), "sub"@, kk1, k_lo) + a0.1 + a1.1,
                a0.2,
                a1.2,
            )
        },
    }
}

/// The subrow count of an `a` source.
pub open spec fn src_rows(src: ASource) -> nat {
    match src {
        ASource::Rows(rows) => rows.len(),
        ASource::Panel(_, _, n) => n,
    }
}

/// The packed panel row two k steps ahead, prefetched, ordinals from `t`.
pub open spec fn prefetch_text(t: nat, ctx: TileCtx, packed: PackedBuffer, kk: Seq<char>, panel_base: Seq<char>) -> Seq<
    char,
> {
    op_line(tmp_name(t), "add"@, kk, "2"@) + op_line(tmp_name(t + 1), "mul"@, tmp_name(t), num::dec_nat(ctx.tile_j as nat))
        + op_line(tmp_name(t + 2), "add"@, panel_base, tmp_name(t + 1)) + gep_line(
        tmp_name(t + 3),
        packed.llt@,
        packed.ptr@,
        tmp_name(t + 2),
    ) + line_text("call void @llvm.prefetch.p0(ptr "@ + tmp_name(t + 3) + ", i32 0, i32 3, i32 1)"@)
}

/// The paired trip prefetches when the site is packed and its panel base
/// is hoisted. `(next, text)`.
pub open spec fn opt_prefetch(t: nat, ctx: TileCtx, panel_base: Option<Seq<char>>, kk: Seq<char>) -> (nat, Seq<char>) {
    match (ctx.packed, panel_base) {
        (Some(packed), Some(pb)) => (t + 4, prefetch_text(t, ctx, packed, kk, pb)),
        _ => (t, Seq::empty()),
    }
}

/// The paired trip's test, ordinals from `t`: `k+1` into `t`, `k+1 <
/// k_hi` into `t+1`, then into `body` or out to `tail_check`.
pub open spec fn pair_head_text(t: nat, kk: Seq<char>, k_hi: Seq<char>, body: Seq<char>, tail_check: Seq<char>) -> Seq<
    char,
> {
    op_line(tmp_name(t), "add"@, kk, "1"@) + op_line(tmp_name(t + 1), "icmp ult"@, tmp_name(t), k_hi) + branch_line(
        tmp_name(t + 1),
        body,
        tail_check,
    ) + label_text(body)
}

/// A k loop's back edge, ordinal `t`: `k += step`, then to `head`.
pub open spec fn k_back_text(t: nat, ctx: TileCtx, kk: Seq<char>, step: Seq<char>, head: Seq<char>) -> Seq<char> {
    op_line(tmp_name(t), "add"@, kk, step) + store_line("i64"@, tmp_name(t), ctx.k_ctr@) + jump_line(head)
}

/// The paired trip of an unrolled trio k loop, ordinals from `t`: `k+1`
/// into `t`, the test into `t+1`; both steps' `a` values, the prefetch,
/// one lane loop over both steps; `k += 2`.
#[verifier::opaque]
pub open spec fn mem_k_pair(
    t: nat,
    site: TileSite,
    ctx: TileCtx,
    shape: LaneShape,
    bound: Seq<char>,
    src: ASource,
    k_hi: Seq<char>,
    head: Seq<char>,
    body: Seq<char>,
    tail_check: Seq<char>,
    kk: Seq<char>,
) -> (nat, Seq<char>) {
    let kk1 = tmp_name(t);
    let a = a_pair_text(t + 2, site, ctx, src, kk, kk1);
    let pf = opt_prefetch(a.0, ctx, shape.panel_base, kk);
    let ll = lane_loop_text(pf.0, site, ctx, shape, bound, seq![(kk, a.2), (kk1, a.3)]);
    (
        ll.0 + 1,
        pair_head_text(t, kk, k_hi, body, tail_check) + a.1 + pf.1 + ll.1 + k_back_text(ll.0, ctx, kk, "2"@, head),
    )
}

/// The odd tail of an unrolled trio k loop, ordinals from `t`: one more
/// step while `k < k_hi`.
#[verifier::opaque]
pub open spec fn mem_k_rest(
    t: nat,
    site: TileSite,
    ctx: TileCtx,
    shape: LaneShape,
    bound: Seq<char>,
    src: ASource,
    k_hi: Seq<char>,
    tail_check: Seq<char>,
    tail: Seq<char>,
    done: Seq<char>,
    kk: Seq<char>,
) -> (nat, Seq<char>) {
    let a = a_step_text(t + 1, site, ctx, src, kk);
    let ll = lane_loop_text(a.0, site, ctx, shape, bound, seq![(kk, a.2)]);
    (
        ll.0,
        label_text(tail_check) + op_line(tmp_name(t), "icmp ult"@, kk, k_hi) + branch_line(tmp_name(t), tail, done)
            + label_text(tail) + a.1 + ll.1 + jump_line(done),
    )
}

/// The one-step trip of a trio k loop, ordinals from `t`.
#[verifier::opaque]
pub open spec fn mem_k_single(
    t: nat,
    site: TileSite,
    ctx: TileCtx,
    shape: LaneShape,
    bound: Seq<char>,
    src: ASource,
    k_hi: Seq<char>,
    head: Seq<char>,
    body: Seq<char>,
    done: Seq<char>,
    kk: Seq<char>,
) -> (nat, Seq<char>) {
    let a = a_step_text(t + 1, site, ctx, src, kk);
    let ll = lane_loop_text(a.0, site, ctx, shape, bound, seq![(kk, a.2)]);
    (
        ll.0 + 1,
        op_line(tmp_name(t), "icmp uge"@, kk, k_hi) + branch_line(tmp_name(t), done, body) + label_text(body) + a.1
            + ll.1 + latch_text(tmp_name(ll.0), kk, ctx.k_ctr@, head, done),
    )
}

/// A trio's k loop over `[k_lo, k_hi)`, ordinals from `t` (head `t`, body
/// `t+1`, done `t+2`, `k` in `t+3`): x2-unrolled with an odd-step tail when
/// `unroll`, else one step per trip.
#[verifier::opaque]
pub open spec fn mem_k_loop(
    t: nat,
    site: TileSite,
    ctx: TileCtx,
    shape: LaneShape,
    bound: Seq<char>,
    src: ASource,
    k_lo: Seq<char>,
    k_hi: Seq<char>,
    unroll: bool,
) -> (nat, Seq<char>) {
    let kk = tmp_name(t + 3);
    if unroll {
        let main = mem_k_pair(t + 6, site, ctx, shape, bound, src, k_hi, label_name(t), label_name(t + 1), label_name(t + 4), kk);
        let rest = mem_k_rest(main.0, site, ctx, shape, bound, src, k_hi, label_name(t + 4), label_name(t + 5), label_name(t + 2), kk);
        (rest.0, k_open_text(t, ctx, k_lo) + main.1 + rest.1 + label_text(label_name(t + 2)))
    } else {
        let single = mem_k_single(t + 4, site, ctx, shape, bound, src, k_hi, label_name(t), label_name(t + 1), label_name(t + 2), kk);
        (single.0, k_open_text(t, ctx, k_lo) + single.1)
    }
}

/// The memory-form trio for one j-tile of `a_rows.len()` subrows,
/// ordinals from `t`: seed every subrow's lanes `0..bound`, the k loop over
/// `[0, K)` (unrolled on the full main tile), then store subrow `r`'s lanes
/// to `out[row0 + j0 + r*C + lane]`.
#[verifier::opaque]
pub open spec fn trio_mem_text(
    t: nat,
    site: TileSite,
    ctx: TileCtx,
    j0: Seq<char>,
    row0: Seq<char>,
    a_rows: Seq<Option<Seq<char>>>,
    b_row: Option<Seq<char>>,
    bound: Seq<char>,
    main: bool,
    panel_base: Option<Seq<char>>,
    panel_lane0: Option<Seq<char>>,
) -> (nat, Seq<char>) {
    let rows = a_rows.len();
    let shape = LaneShape { j0, b_row, panel_base, panel_lane0, acc_base: None, stride: ctx.tile_j };
    let seeds = seed_rows(t, ctx, bound, rows);
    let kl = mem_k_loop(
        seeds.0,
        site,
        ctx,
        shape,
        bound,
        ASource::Rows(a_rows),
        "0"@,
        num::dec_nat(site.k as nat),
        main && rows == ctx.tile_i,
    );
    let u = kl.0;
    let st = store_rows(u + 1, ctx, tmp_name(u), site.c, bound, rows);
    (st.0, seeds.1 + kl.1 + op_line(tmp_name(u), "add"@, row0, j0) + st.1)
}

proof fn lemma_mem_k_loop_width(
    t: nat,
    site: TileSite,
    ctx: TileCtx,
    shape: LaneShape,
    bound: Seq<char>,
    src: ASource,
    k_lo: Seq<char>,
    k_hi: Seq<char>,
    unroll: bool,
)
    ensures
        t <= mem_k_loop(t, site, ctx, shape, bound, src, k_lo, k_hi, unroll).0 <= t + 56 + 30 * src_rows(src),
{
    reveal(mem_k_loop);
    let kk = tmp_name(t + 3);
    lemma_mem_k_width(t + 6, site, ctx, shape, bound, src, k_hi, label_name(t), label_name(t + 1), label_name(t + 4), kk);
    let main = mem_k_pair(t + 6, site, ctx, shape, bound, src, k_hi, label_name(t), label_name(t + 1), label_name(t + 4), kk);
    lemma_mem_k_width(main.0, site, ctx, shape, bound, src, k_hi, label_name(t + 4), label_name(t + 5), label_name(t + 2), kk);
    lemma_mem_k_width(t + 4, site, ctx, shape, bound, src, k_hi, label_name(t), label_name(t + 1), label_name(t + 2), kk);
}

/// Subrow `r`'s run start in `out`, ordinals from `t`: `out_start` itself
/// for subrow 0 (or when `shift` is off), else `out_start + r*C` minted into
/// `tmp(t)`. `(next, text, start)`.
pub open spec fn row_start(t: nat, site: TileSite, out_start: Seq<char>, r: nat, shift: bool) -> (nat, Seq<char>, Seq<
    char,
>) {
    if !shift || r == 0 {
        (t, Seq::empty(), out_start)
    } else {
        (t + 1, op_line(tmp_name(t), "add"@, out_start, num::dec_nat((r * site.c) as nat)), tmp_name(t))
    }
}

/// The address of the KC accumulator lane `acc_base + r*TJ + lane`,
/// ordinals from `t`: `(next, text, pointer)`.
pub open spec fn kc_acc_ptr(t: nat, ctx: TileCtx, lane: Seq<char>, acc_base: Seq<char>, r: nat) -> (nat, Seq<char>, Seq<
    char,
>) {
    let acc = acc_lane_text(t, lane, Some(acc_base), r, ctx.tile_j);
    (acc.0 + 1, acc.1 + gep_line(tmp_name(acc.0), ctx.acc_llt@, ctx.acc@, acc.2), tmp_name(acc.0))
}

/// Reloading one lane's partial sum from `out[start + lane]` into
/// `acc_ptr`, ordinals `w..w+2`.
pub open spec fn reload_text(w: nat, ctx: TileCtx, start: Seq<char>, lane: Seq<char>, acc_ptr: Seq<char>) -> Seq<char> {
    op_line(tmp_name(w), "add"@, start, lane) + gep_line(tmp_name(w + 1), ctx.out_llt@, ctx.out_ptr@, tmp_name(w))
        + load_line(tmp_name(w + 2), ctx.elem_llt@, tmp_name(w + 1)) + store_line(ctx.elem_llt@, tmp_name(w + 2), acc_ptr)
}

/// Spilling one lane's sum at `acc_ptr` to `out[start + lane]`, ordinals
/// `w..w+2`.
pub open spec fn spill_lane_text(w: nat, ctx: TileCtx, start: Seq<char>, lane: Seq<char>, acc_ptr: Seq<char>) -> Seq<
    char,
> {
    load_line(tmp_name(w), ctx.elem_llt@, acc_ptr) + op_line(tmp_name(w + 1), "add"@, start, lane) + gep_line(
        tmp_name(w + 2),
        ctx.out_llt@,
        ctx.out_ptr@,
        tmp_name(w + 1),
    ) + store_line(ctx.elem_llt@, tmp_name(w), tmp_name(w + 2))
}

/// Seeding (the first panel) or reloading subrow `r`'s partial sums from
/// `out` (later panels) into its accumulator lanes `0..bound` at
/// `acc_base + r*TJ + lane`, ordinals from `t`.
pub open spec fn kc_seed_row(
    t: nat,
    site: TileSite,
    ctx: TileCtx,
    out_start: Seq<char>,
    acc_base: Seq<char>,
    bound: Seq<char>,
    first: bool,
    r: nat,
) -> (nat, Seq<char>) {
    let sh = row_start(t, site, out_start, r, !first);
    let h = sh.0;
    let lane = tmp_name(h + 3);
    let ap = kc_acc_ptr(h + 5, ctx, lane, acc_base, r);
    let w = ap.0;
    let fill: (nat, Seq<char>) = if first {
        (w, store_line(ctx.elem_llt@, ctx.seed@, ap.2))
    } else {
        (w + 3, reload_text(w, ctx, sh.2, lane, ap.2))
    };
    (
        fill.0 + 1,
        sh.1 + lane_head_text(h, ctx.lane_ctr@, bound) + ap.1 + fill.1 + lane_tail_text(h, fill.0, ctx.lane_ctr@),
    )
}

/// Seeding or reloading the first `n` subrows, ordinals from `t`.
pub open spec fn kc_seed_rows(
    t: nat,
    site: TileSite,
    ctx: TileCtx,
    out_start: Seq<char>,
    acc_base: Seq<char>,
    bound: Seq<char>,
    first: bool,
    n: nat,
) -> (nat, Seq<char>)
    decreases n,
{
    if n == 0 {
        (t, Seq::empty())
    } else {
        let prev = kc_seed_rows(t, site, ctx, out_start, acc_base, bound, first, (n - 1) as nat);
        let row = kc_seed_row(prev.0, site, ctx, out_start, acc_base, bound, first, (n - 1) as nat);
        (row.0, prev.1 + row.1)
    }
}

/// Spilling subrow `r`'s accumulator lanes `0..bound` (at `acc_base + r*TJ
/// + lane`) to `out[out_start + r*C + lane]`, ordinals from `t`.
pub open spec fn kc_spill_row(
    t: nat,
    site: TileSite,
    ctx: TileCtx,
    out_start: Seq<char>,
    acc_base: Seq<char>,
    bound: Seq<char>,
    r: nat,
) -> (nat, Seq<char>) {
    let sh = row_start(t, site, out_start, r, true);
    let h = sh.0;
    let lane = tmp_name(h + 3);
    let ap = kc_acc_ptr(h + 5, ctx, lane, acc_base, r);
    let w = ap.0;
    (
        w + 4,
        sh.1 + lane_head_text(h, ctx.lane_ctr@, bound) + ap.1 + spill_lane_text(w, ctx, sh.2, lane, ap.2)
            + lane_tail_text(h, w + 3, ctx.lane_ctr@),
    )
}

/// Spilling the first `n` subrows, ordinals from `t`.
pub open spec fn kc_spill_rows(
    t: nat,
    site: TileSite,
    ctx: TileCtx,
    out_start: Seq<char>,
    acc_base: Seq<char>,
    bound: Seq<char>,
    n: nat,
) -> (nat, Seq<char>)
    decreases n,
{
    if n == 0 {
        (t, Seq::empty())
    } else {
        let prev = kc_spill_rows(t, site, ctx, out_start, acc_base, bound, (n - 1) as nat);
        let row = kc_spill_row(prev.0, site, ctx, out_start, acc_base, bound, (n - 1) as nat);
        (row.0, prev.1 + row.1)
    }
}

/// The memory-form KC trio for one j-tile of a `rows`-row i-block at one kc
/// panel, ordinals from `t`: `out_start = row0 + j0`, seed (first panel) or
/// reload every subrow, the k loop over `[k_lo, k_hi)` reading `a` from the
/// packed panel, then spill every subrow back to `out`.
#[verifier::opaque]
pub open spec fn kc_trio_mem_text(
    t: nat,
    site: TileSite,
    ctx: TileCtx,
    apack: PackedBuffer,
    j0: Seq<char>,
    acc_base: Seq<char>,
    row0: Seq<char>,
    rows: nat,
    bound: Seq<char>,
    main: bool,
    panel_base: Seq<char>,
    panel_lane0: Option<Seq<char>>,
    k_lo: Seq<char>,
    k_hi: Seq<char>,
    first: bool,
) -> (nat, Seq<char>) {
    let out_start = tmp_name(t);
    let seeds = kc_seed_rows(t + 1, site, ctx, out_start, acc_base, bound, first, rows);
    let shape = LaneShape {
        j0,
        b_row: None,
        panel_base: Some(panel_base),
        panel_lane0,
        acc_base: Some(acc_base),
        stride: ctx.tile_j,
    };
    let kl = mem_k_loop(
        seeds.0,
        site,
        ctx,
        shape,
        bound,
        ASource::Panel(apack, k_lo, rows),
        k_lo,
        k_hi,
        main && rows == ctx.tile_i,
    );
    let sp = kc_spill_rows(kl.0, site, ctx, out_start, acc_base, bound, rows);
    (sp.0, op_line(out_start, "add"@, row0, j0) + seeds.1 + kl.1 + sp.1)
}

proof fn lemma_kc_rows_width(
    t: nat,
    site: TileSite,
    ctx: TileCtx,
    out_start: Seq<char>,
    acc_base: Seq<char>,
    bound: Seq<char>,
    first: bool,
    n: nat,
)
    ensures
        t <= kc_seed_rows(t, site, ctx, out_start, acc_base, bound, first, n).0 <= t + 13 * n,
        t <= kc_spill_rows(t, site, ctx, out_start, acc_base, bound, n).0 <= t + 13 * n,
    decreases n,
{
    if n > 0 {
        lemma_kc_rows_width(t, site, ctx, out_start, acc_base, bound, first, (n - 1) as nat);
    }
}

/// `<v> = <mul_op><flag> <ty>` on `a` and `b` in the source's order.
pub open spec fn vec_product(v: Seq<char>, site: TileSite, ctx: TileCtx, ty: Seq<char>, a: Seq<char>, b: Seq<char>) -> Seq<
    char,
> {
    if site.mul_a_first {
        bin_line(v, ctx.mul_op@ + ctx.contract_flag@, ty, a, b)
    } else {
        bin_line(v, ctx.mul_op@ + ctx.contract_flag@, ty, b, a)
    }
}

/// `<v> = <add_op><flag> <ty>` on the accumulator and the product in the
/// source's order.
pub open spec fn vec_sum(v: Seq<char>, site: TileSite, ctx: TileCtx, ty: Seq<char>, acc: Seq<char>, product: Seq<char>) -> Seq<
    char,
> {
    if site.add_acc_first {
        bin_line(v, ctx.add_op@ + ctx.contract_flag@, ty, acc, product)
    } else {
        bin_line(v, ctx.add_op@ + ctx.contract_flag@, ty, product, acc)
    }
}

/// A k step's `b` operand as ONE contiguous `<TJ x elem>` load at the
/// element's alignment, ordinals from `t`: from the packed panel row
/// `panel_base + k*TJ`, or from `b[b_row + b.ck*k + j0]`. `(next, text,
/// value)`.
pub open spec fn b_vector_text(
    t: nat,
    site: TileSite,
    ctx: TileCtx,
    j0: Seq<char>,
    b_row: Option<Seq<char>>,
    k: Seq<char>,
    panel_base: Option<Seq<char>>,
) -> (nat, Seq<char>, Seq<char>) {
    let ix: (nat, Seq<char>, Seq<char>, Seq<char>, Seq<char>) = match ctx.packed {
        Some(packed) => (
            t + 2,
            op_line(tmp_name(t), "mul"@, k, num::dec_nat(ctx.tile_j as nat)) + op_line(
                tmp_name(t + 1),
                "add"@,
                panel_base.unwrap(),
                tmp_name(t),
            ),
            packed.llt@,
            packed.ptr@,
            tmp_name(t + 1),
        ),
        None => {
            let st = tile_index_upto(t, b_row, seq![(site.b.ck, k), (1u64, j0)], 2);
            (st.0, st.2, ctx.b_llt@, ctx.b_ptr@, st.1.unwrap())
        },
    };
    let i = ix.0;
    (
        i + 2,
        ix.1 + gep_line(tmp_name(i), ix.2, ix.3, ix.4) + aligned_load_line(
            tmp_name(i + 1),
            vec_text(ctx.elem_llt@, ctx.tile_j),
            tmp_name(i),
            llt_algn(ctx.elem_llt@),
        ),
        tmp_name(i + 1),
    )
}

/// Subrow `r`'s vector FMA, ordinals from `u`: `a` splatted into `u+1`,
/// the product into `u+2`, the sum into `out_name` or `tmp(u+3)`.
/// `(next, text, sum)`.
pub open spec fn vec_fma_row(
    u: nat,
    site: TileSite,
    ctx: TileCtx,
    a_value: Seq<char>,
    b: Seq<char>,
    acc: Seq<char>,
    out_name: Option<Seq<char>>,
) -> (nat, Seq<char>, Seq<char>) {
    let vllt = vec_text(ctx.elem_llt@, ctx.tile_j);
    let sum: (nat, Seq<char>) = match out_name {
        Some(n) => (u + 3, n),
        None => (u + 4, tmp_name(u + 3)),
    };
    (
        sum.0,
        splat_text(u, ctx.elem_llt@, ctx.tile_j, a_value) + vec_product(tmp_name(u + 2), site, ctx, vllt, tmp_name(u + 1), b)
            + vec_sum(sum.1, site, ctx, vllt, acc, tmp_name(u + 2)),
        sum.1,
    )
}

/// The `r`-th name, when names are given.
pub open spec fn nth_name(names: Option<Seq<Seq<char>>>, r: int) -> Option<Seq<char>> {
    match names {
        Some(ns) => Some(ns[r]),
        None => None,
    }
}

/// The first `n` subrows' vector FMAs on the shared `b`, ordinals from `u`.
/// `(next, text, sums)`.
pub open spec fn vec_fma_rows(
    u: nat,
    site: TileSite,
    ctx: TileCtx,
    a_values: Seq<Seq<char>>,
    b: Seq<char>,
    accs: Seq<Seq<char>>,
    out_names: Option<Seq<Seq<char>>>,
    n: nat,
) -> (nat, Seq<char>, Seq<Seq<char>>)
    decreases n,
{
    if n == 0 {
        (u, Seq::empty(), Seq::empty())
    } else {
        let prev = vec_fma_rows(u, site, ctx, a_values, b, accs, out_names, (n - 1) as nat);
        let row = vec_fma_row(prev.0, site, ctx, a_values[n - 1], b, accs[n - 1], nth_name(out_names, n - 1));
        (row.0, prev.1 + row.1, prev.2.push(row.2))
    }
}

/// One k step over the vector accumulators `accs`, ordinals from `t`: the
/// subrows' `a` scalars, the shared `b` vector, each subrow's FMA.
/// `(next, text, sums)`.
#[verifier::opaque]
pub open spec fn vec_step_text(
    t: nat,
    site: TileSite,
    ctx: TileCtx,
    j0: Seq<char>,
    b_row: Option<Seq<char>>,
    panel_base: Option<Seq<char>>,
    src: ASource,
    k: Seq<char>,
    accs: Seq<Seq<char>>,
    out_names: Option<Seq<Seq<char>>>,
) -> (nat, Seq<char>, Seq<Seq<char>>) {
    let a = a_step_text(t, site, ctx, src, k);
    let b = b_vector_text(a.0, site, ctx, j0, b_row, k, panel_base);
    let rows = vec_fma_rows(b.0, site, ctx, a.2, b.2, accs, out_names, accs.len());
    (rows.0, a.1 + b.1 + rows.1, rows.2)
}

/// Names' characters, when given.
pub open spec fn opt_names(names: Option<&[String]>) -> Option<Seq<Seq<char>>> {
    match names {
        Some(ns) => Some(texts(ns@)),
        None => None,
    }
}

/// `n` temporaries from `start`.
pub open spec fn tmp_run(start: nat, n: nat) -> Seq<Seq<char>> {
    Seq::new(n, |i: int| tmp_name((start + i) as nat))
}

/// `<v> = phi <ty> [ <x>, %<xl> ], [ <y>, %<yl> ]`.
pub open spec fn phi_pair_line(v: Seq<char>, ty: Seq<char>, x: Seq<char>, xl: Seq<char>, y: Seq<char>, yl: Seq<char>) -> Seq<
    char,
> {
    line_text(v + " = phi "@ + ty + " [ "@ + x + ", %"@ + xl + " ], [ "@ + y + ", %"@ + yl + " ]"@)
}

/// The first `n` phis `tmp(start + r) = phi [ xs[r], %xl ], [ ys[r], %yl ]`.
pub open spec fn phis_text(
    start: nat,
    ty: Seq<char>,
    xs: Seq<Seq<char>>,
    xl: Seq<char>,
    ys: Seq<Seq<char>>,
    yl: Seq<char>,
    n: nat,
) -> Seq<char>
    decreases n,
{
    if n == 0 {
        Seq::empty()
    } else {
        phis_text(start, ty, xs, xl, ys, yl, (n - 1) as nat) + phi_pair_line(
            tmp_name((start + n - 1) as nat),
            ty,
            xs[n - 1],
            xl,
            ys[n - 1],
            yl,
        )
    }
}

/// The opening of a phi-carried k loop, ordinals from `t`: to the named
/// preheader `t`, which starts the counter at `k_lo`; the header `t+1`
/// with one phi per subrow (`tmp(t+6+rows+r)`, from `seeds[r]` on the
/// preheader edge and the pre-minted `tmp(t+6+r)` on the body edge), `k`
/// into `tmp(t+6+2*rows)`, then the paired trip's test into the body
/// `t+2` or out to the tail check `t+3`.
pub open spec fn vec_loop_head_text(t: nat, ctx: TileCtx, k_lo: Seq<char>, k_hi: Seq<char>, seeds: Seq<Seq<char>>) -> Seq<
    char,
> {
    let rows = seeds.len();
    let vllt = vec_text(ctx.elem_llt@, ctx.tile_j);
    let h = t + 6 + 2 * rows;
    jump_line(label_name(t)) + label_text(label_name(t)) + store_line("i64"@, k_lo, ctx.k_ctr@) + jump_line(
        label_name(t + 1),
    ) + label_text(label_name(t + 1)) + phis_text(
        t + 6 + rows,
        vllt,
        seeds,
        label_name(t),
        tmp_run(t + 6, rows),
        label_name(t + 2),
        rows,
    ) + load_line(tmp_name(h), "i64"@, ctx.k_ctr@) + pair_head_text(
        h + 1,
        tmp_name(h),
        k_hi,
        label_name(t + 2),
        label_name(t + 3),
    )
}

/// The paired trip of a phi-carried k loop opened at `t`, ordinals from
/// `u`: the prefetch, the step at `k` on the header's phis, the step at
/// `k+1` onto the pre-minted names, `k += 2`.
pub open spec fn vec_loop_trip(
    u: nat,
    t: nat,
    site: TileSite,
    ctx: TileCtx,
    j0: Seq<char>,
    b_row: Option<Seq<char>>,
    panel_base: Option<Seq<char>>,
    src: ASource,
    rows: nat,
) -> (nat, Seq<char>) {
    let h = t + 6 + 2 * rows;
    let kk = tmp_name(h);
    let pf = opt_prefetch(u, ctx, panel_base, kk);
    let mid = vec_step_text(pf.0, site, ctx, j0, b_row, panel_base, src, kk, tmp_run(t + 6 + rows, rows), None);
    let last = vec_step_text(
        mid.0,
        site,
        ctx,
        j0,
        b_row,
        panel_base,
        src,
        tmp_name(h + 1),
        mid.2,
        Some(tmp_run(t + 6, rows)),
    );
    (last.0 + 1, pf.1 + mid.1 + last.1 + k_back_text(last.0, ctx, kk, "2"@, label_name(t + 1)))
}

/// The odd tail and exit of a phi-carried k loop opened at `t`, ordinals
/// from `u`: one more step on the header's phis while `k < k_hi`, then the
/// exit's phis merging the header's and the tail's values. `(next, text,
/// results)`.
pub open spec fn vec_loop_exit(
    u: nat,
    t: nat,
    site: TileSite,
    ctx: TileCtx,
    j0: Seq<char>,
    b_row: Option<Seq<char>>,
    panel_base: Option<Seq<char>>,
    src: ASource,
    k_hi: Seq<char>,
    rows: nat,
) -> (nat, Seq<char>, Seq<Seq<char>>) {
    let kk = tmp_name(t + 6 + 2 * rows);
    let accs = tmp_run(t + 6 + rows, rows);
    let tl = vec_step_text(u + 1, site, ctx, j0, b_row, panel_base, src, kk, accs, None);
    (
        tl.0 + rows,
        label_text(label_name(t + 3)) + op_line(tmp_name(u), "icmp ult"@, kk, k_hi) + branch_line(
            tmp_name(u),
            label_name(t + 4),
            label_name(t + 5),
        ) + label_text(label_name(t + 4)) + tl.1 + jump_line(label_name(t + 5)) + label_text(label_name(t + 5))
            + phis_text(tl.0, vec_text(ctx.elem_llt@, ctx.tile_j), accs, label_name(t + 3), tl.2, label_name(t + 4), rows),
        tmp_run(tl.0, rows),
    )
}

/// The x2-unrolled k loop over `[k_lo, k_hi)` with the accumulators carried
/// by `phi` instead of by memory, ordinals from `t`. `(next, text,
/// results)`.
#[verifier::opaque]
pub open spec fn vec_k_loop_text(
    t: nat,
    site: TileSite,
    ctx: TileCtx,
    j0: Seq<char>,
    b_row: Option<Seq<char>>,
    panel_base: Option<Seq<char>>,
    src: ASource,
    k_lo: Seq<char>,
    k_hi: Seq<char>,
    seeds: Seq<Seq<char>>,
) -> (nat, Seq<char>, Seq<Seq<char>>) {
    let rows = seeds.len();
    let trip = vec_loop_trip(t + 9 + 2 * rows, t, site, ctx, j0, b_row, panel_base, src, rows);
    let ex = vec_loop_exit(trip.0, t, site, ctx, j0, b_row, panel_base, src, k_hi, rows);
    (ex.0, vec_loop_head_text(t, ctx, k_lo, k_hi, seeds) + trip.1 + ex.1, ex.2)
}

/// The first `n` subrows' `out[out_start + r*C]` element pointers,
/// ordinals from `t`. `(next, text, pointers)`.
pub open spec fn vec_out_ptrs_text(t: nat, site: TileSite, ctx: TileCtx, out_start: Seq<char>, n: nat) -> (
    nat,
    Seq<char>,
    Seq<Seq<char>>,
)
    decreases n,
{
    if n == 0 {
        (t, Seq::empty(), Seq::empty())
    } else {
        let prev = vec_out_ptrs_text(t, site, ctx, out_start, (n - 1) as nat);
        let sh = row_start(prev.0, site, out_start, (n - 1) as nat, true);
        let u = sh.0;
        (u + 1, prev.1 + sh.1 + gep_line(tmp_name(u), ctx.out_llt@, ctx.out_ptr@, sh.2), prev.2.push(tmp_name(u)))
    }
}

/// The first `n` vector stores `store <TJ x elem> vals[r], ptr ptrs[r]` at
/// the element's alignment.
pub open spec fn vec_stores_text(ctx: TileCtx, vals: Seq<Seq<char>>, ptrs: Seq<Seq<char>>, n: nat) -> Seq<char>
    decreases n,
{
    if n == 0 {
        Seq::empty()
    } else {
        vec_stores_text(ctx, vals, ptrs, (n - 1) as nat) + aligned_store_line(
            vec_text(ctx.elem_llt@, ctx.tile_j),
            vals[n - 1],
            ptrs[n - 1],
            llt_algn(ctx.elem_llt@),
        )
    }
}

/// The first `n` vector reloads `tmp(t + r) = load <TJ x elem>, ptr
/// ptrs[r]` at the element's alignment.
pub open spec fn vec_loads_text(t: nat, ctx: TileCtx, ptrs: Seq<Seq<char>>, n: nat) -> Seq<char>
    decreases n,
{
    if n == 0 {
        Seq::empty()
    } else {
        vec_loads_text(t, ctx, ptrs, (n - 1) as nat) + aligned_load_line(
            tmp_name((t + n - 1) as nat),
            vec_text(ctx.elem_llt@, ctx.tile_j),
            ptrs[n - 1],
            llt_algn(ctx.elem_llt@),
        )
    }
}

/// The vector main tile of the j-outer nest, ordinals from `t`: the seed
/// splat, the phi-carried k loop over `[0, K)`, then one `<TJ x elem>`
/// store per subrow to `out[row0 + j0 + r*C]`.
#[verifier::opaque]
pub open spec fn trio_vec_text(
    t: nat,
    site: TileSite,
    ctx: TileCtx,
    j0: Seq<char>,
    row0: Seq<char>,
    a_rows: Seq<Option<Seq<char>>>,
    b_row: Option<Seq<char>>,
    panel_base: Option<Seq<char>>,
) -> (nat, Seq<char>) {
    let rows = a_rows.len();
    let seeds = Seq::new(rows, |i: int| tmp_name(t + 1));
    let kl = vec_k_loop_text(
        t + 2,
        site,
        ctx,
        j0,
        b_row,
        panel_base,
        ASource::Rows(a_rows),
        "0"@,
        num::dec_nat(site.k as nat),
        seeds,
    );
    let u = kl.0;
    let ptrs = vec_out_ptrs_text(u + 1, site, ctx, tmp_name(u), rows);
    (
        ptrs.0,
        splat_text(t, ctx.elem_llt@, ctx.tile_j, ctx.seed@) + kl.1 + op_line(tmp_name(u), "add"@, row0, j0) + ptrs.1
            + vec_stores_text(ctx, kl.2, ptrs.2, rows),
    )
}

/// The KC nest's vector main tile at one kc panel, ordinals from `t`: the
/// subrows' `out` pointers, the seeds (the seed splat on the first panel,
/// else one vector reload per subrow), the phi-carried k loop over
/// `[k_lo, k_hi)` reading `a` from the packed panel, then one vector store
/// per subrow.
#[verifier::opaque]
pub open spec fn kc_trio_vec_text(
    t: nat,
    site: TileSite,
    ctx: TileCtx,
    apack: PackedBuffer,
    j0: Seq<char>,
    row0: Seq<char>,
    rows: nat,
    panel_base: Seq<char>,
    k_lo: Seq<char>,
    k_hi: Seq<char>,
    first: bool,
) -> (nat, Seq<char>) {
    let ptrs = vec_out_ptrs_text(t + 1, site, ctx, tmp_name(t), rows);
    let p = ptrs.0;
    let seeds: (nat, Seq<char>, Seq<Seq<char>>) = if first {
        (p + 2, splat_text(p, ctx.elem_llt@, ctx.tile_j, ctx.seed@), Seq::new(rows, |i: int| tmp_name(p + 1)))
    } else {
        (p + rows, vec_loads_text(p, ctx, ptrs.2, rows), tmp_run(p, rows))
    };
    let kl = vec_k_loop_text(
        seeds.0,
        site,
        ctx,
        j0,
        None,
        Some(panel_base),
        ASource::Panel(apack, k_lo, rows),
        k_lo,
        k_hi,
        seeds.2,
    );
    (
        kl.0,
        op_line(tmp_name(t), "add"@, row0, j0) + ptrs.1 + seeds.1 + kl.1 + vec_stores_text(ctx, kl.2, ptrs.2, rows),
    )
}

/// Whether a j-outer tile runs on SSA vectors: the full main tile (all
/// `TI` subrows, `bound` spelling `TJ`), no panel lane offset, and a
/// hoisted panel base when the site is packed.
pub open spec fn trio_vec_gate(
    ctx: TileCtx,
    rows: nat,
    bound: Seq<char>,
    main: bool,
    panel_base: Option<Seq<char>>,
    panel_lane0: Option<Seq<char>>,
) -> bool {
    &&& main
    &&& rows == ctx.tile_i
    &&& parse_u64(bound) == Some(ctx.tile_j)
    &&& panel_lane0 is None
    &&& (ctx.packed is None || panel_base is Some)
}

/// The trio for one j-tile, ordinals from `t`: the vector form behind its
/// gate, the memory form otherwise.
pub open spec fn trio_text(
    t: nat,
    site: TileSite,
    ctx: TileCtx,
    j0: Seq<char>,
    row0: Seq<char>,
    a_rows: Seq<Option<Seq<char>>>,
    b_row: Option<Seq<char>>,
    bound: Seq<char>,
    main: bool,
    panel_base: Option<Seq<char>>,
    panel_lane0: Option<Seq<char>>,
) -> (nat, Seq<char>) {
    if trio_vec_gate(ctx, a_rows.len(), bound, main, panel_base, panel_lane0) {
        trio_vec_text(t, site, ctx, j0, row0, a_rows, b_row, panel_base)
    } else {
        trio_mem_text(t, site, ctx, j0, row0, a_rows, b_row, bound, main, panel_base, panel_lane0)
    }
}

/// Whether a KC tile runs on SSA vectors: the full main tile.
pub open spec fn kc_vec_gate(ctx: TileCtx, rows: nat, bound: Seq<char>, main: bool) -> bool {
    main && rows == ctx.tile_i && parse_u64(bound) == Some(ctx.tile_j)
}

/// The KC trio for one j-tile at one kc panel, ordinals from `t`: the
/// vector form behind its gate, the memory form otherwise.
pub open spec fn kc_trio_text(
    t: nat,
    site: TileSite,
    ctx: TileCtx,
    apack: PackedBuffer,
    j0: Seq<char>,
    acc_base: Seq<char>,
    row0: Seq<char>,
    rows: nat,
    bound: Seq<char>,
    main: bool,
    panel_base: Seq<char>,
    panel_lane0: Option<Seq<char>>,
    k_lo: Seq<char>,
    k_hi: Seq<char>,
    first: bool,
) -> (nat, Seq<char>) {
    if kc_vec_gate(ctx, rows, bound, main) {
        kc_trio_vec_text(t, site, ctx, apack, j0, row0, rows, panel_base, k_lo, k_hi, first)
    } else {
        kc_trio_mem_text(t, site, ctx, apack, j0, acc_base, row0, rows, bound, main, panel_base, panel_lane0, k_lo, k_hi, first)
    }
}

proof fn lemma_a_values_width(
    t: nat,
    site: TileSite,
    ctx: TileCtx,
    a_rows: Seq<Option<Seq<char>>>,
    k: Seq<char>,
    n: nat,
)
    ensures
        t <= a_values_text(t, site, ctx, a_rows, k, n).0 <= t + 4 * n,
        a_values_text(t, site, ctx, a_rows, k, n).2.len() == n,
    decreases n,
{
    if n > 0 {
        lemma_a_values_width(t, site, ctx, a_rows, k, (n - 1) as nat);
        let prev = a_values_text(t, site, ctx, a_rows, k, (n - 1) as nat);
        lemma_tile_index_counter(prev.0, a_rows[n - 1], seq![(site.a.ck, k)], 1);
    }
}

proof fn lemma_kc_a_values_width(t: nat, ctx: TileCtx, apack: PackedBuffer, koff: Seq<char>, n: nat)
    ensures
        t <= kc_a_values_text(t, ctx, apack, koff, n).0 <= t + 3 * n,
        kc_a_values_text(t, ctx, apack, koff, n).2.len() == n,
    decreases n,
{
    if n > 0 {
        lemma_kc_a_values_width(t, ctx, apack, koff, (n - 1) as nat);
    }
}

proof fn lemma_fma_rows_width(
    u: nat,
    site: TileSite,
    ctx: TileCtx,
    lane: Seq<char>,
    acc_base: Option<Seq<char>>,
    stride: u64,
    a_values: Seq<Seq<char>>,
    b_value: Seq<char>,
    n: nat,
)
    ensures
        u <= fma_rows(u, site, ctx, lane, acc_base, stride, a_values, b_value, n).0 <= u + 6 * n,
    decreases n,
{
    if n > 0 {
        lemma_fma_rows_width(u, site, ctx, lane, acc_base, stride, a_values, b_value, (n - 1) as nat);
    }
}

proof fn lemma_b_value_width(
    t: nat,
    site: TileSite,
    ctx: TileCtx,
    j0: Seq<char>,
    b_row: Option<Seq<char>>,
    lane: Seq<char>,
    k: Seq<char>,
    panel_base: Option<Seq<char>>,
    panel_lane0: Option<Seq<char>>,
)
    ensures
        t <= b_index_text(t, site, ctx, j0, b_row, lane, k, panel_base, panel_lane0).0 <= t + 7,
        ctx.packed is None ==> tile_index_upto(t, b_row, seq![(site.b.ck, k), (1u64, j0)], 2).1 is Some,
{
    let terms = seq![(site.b.ck, k), (1u64, j0)];
    lemma_tile_index_counter(t, b_row, terms, 2);
    let one = tile_index_upto(t, b_row, terms, 1);
    assert(tile_index_upto(t, b_row, terms, 2) == {
        let prev = one;
        match prev.1 {
            Some(base) => (prev.0 + 1, Some(tmp_name(prev.0)), prev.2 + op_line(tmp_name(prev.0), "add"@, base, j0)),
            None => (prev.0, Some(j0), prev.2),
        }
    });
}

proof fn lemma_lane_steps_width(
    u: nat,
    site: TileSite,
    ctx: TileCtx,
    shape: LaneShape,
    lane: Seq<char>,
    steps: Seq<(Seq<char>, Seq<Seq<char>>)>,
    n: nat,
)
    requires
        n <= steps.len(),
    ensures
        u <= lane_steps(u, site, ctx, shape, lane, steps, n).0 <= u + steps_budget(steps, n),
    decreases n,
{
    if n > 0 {
        lemma_lane_steps_width(u, site, ctx, shape, lane, steps, (n - 1) as nat);
        let prev = lane_steps(u, site, ctx, shape, lane, steps, (n - 1) as nat);
        let k = steps[n - 1].0;
        let a = steps[n - 1].1;
        lemma_b_value_width(prev.0, site, ctx, shape.j0, shape.b_row, lane, k, shape.panel_base, shape.panel_lane0);
        let b = b_value_text(prev.0, site, ctx, shape.j0, shape.b_row, lane, k, shape.panel_base, shape.panel_lane0);
        lemma_fma_rows_width(b.0, site, ctx, lane, shape.acc_base, shape.stride, a, b.2, a.len());
    }
}

proof fn lemma_lane_loop_width(
    t: nat,
    site: TileSite,
    ctx: TileCtx,
    shape: LaneShape,
    bound: Seq<char>,
    steps: Seq<(Seq<char>, Seq<Seq<char>>)>,
)
    ensures
        t <= lane_loop_text(t, site, ctx, shape, bound, steps).0 <= t + 6 + steps_budget(steps, steps.len()),
{
    reveal(lane_loop_text);
    lemma_lane_steps_width(t + 5, site, ctx, shape, tmp_name(t + 3), steps, steps.len());
}

proof fn lemma_mem_k_width(
    t: nat,
    site: TileSite,
    ctx: TileCtx,
    shape: LaneShape,
    bound: Seq<char>,
    src: ASource,
    k_hi: Seq<char>,
    l1: Seq<char>,
    l2: Seq<char>,
    l3: Seq<char>,
    kk: Seq<char>,
)
    ensures
        t <= mem_k_pair(t, site, ctx, shape, bound, src, k_hi, l1, l2, l3, kk).0 <= t + 33 + 20 * src_rows(src),
        t <= mem_k_rest(t, site, ctx, shape, bound, src, k_hi, l1, l2, l3, kk).0 <= t + 17 + 10 * src_rows(src),
        t <= mem_k_single(t, site, ctx, shape, bound, src, k_hi, l1, l2, l3, kk).0 <= t + 18 + 10 * src_rows(src),
{
    reveal(mem_k_pair);
    reveal(mem_k_rest);
    reveal(mem_k_single);
    let n = src_rows(src);
    lemma_a_pair_width(t + 2, site, ctx, src, kk, tmp_name(t));
    let a = a_pair_text(t + 2, site, ctx, src, kk, tmp_name(t));
    let pf = opt_prefetch(a.0, ctx, shape.panel_base, kk);
    lemma_lane_loop_width(pf.0, site, ctx, shape, bound, seq![(kk, a.2), (tmp_name(t), a.3)]);
    lemma_steps_small(kk, a.2, tmp_name(t), a.3, 0);
    lemma_a_step_width(t + 1, site, ctx, src, kk);
    let a1 = a_step_text(t + 1, site, ctx, src, kk);
    lemma_lane_loop_width(a1.0, site, ctx, shape, bound, seq![(kk, a1.2)]);
    lemma_steps_small(kk, a1.2, kk, a1.2, 0);
}

proof fn lemma_steps_budget_mono(steps: Seq<(Seq<char>, Seq<Seq<char>>)>, m: nat, n: nat)
    requires
        m <= n,
    ensures
        steps_budget(steps, m) <= steps_budget(steps, n),
    decreases n,
{
    if m < n {
        lemma_steps_budget_mono(steps, m, (n - 1) as nat);
    }
}

proof fn lemma_a_step_width(t: nat, site: TileSite, ctx: TileCtx, src: ASource, kk: Seq<char>)
    ensures
        t <= a_step_text(t, site, ctx, src, kk).0 <= t + 1 + 4 * src_rows(src),
        a_step_text(t, site, ctx, src, kk).2.len() == src_rows(src),
{
    match src {
        ASource::Rows(rows) => lemma_a_values_width(t, site, ctx, rows, kk, rows.len()),
        ASource::Panel(apack, k_lo, n) => lemma_kc_a_values_width(t + 1, ctx, apack, tmp_name(t), n),
    }
}

proof fn lemma_a_pair_width(t: nat, site: TileSite, ctx: TileCtx, src: ASource, kk: Seq<char>, kk1: Seq<char>)
    ensures
        t <= a_pair_text(t, site, ctx, src, kk, kk1).0 <= t + 2 + 8 * src_rows(src),
        a_pair_text(t, site, ctx, src, kk, kk1).2.len() == src_rows(src),
        a_pair_text(t, site, ctx, src, kk, kk1).3.len() == src_rows(src),
{
    match src {
        ASource::Rows(rows) => {
            lemma_a_values_width(t, site, ctx, rows, kk, rows.len());
            let a0 = a_values_text(t, site, ctx, rows, kk, rows.len());
            lemma_a_values_width(a0.0, site, ctx, rows, kk1, rows.len());
        },
        ASource::Panel(apack, k_lo, n) => {
            lemma_kc_a_values_width(t + 2, ctx, apack, tmp_name(t), n);
            let a0 = kc_a_values_text(t + 2, ctx, apack, tmp_name(t), n);
            lemma_kc_a_values_width(a0.0, ctx, apack, tmp_name(t + 1), n);
        },
    }
}

/// The budget and fit of a one- and a two-step lane loop.
proof fn lemma_steps_small(
    kk: Seq<char>,
    a0: Seq<Seq<char>>,
    kk1: Seq<char>,
    a1: Seq<Seq<char>>,
    stride: u64,
)
    ensures
        steps_budget(seq![(kk, a0)], 1) == 9 + 6 * a0.len(),
        steps_budget(seq![(kk, a0), (kk1, a1)], 2) == 18 + 6 * a0.len() + 6 * a1.len(),
        a0.len() * stride <= u64::MAX ==> steps_fit(seq![(kk, a0)], stride),
        a0.len() * stride <= u64::MAX && a1.len() * stride <= u64::MAX ==> steps_fit(
            seq![(kk, a0), (kk1, a1)],
            stride,
        ),
{
    let one = seq![(kk, a0)];
    let two = seq![(kk, a0), (kk1, a1)];
    assert(steps_budget(one, 0) == 0);
    assert(steps_budget(two, 0) == 0);
    assert(steps_budget(two, 1) == 9 + 6 * a0.len());
}

/// What a trio's lane loops need of their arguments: the subrows fit the
/// accumulator stride, an unhoisted packed panel's size fits, the rows
/// source is consistent, and a packed `a` panel's offsets fit.
pub open spec fn trio_args_ok(
    site: TileSite,
    ctx: TileCtx,
    panel_base: Option<&str>,
    stride: u64,
    a_rows: Seq<Option<String>>,
    apack: Option<(&PackedBuffer, &str)>,
    rows: u64,
) -> bool {
    &&& rows * stride <= u64::MAX
    &&& ctx.packed is Some && panel_base is None ==> site.k * ctx.tile_j <= u64::MAX
    &&& apack is None ==> rows == a_rows.len()
    &&& apack is Some ==> rows * ctx.tile_kc <= u64::MAX
}

proof fn lemma_vec_fma_rows_width(
    u: nat,
    site: TileSite,
    ctx: TileCtx,
    a_values: Seq<Seq<char>>,
    b: Seq<char>,
    accs: Seq<Seq<char>>,
    out_names: Option<Seq<Seq<char>>>,
    n: nat,
)
    ensures
        u <= vec_fma_rows(u, site, ctx, a_values, b, accs, out_names, n).0 <= u + 4 * n,
        vec_fma_rows(u, site, ctx, a_values, b, accs, out_names, n).2.len() == n,
    decreases n,
{
    if n > 0 {
        lemma_vec_fma_rows_width(u, site, ctx, a_values, b, accs, out_names, (n - 1) as nat);
    }
}

proof fn lemma_b_vector_width(
    t: nat,
    site: TileSite,
    ctx: TileCtx,
    j0: Seq<char>,
    b_row: Option<Seq<char>>,
    k: Seq<char>,
    panel_base: Option<Seq<char>>,
)
    ensures
        t <= b_vector_text(t, site, ctx, j0, b_row, k, panel_base).0 <= t + 6,
        ctx.packed is None ==> tile_index_upto(t, b_row, seq![(site.b.ck, k), (1u64, j0)], 2).1 is Some,
{
    lemma_b_value_width(t, site, ctx, j0, b_row, j0, k, panel_base, None);
    lemma_tile_index_counter(t, b_row, seq![(site.b.ck, k), (1u64, j0)], 2);
}

proof fn lemma_vec_step_width(
    t: nat,
    site: TileSite,
    ctx: TileCtx,
    j0: Seq<char>,
    b_row: Option<Seq<char>>,
    panel_base: Option<Seq<char>>,
    src: ASource,
    k: Seq<char>,
    accs: Seq<Seq<char>>,
    out_names: Option<Seq<Seq<char>>>,
)
    requires
        src_rows(src) == accs.len(),
    ensures
        t <= vec_step_text(t, site, ctx, j0, b_row, panel_base, src, k, accs, out_names).0 <= t + 7 + 8 * accs.len(),
        vec_step_text(t, site, ctx, j0, b_row, panel_base, src, k, accs, out_names).2.len() == accs.len(),
{
    reveal(vec_step_text);
    lemma_a_step_width(t, site, ctx, src, k);
    let a = a_step_text(t, site, ctx, src, k);
    lemma_b_vector_width(a.0, site, ctx, j0, b_row, k, panel_base);
    let b = b_vector_text(a.0, site, ctx, j0, b_row, k, panel_base);
    lemma_vec_fma_rows_width(b.0, site, ctx, a.2, b.2, accs, out_names, accs.len());
}

/// The names a phi-carried k loop mints up front: its six blocks, the
/// body's pre-minted sums, the header's phis, `k` and `k+1`.
pub struct VecLoopNames {
    pub pre: String,
    pub head: String,
    pub body: String,
    pub tail_check: String,
    pub tail: String,
    pub done: String,
    pub nexts: Vec<String>,
    pub accs: Vec<String>,
    pub kk: String,
    pub kk1: String,
}

/// The names of a phi-carried k loop opened at `t` over `rows` subrows.
pub open spec fn vec_loop_names_ok(n: VecLoopNames, t: nat, rows: nat) -> bool {
    &&& n.pre@ == label_name(t)
    &&& n.head@ == label_name(t + 1)
    &&& n.body@ == label_name(t + 2)
    &&& n.tail_check@ == label_name(t + 3)
    &&& n.tail@ == label_name(t + 4)
    &&& n.done@ == label_name(t + 5)
    &&& n.nexts@.len() == rows
    &&& n.accs@.len() == rows
    &&& texts(n.nexts@) == tmp_run(t + 6, rows)
    &&& texts(n.accs@) == tmp_run(t + 6 + rows, rows)
    &&& n.kk@ == tmp_name(t + 6 + 2 * rows)
    &&& n.kk1@ == tmp_name(t + 7 + 2 * rows)
}

proof fn lemma_vec_loop_width(
    t: nat,
    site: TileSite,
    ctx: TileCtx,
    j0: Seq<char>,
    b_row: Option<Seq<char>>,
    panel_base: Option<Seq<char>>,
    src: ASource,
    k_hi: Seq<char>,
    rows: nat,
    u: nat,
)
    requires
        src_rows(src) == rows,
    ensures
        u <= vec_loop_trip(u, t, site, ctx, j0, b_row, panel_base, src, rows).0 <= u + 19 + 16 * rows,
        u <= vec_loop_exit(u, t, site, ctx, j0, b_row, panel_base, src, k_hi, rows).0 <= u + 8 + 9 * rows,
        vec_loop_exit(u, t, site, ctx, j0, b_row, panel_base, src, k_hi, rows).2.len() == rows,
{
    let kk = tmp_name(t + 6 + 2 * rows);
    let pf = opt_prefetch(u, ctx, panel_base, kk);
    lemma_vec_step_width(pf.0, site, ctx, j0, b_row, panel_base, src, kk, tmp_run(t + 6 + rows, rows), None);
    let mid = vec_step_text(pf.0, site, ctx, j0, b_row, panel_base, src, kk, tmp_run(t + 6 + rows, rows), None);
    lemma_vec_step_width(
        mid.0,
        site,
        ctx,
        j0,
        b_row,
        panel_base,
        src,
        tmp_name(t + 7 + 2 * rows),
        mid.2,
        Some(tmp_run(t + 6, rows)),
    );
    lemma_vec_step_width(u + 1, site, ctx, j0, b_row, panel_base, src, kk, tmp_run(t + 6 + rows, rows), None);
}

proof fn lemma_vec_k_loop_width(
    t: nat,
    site: TileSite,
    ctx: TileCtx,
    j0: Seq<char>,
    b_row: Option<Seq<char>>,
    panel_base: Option<Seq<char>>,
    src: ASource,
    k_lo: Seq<char>,
    k_hi: Seq<char>,
    seeds: Seq<Seq<char>>,
)
    requires
        src_rows(src) == seeds.len(),
    ensures
        t <= vec_k_loop_text(t, site, ctx, j0, b_row, panel_base, src, k_lo, k_hi, seeds).0 <= t + 36 + 27 * seeds.len(),
        vec_k_loop_text(t, site, ctx, j0, b_row, panel_base, src, k_lo, k_hi, seeds).2.len() == seeds.len(),
{
    reveal(vec_k_loop_text);
    let rows = seeds.len();
    lemma_vec_loop_width(t, site, ctx, j0, b_row, panel_base, src, k_hi, rows, t + 9 + 2 * rows);
    let trip = vec_loop_trip(t + 9 + 2 * rows, t, site, ctx, j0, b_row, panel_base, src, rows);
    lemma_vec_loop_width(t, site, ctx, j0, b_row, panel_base, src, k_hi, rows, trip.0);
}

proof fn lemma_vec_out_ptrs_width(t: nat, site: TileSite, ctx: TileCtx, out_start: Seq<char>, n: nat)
    ensures
        t <= vec_out_ptrs_text(t, site, ctx, out_start, n).0 <= t + 2 * n,
        vec_out_ptrs_text(t, site, ctx, out_start, n).2.len() == n,
    decreases n,
{
    if n > 0 {
        lemma_vec_out_ptrs_width(t, site, ctx, out_start, (n - 1) as nat);
    }
}

/// A trio takes at most `60 + 50*rows` ordinals.
pub proof fn lemma_trio_width(
    t: nat,
    site: TileSite,
    ctx: TileCtx,
    j0: Seq<char>,
    row0: Seq<char>,
    a_rows: Seq<Option<Seq<char>>>,
    b_row: Option<Seq<char>>,
    bound: Seq<char>,
    main: bool,
    panel_base: Option<Seq<char>>,
    panel_lane0: Option<Seq<char>>,
)
    ensures
        t <= trio_text(t, site, ctx, j0, row0, a_rows, b_row, bound, main, panel_base, panel_lane0).0 <= t + 60 + 50
            * a_rows.len(),
{
    let rows = a_rows.len();
    if trio_vec_gate(ctx, rows, bound, main, panel_base, panel_lane0) {
        reveal(trio_vec_text);
        let seeds = Seq::new(rows, |i: int| tmp_name(t + 1));
        let src = ASource::Rows(a_rows);
        lemma_vec_k_loop_width(t + 2, site, ctx, j0, b_row, panel_base, src, "0"@, num::dec_nat(site.k as nat), seeds);
        let kl = vec_k_loop_text(t + 2, site, ctx, j0, b_row, panel_base, src, "0"@, num::dec_nat(site.k as nat), seeds);
        lemma_vec_out_ptrs_width(kl.0 + 1, site, ctx, tmp_name(kl.0), rows);
    } else {
        reveal(trio_mem_text);
        let shape = LaneShape { j0, b_row, panel_base, panel_lane0, acc_base: None, stride: ctx.tile_j };
        lemma_seed_rows_width(t, ctx, bound, rows);
        let seeds = seed_rows(t, ctx, bound, rows);
        lemma_mem_k_loop_width(
            seeds.0,
            site,
            ctx,
            shape,
            bound,
            ASource::Rows(a_rows),
            "0"@,
            num::dec_nat(site.k as nat),
            main && rows == ctx.tile_i,
        );
        let kl = mem_k_loop(
            seeds.0,
            site,
            ctx,
            shape,
            bound,
            ASource::Rows(a_rows),
            "0"@,
            num::dec_nat(site.k as nat),
            main && rows == ctx.tile_i,
        );
        lemma_store_rows_width(kl.0 + 1, ctx, tmp_name(kl.0), site.c, bound, rows);
    }
}

/// A KC trio takes at most `60 + 60*rows` ordinals.
pub proof fn lemma_kc_trio_width(
    t: nat,
    site: TileSite,
    ctx: TileCtx,
    apack: PackedBuffer,
    j0: Seq<char>,
    acc_base: Seq<char>,
    row0: Seq<char>,
    rows: nat,
    bound: Seq<char>,
    main: bool,
    panel_base: Seq<char>,
    panel_lane0: Option<Seq<char>>,
    k_lo: Seq<char>,
    k_hi: Seq<char>,
    first: bool,
)
    ensures
        t <= kc_trio_text(t, site, ctx, apack, j0, acc_base, row0, rows, bound, main, panel_base, panel_lane0, k_lo, k_hi, first).0
            <= t + 60 + 60 * rows,
{
    if kc_vec_gate(ctx, rows, bound, main) {
        reveal(kc_trio_vec_text);
        lemma_vec_out_ptrs_width(t + 1, site, ctx, tmp_name(t), rows);
        let ptrs = vec_out_ptrs_text(t + 1, site, ctx, tmp_name(t), rows);
        let p = ptrs.0;
        let seeds: (nat, Seq<char>, Seq<Seq<char>>) = if first {
            (p + 2, splat_text(p, ctx.elem_llt@, ctx.tile_j, ctx.seed@), Seq::new(rows, |i: int| tmp_name(p + 1)))
        } else {
            (p + rows, vec_loads_text(p, ctx, ptrs.2, rows), tmp_run(p, rows))
        };
        lemma_vec_k_loop_width(seeds.0, site, ctx, j0, None, Some(panel_base), ASource::Panel(apack, k_lo, rows), k_lo, k_hi, seeds.2);
    } else {
        reveal(kc_trio_mem_text);
        let shape = LaneShape {
            j0,
            b_row: None,
            panel_base: Some(panel_base),
            panel_lane0,
            acc_base: Some(acc_base),
            stride: ctx.tile_j,
        };
        lemma_kc_rows_width(t + 1, site, ctx, tmp_name(t), acc_base, bound, first, rows);
        let seeds = kc_seed_rows(t + 1, site, ctx, tmp_name(t), acc_base, bound, first, rows);
        lemma_mem_k_loop_width(seeds.0, site, ctx, shape, bound, ASource::Panel(apack, k_lo, rows), k_lo, k_hi, main && rows == ctx.tile_i);
        let kl = mem_k_loop(seeds.0, site, ctx, shape, bound, ASource::Panel(apack, k_lo, rows), k_lo, k_hi, main && rows == ctx.tile_i);
        lemma_kc_rows_width(kl.0, site, ctx, tmp_name(t), acc_base, bound, first, rows);
    }
}

impl<'a> FnEmit<'a> {
    /// Subrow `r`'s FMA at one lane: `acc[offset] = acc[offset] + a * b`.
    #[verifier::spinoff_prover]
    #[verifier::rlimit(40)]
    fn emit_fma_row(
        &mut self,
        site: &TileSite,
        ctx: &TileCtx,
        lane: &str,
        acc_base: Option<&str>,
        stride: u64,
        r: u64,
        a_value: &str,
        b_value: &str,
    )
        requires
            old(self).next + 6 <= u32::MAX,
            r == 0 || r * stride <= u64::MAX,
        ensures
            ({
                let res = fma_row(
                    old(self).next as nat,
                    *site,
                    *ctx,
                    lane@,
                    opt_str(acc_base),
                    stride,
                    r as nat,
                    a_value@,
                    b_value@,
                );
                &&& final(self).next == res.0
                &&& final(self).body@ == old(self).body@ + res.1
            }),
            final(self).allocas == old(self).allocas,
            final(self).heap_used == old(self).heap_used,
            final(self).same_setup(*old(self)),
    {
        let ghost u = old(self).next as nat;
        let ghost o = old(self).body@;
        let elem = ctx.elem_llt.as_str();
        let product = if site.mul_a_first {
            self.emit_flagged(ctx.mul_op, ctx.contract_flag, elem, a_value, b_value)
        } else {
            self.emit_flagged(ctx.mul_op, ctx.contract_flag, elem, b_value, a_value)
        };
        let ghost p1 = product_line(tmp_name(u), *site, *ctx, a_value@, b_value@);
        let acc_lane = self.emit_acc_lane(lane, acc_base, r, stride);
        let ghost acc = acc_lane_text(u + 1, lane@, opt_str(acc_base), r as nat, stride);
        assert(self.body@ == o + p1 + acc.1 && acc_lane@ == acc.2 && self.next == acc.0) by {
            assert((r * stride) as nat == (r as nat * stride) as nat);
            assert(o + p1 + Seq::<char>::empty() =~= o + p1);
            if acc_base is Some && r != 0 {
                lemma_concat_associative(o + p1, op_line(tmp_name(u + 1), "add"@, opt_str(acc_base).unwrap(), num::dec_nat((r * stride) as nat)), op_line(tmp_name(u + 2), "add"@, lane@, tmp_name(u + 1)));
            }
        }
        let ghost w = acc.0;
        let ghost w2 = p1 + acc.1;
        proof {
            lemma_concat_associative(o, p1, acc.1);
        }
        let acc_ptr = self.emit_gep(ctx.acc_llt.as_str(), ctx.acc.as_str(), acc_lane.as_str());
        let ghost p3 = gep_line(tmp_name(w), ctx.acc_llt@, ctx.acc@, acc.2);
        proof {
            lemma_concat_associative(o, w2, p3);
        }
        let ghost w3 = w2 + p3;
        let acc_value = self.emit_load(elem, acc_ptr.as_str());
        let ghost p4 = load_line(tmp_name(w + 1), ctx.elem_llt@, tmp_name(w));
        proof {
            lemma_concat_associative(o, w3, p4);
        }
        let ghost w4 = w3 + p4;
        let sum = if site.add_acc_first {
            self.emit_flagged(ctx.add_op, ctx.contract_flag, elem, acc_value.as_str(), product.as_str())
        } else {
            self.emit_flagged(ctx.add_op, ctx.contract_flag, elem, product.as_str(), acc_value.as_str())
        };
        let ghost p5 = sum_line(tmp_name(w + 2), *site, *ctx, tmp_name(w + 1), tmp_name(u));
        proof {
            lemma_concat_associative(o, w4, p5);
        }
        let ghost w5 = w4 + p5;
        self.emit_store(elem, sum.as_str(), acc_ptr.as_str());
        proof {
            lemma_concat_associative(o, w5, store_line(ctx.elem_llt@, tmp_name(w + 2), tmp_name(w)));
        }
    }

    /// A packed panel row and lane from the hoisted panel base.
    fn emit_panel_row(&mut self, ctx: &TileCtx, k: &str, panel_base: &str, lane: &str, panel_lane0: Option<&str>) -> (r:
        (String, String))
        requires
            old(self).next + 3 <= u32::MAX,
        ensures
            ({
                let res = panel_row_text(old(self).next as nat, *ctx, k@, panel_base@, lane@, opt_str(panel_lane0));
                &&& final(self).next == res.0
                &&& final(self).body@ == old(self).body@ + res.1
                &&& r.0@ == res.2
                &&& r.1@ == res.3
            }),
            final(self).allocas == old(self).allocas,
            final(self).heap_used == old(self).heap_used,
            final(self).same_setup(*old(self)),
    {
        let ghost t = old(self).next as nat;
        let ghost o = old(self).body@;
        let tj = num::u64_to_string(ctx.tile_j);
        let k_offset = self.emit_op("mul", k, tj.as_str());
        let ghost p1 = op_line(tmp_name(t), "mul"@, k@, num::dec_nat(ctx.tile_j as nat));
        let row = self.emit_op("add", panel_base, k_offset.as_str());
        let ghost p2 = op_line(tmp_name(t + 1), "add"@, panel_base@, tmp_name(t));
        proof {
            lemma_concat_associative(o, p1, p2);
        }
        let panel_lane = match panel_lane0 {
            Some(pl0) => {
                let pl = self.emit_op("add", pl0, lane);
                proof {
                    lemma_concat_associative(o, p1 + p2, op_line(tmp_name(t + 2), "add"@, pl0@, lane@));
                }
                pl
            },
            None => String::from_str(lane),
        };
        (row, panel_lane)
    }

    /// A packed panel row and lane found from `j0 + lane`.
    fn emit_panel_find(&mut self, site: &TileSite, ctx: &TileCtx, j0: &str, lane: &str, k: &str) -> (r: (String, String))
        requires
            old(self).next + 6 <= u32::MAX,
            site.k * ctx.tile_j <= u64::MAX,
        ensures
            ({
                let res = panel_find_text(old(self).next as nat, *site, *ctx, j0@, lane@, k@);
                &&& final(self).next == res.0
                &&& final(self).body@ == old(self).body@ + res.1
                &&& r.0@ == res.2
                &&& r.1@ == res.3
            }),
            final(self).allocas == old(self).allocas,
            final(self).heap_used == old(self).heap_used,
            final(self).same_setup(*old(self)),
    {
        let ghost t = old(self).next as nat;
        let ghost o = old(self).body@;
        let ghost tjs = num::dec_nat(ctx.tile_j as nat);
        let tj = num::u64_to_string(ctx.tile_j);
        let j = self.emit_op("add", j0, lane);
        let ghost p1 = op_line(tmp_name(t), "add"@, j0@, lane@);
        let jt = self.emit_op("udiv", j.as_str(), tj.as_str());
        let ghost p2 = op_line(tmp_name(t + 1), "udiv"@, tmp_name(t), tjs);
        proof {
            lemma_concat_associative(o, p1, p2);
        }
        let panel_lane = self.emit_op("urem", j.as_str(), tj.as_str());
        let ghost p3 = op_line(tmp_name(t + 2), "urem"@, tmp_name(t), tjs);
        proof {
            lemma_concat_associative(o, p1 + p2, p3);
        }
        let panel = num::u64_to_string(site.k * ctx.tile_j);
        let pbase = self.emit_op("mul", jt.as_str(), panel.as_str());
        let ghost p4 = op_line(tmp_name(t + 3), "mul"@, tmp_name(t + 1), num::dec_nat((site.k * ctx.tile_j) as nat));
        proof {
            lemma_concat_associative(o, p1 + p2 + p3, p4);
        }
        let k_offset = self.emit_op("mul", k, tj.as_str());
        let ghost p5 = op_line(tmp_name(t + 4), "mul"@, k@, tjs);
        proof {
            lemma_concat_associative(o, p1 + p2 + p3 + p4, p5);
        }
        let row = self.emit_op("add", pbase.as_str(), k_offset.as_str());
        proof {
            lemma_concat_associative(
                o,
                p1 + p2 + p3 + p4 + p5,
                op_line(tmp_name(t + 5), "add"@, tmp_name(t + 3), tmp_name(t + 4)),
            );
        }
        (row, panel_lane)
    }

    /// The index of one lane's `b` element (in the packed panel when the
    /// site is packed).
    #[verifier::spinoff_prover]
    fn emit_b_index(
        &mut self,
        site: &TileSite,
        ctx: &TileCtx,
        j0: &str,
        b_row: &Option<String>,
        lane: &str,
        k: &str,
        panel_base: Option<&str>,
        panel_lane0: Option<&str>,
    ) -> (r: String)
        requires
            old(self).next + 7 <= u32::MAX,
            ctx.packed is Some && panel_base is None ==> site.k * ctx.tile_j <= u64::MAX,
        ensures
            ({
                let res = b_index_text(
                    old(self).next as nat,
                    *site,
                    *ctx,
                    j0@,
                    opt_text(*b_row),
                    lane@,
                    k@,
                    opt_str(panel_base),
                    opt_str(panel_lane0),
                );
                &&& final(self).next == res.0
                &&& final(self).body@ == old(self).body@ + res.1
                &&& r@ == res.4
            }),
            final(self).allocas == old(self).allocas,
            final(self).heap_used == old(self).heap_used,
            final(self).same_setup(*old(self)),
    {
        let ghost t = old(self).next as nat;
        let ghost o = old(self).body@;
        if ctx.packed.is_some() {
            let (row, panel_lane) = match panel_base {
                Some(pb) => self.emit_panel_row(ctx, k, pb, lane, panel_lane0),
                None => self.emit_panel_find(site, ctx, j0, lane, k),
            };
            let ghost rp = match opt_str(panel_base) {
                Some(pb) => panel_row_text(t, *ctx, k@, pb, lane@, opt_str(panel_lane0)),
                None => panel_find_text(t, *site, *ctx, j0@, lane@, k@),
            };
            let index = self.emit_op("add", row.as_str(), panel_lane.as_str());
            proof {
                lemma_concat_associative(o, rp.1, op_line(tmp_name(rp.0), "add"@, rp.2, rp.3));
            }
            index
        } else {
            let base = match b_row {
                Some(b) => Some(b.clone()),
                None => None,
            };
            let terms = [(site.b.ck, k), (1u64, j0)];
            let ghost tv = seq![(site.b.ck, k@), (1u64, j0@)];
            assert(term_views(terms@) =~= tv);
            proof {
                lemma_b_value_width(t, *site, *ctx, j0@, opt_text(*b_row), lane@, k@, opt_str(panel_base), opt_str(panel_lane0));
            }
            let start = self.emit_tile_index(base, &terms).expect("tile b has lane term");
            let ghost st = tile_index_upto(t, opt_text(*b_row), tv, 2);
            let index = self.emit_op("add", start.as_str(), lane);
            proof {
                lemma_concat_associative(o, st.2, op_line(tmp_name(st.0), "add"@, start@, lane@));
            }
            index
        }
    }

    /// One lane's `b` element: its index, address and value.
    #[verifier::spinoff_prover]
    fn emit_tile_b_value(
        &mut self,
        site: &TileSite,
        ctx: &TileCtx,
        j0: &str,
        b_row: &Option<String>,
        lane: &str,
        k: &str,
        panel_base: Option<&str>,
        panel_lane0: Option<&str>,
    ) -> (v: String)
        requires
            old(self).next + 9 <= u32::MAX,
            ctx.packed is Some && panel_base is None ==> site.k * ctx.tile_j <= u64::MAX,
        ensures
            ({
                let res = b_value_text(
                    old(self).next as nat,
                    *site,
                    *ctx,
                    j0@,
                    opt_text(*b_row),
                    lane@,
                    k@,
                    opt_str(panel_base),
                    opt_str(panel_lane0),
                );
                &&& final(self).next == res.0
                &&& final(self).body@ == old(self).body@ + res.1
                &&& v@ == res.2
            }),
            final(self).allocas == old(self).allocas,
            final(self).heap_used == old(self).heap_used,
            final(self).same_setup(*old(self)),
    {
        let ghost t = old(self).next as nat;
        let ghost o = old(self).body@;
        proof {
            lemma_b_value_width(t, *site, *ctx, j0@, opt_text(*b_row), lane@, k@, opt_str(panel_base), opt_str(panel_lane0));
        }
        let index = self.emit_b_index(site, ctx, j0, b_row, lane, k, panel_base, panel_lane0);
        let ghost ix = b_index_text(t, *site, *ctx, j0@, opt_text(*b_row), lane@, k@, opt_str(panel_base), opt_str(panel_lane0));
        let ptr = match &ctx.packed {
            Some(packed) => self.emit_gep(packed.llt.as_str(), packed.ptr.as_str(), index.as_str()),
            None => self.emit_gep(ctx.b_llt.as_str(), ctx.b_ptr.as_str(), index.as_str()),
        };
        let ghost p2 = gep_line(tmp_name(ix.0), ix.2, ix.3, ix.4);
        proof {
            lemma_concat_associative(o, ix.1, p2);
        }
        let value = self.emit_load(ctx.elem_llt.as_str(), ptr.as_str());
        proof {
            lemma_concat_associative(o, ix.1 + p2, load_line(tmp_name(ix.0 + 1), ctx.elem_llt@, tmp_name(ix.0)));
        }
        value
    }

    /// One k step at one lane: the shared `b` element, then every subrow's
    /// FMA with its `a` value.
    #[verifier::spinoff_prover]
    fn emit_lane_step(
        &mut self,
        site: &TileSite,
        ctx: &TileCtx,
        j0: &str,
        b_row: &Option<String>,
        lane: &str,
        k: &str,
        panel_base: Option<&str>,
        panel_lane0: Option<&str>,
        acc_base: Option<&str>,
        stride: u64,
        a_values: &Vec<String>,
    )
        requires
            old(self).next + 9 + 6 * a_values@.len() <= u32::MAX,
            a_values@.len() * stride <= u64::MAX,
            ctx.packed is Some && panel_base is None ==> site.k * ctx.tile_j <= u64::MAX,
        ensures
            ({
                let res = lane_step(
                    old(self).next as nat,
                    *site,
                    *ctx,
                    shape_of(j0, *b_row, panel_base, panel_lane0, acc_base, stride),
                    lane@,
                    k@,
                    texts(a_values@),
                );
                &&& final(self).next == res.0
                &&& final(self).body@ == old(self).body@ + res.1
            }),
            final(self).allocas == old(self).allocas,
            final(self).heap_used == old(self).heap_used,
            final(self).same_setup(*old(self)),
    {
        let ghost t = old(self).next as nat;
        let ghost o = old(self).body@;
        let ghost av = texts(a_values@);
        proof {
            lemma_b_value_width(t, *site, *ctx, j0@, opt_text(*b_row), lane@, k@, opt_str(panel_base), opt_str(panel_lane0));
        }
        let b_value = self.emit_tile_b_value(site, ctx, j0, b_row, lane, k, panel_base, panel_lane0);
        let ghost b = b_value_text(t, *site, *ctx, j0@, opt_text(*b_row), lane@, k@, opt_str(panel_base), opt_str(panel_lane0));
        assert(o + b.1 + Seq::<char>::empty() =~= o + b.1);
        let mut r: usize = 0;
        while r < a_values.len()
            invariant
                r <= a_values@.len(),
                av == texts(a_values@),
                b_value@ == b.2,
                b.0 + 6 * a_values@.len() <= u32::MAX,
                a_values@.len() * stride <= u64::MAX,
                ({
                    let res = fma_rows(b.0, *site, *ctx, lane@, opt_str(acc_base), stride, av, b.2, r as nat);
                    &&& self.next == res.0
                    &&& self.body@ == o + b.1 + res.1
                }),
                self.allocas == old(self).allocas,
                self.heap_used == old(self).heap_used,
                self.same_setup(*old(self)),
            decreases a_values@.len() - r,
        {
            proof {
                lemma_fma_rows_width(b.0, *site, *ctx, lane@, opt_str(acc_base), stride, av, b.2, r as nat);
                vstd::arithmetic::mul::lemma_mul_inequality(r as int, a_values@.len() as int, stride as int);
            }
            self.emit_fma_row(site, ctx, lane, acc_base, stride, r as u64, a_values[r].as_str(), b_value.as_str());
            proof {
                let prev = fma_rows(b.0, *site, *ctx, lane@, opt_str(acc_base), stride, av, b.2, r as nat);
                lemma_concat_associative(
                    o + b.1,
                    prev.1,
                    fma_row(prev.0, *site, *ctx, lane@, opt_str(acc_base), stride, r as nat, av[r as int], b.2).1,
                );
            }
            r += 1;
        }
        proof {
            lemma_concat_associative(o, b.1, fma_rows(b.0, *site, *ctx, lane@, opt_str(acc_base), stride, av, b.2, av.len()).1);
        }
    }

    /// The lane loop over `0..bound`: every k step of `steps` at each lane,
    /// the accumulator of subrow `r` at `acc_base + r*acc_row_stride + lane`.
    #[verifier::spinoff_prover]
    #[verifier::rlimit(40)]
    pub fn emit_tile_lane_loop(
        &mut self,
        site: &TileSite,
        ctx: &TileCtx,
        j0: &str,
        b_row: &Option<String>,
        bound: &str,
        panel_base: Option<&str>,
        panel_lane0: Option<&str>,
        acc_base: Option<&str>,
        acc_row_stride: u64,
        steps: &[(&str, Vec<String>)],
    )
        requires
            old(self).next + 6 + steps_budget(steps_view(steps@), steps@.len()) <= u32::MAX,
            steps_fit(steps_view(steps@), acc_row_stride),
            ctx.packed is Some && panel_base is None ==> site.k * ctx.tile_j <= u64::MAX,
        ensures
            ({
                let res = lane_loop_text(
                    old(self).next as nat,
                    *site,
                    *ctx,
                    shape_of(j0, *b_row, panel_base, panel_lane0, acc_base, acc_row_stride),
                    bound@,
                    steps_view(steps@),
                );
                &&& final(self).next == res.0
                &&& final(self).body@ == old(self).body@ + res.1
            }),
            final(self).allocas == old(self).allocas,
            final(self).heap_used == old(self).heap_used,
            final(self).same_setup(*old(self)),
    {
        reveal(lane_loop_text);
        let ghost t = old(self).next as nat;
        let ghost o = old(self).body@;
        let ghost sv = steps_view(steps@);
        let ghost shape = shape_of(j0, *b_row, panel_base, panel_lane0, acc_base, acc_row_stride);
        let (head, done, lane) = self.emit_lane_head(ctx.lane_ctr.as_str(), bound);
        let ghost w1 = lane_head_text(t, ctx.lane_ctr@, bound@);
        assert(o + w1 + Seq::<char>::empty() =~= o + w1);
        let mut si: usize = 0;
        while si < steps.len()
            invariant
                si <= steps@.len(),
                sv == steps_view(steps@),
                shape == shape_of(j0, *b_row, panel_base, panel_lane0, acc_base, acc_row_stride),
                lane@ == tmp_name(t + 3),
                t + 6 + steps_budget(sv, sv.len()) <= u32::MAX,
                steps_fit(sv, acc_row_stride),
                ctx.packed is Some && panel_base is None ==> site.k * ctx.tile_j <= u64::MAX,
                ({
                    let res = lane_steps(t + 5, *site, *ctx, shape, tmp_name(t + 3), sv, si as nat);
                    &&& self.next == res.0
                    &&& self.body@ == o + w1 + res.1
                }),
                self.allocas == old(self).allocas,
                self.heap_used == old(self).heap_used,
                self.same_setup(*old(self)),
            decreases steps@.len() - si,
        {
            proof {
                lemma_lane_steps_width(t + 5, *site, *ctx, shape, tmp_name(t + 3), sv, si as nat);
                lemma_steps_budget_mono(sv, si as nat + 1, sv.len());
                assert(sv[si as int].1.len() * acc_row_stride <= u64::MAX);
                assert(sv[si as int].1 == texts(steps@[si as int].1@));
            }
            self.emit_lane_step(
                site,
                ctx,
                j0,
                b_row,
                lane.as_str(),
                steps[si].0,
                panel_base,
                panel_lane0,
                acc_base,
                acc_row_stride,
                &steps[si].1,
            );
            proof {
                let prev = lane_steps(t + 5, *site, *ctx, shape, tmp_name(t + 3), sv, si as nat);
                lemma_concat_associative(
                    o + w1,
                    prev.1,
                    lane_step(prev.0, *site, *ctx, shape, tmp_name(t + 3), sv[si as int].0, sv[si as int].1).1,
                );
            }
            si += 1;
        }
        let ghost body = lane_steps(t + 5, *site, *ctx, shape, tmp_name(t + 3), sv, sv.len());
        proof {
            lemma_lane_steps_width(t + 5, *site, *ctx, shape, tmp_name(t + 3), sv, sv.len());
            lemma_concat_associative(o, w1, body.1);
        }
        self.emit_loop_tail(ctx.lane_ctr.as_str(), lane.as_str(), head.as_str(), done.as_str());
        proof {
            lemma_concat_associative(o, w1 + body.1, lane_tail_text(t, body.0, ctx.lane_ctr@));
        }
    }

    /// Every subrow's `a` value at `k`: `a[a_rows[r] + a.ck*k]` (or `a[0]`).
    #[verifier::spinoff_prover]
    pub fn emit_tile_a_values(&mut self, site: &TileSite, ctx: &TileCtx, a_rows: &[Option<String>], k: &str) -> (v: Vec<
        String,
    >)
        requires
            old(self).next + 4 * a_rows@.len() <= u32::MAX,
        ensures
            ({
                let res = a_values_text(old(self).next as nat, *site, *ctx, opt_texts(a_rows@), k@, a_rows@.len());
                &&& final(self).next == res.0
                &&& final(self).body@ == old(self).body@ + res.1
                &&& texts(v@) == res.2
            }),
            final(self).allocas == old(self).allocas,
            final(self).heap_used == old(self).heap_used,
            final(self).same_setup(*old(self)),
    {
        let ghost t = old(self).next as nat;
        let ghost o = old(self).body@;
        let ghost rows = opt_texts(a_rows@);
        let mut values: Vec<String> = Vec::new();
        let mut r: usize = 0;
        while r < a_rows.len()
            invariant
                r <= a_rows@.len(),
                rows == opt_texts(a_rows@),
                t + 4 * a_rows@.len() <= u32::MAX,
                ({
                    let res = a_values_text(t, *site, *ctx, rows, k@, r as nat);
                    &&& self.next == res.0
                    &&& self.body@ == o + res.1
                    &&& texts(values@) == res.2
                }),
                self.allocas == old(self).allocas,
                self.heap_used == old(self).heap_used,
                self.same_setup(*old(self)),
            decreases a_rows@.len() - r,
        {
            let ghost prev = a_values_text(t, *site, *ctx, rows, k@, r as nat);
            let ghost tv = seq![(site.a.ck, k@)];
            proof {
                lemma_a_values_width(t, *site, *ctx, rows, k@, r as nat);
                lemma_tile_index_counter(prev.0, rows[r as int], tv, 1);
            }
            let base = match &a_rows[r] {
                Some(b) => Some(b.clone()),
                None => None,
            };
            assert(opt_text(base) == rows[r as int]);
            let terms = [(site.a.ck, k)];
            assert(term_views(terms@) =~= tv);
            let index = match self.emit_tile_index(base, &terms) {
                Some(i) => i,
                None => String::from_str("0"),
            };
            let ghost a = tile_index_upto(prev.0, rows[r as int], tv, 1);
            let ghost u = a.0;
            let ghost a_idx = match a.1 {
                Some(s) => s,
                None => "0"@,
            };
            proof {
                lemma_concat_associative(o, prev.1, a.2);
            }
            let ptr = self.emit_gep(ctx.a_llt.as_str(), ctx.a_ptr.as_str(), index.as_str());
            let ghost p2 = gep_line(tmp_name(u), ctx.a_llt@, ctx.a_ptr@, a_idx);
            proof {
                lemma_concat_associative(o, prev.1 + a.2, p2);
            }
            let value = self.emit_load(ctx.elem_llt.as_str(), ptr.as_str());
            proof {
                lemma_concat_associative(o, prev.1 + a.2 + p2, load_line(tmp_name(u + 1), ctx.elem_llt@, tmp_name(u)));
            }
            values.push(value);
            assert(texts(values@) =~= prev.2.push(tmp_name(u + 1)));
            r += 1;
        }
        values
    }

    /// Every subrow's `a` value from the packed `a` panel:
    /// `apack[koff + r*KC]`.
    #[verifier::spinoff_prover]
    pub fn emit_tile_kc_a_values(&mut self, ctx: &TileCtx, apack: &PackedBuffer, rows: u64, koff: &str) -> (v: Vec<
        String,
    >)
        requires
            old(self).next + 3 * rows <= u32::MAX,
            rows * ctx.tile_kc <= u64::MAX,
        ensures
            ({
                let res = kc_a_values_text(old(self).next as nat, *ctx, *apack, koff@, rows as nat);
                &&& final(self).next == res.0
                &&& final(self).body@ == old(self).body@ + res.1
                &&& texts(v@) == res.2
            }),
            final(self).allocas == old(self).allocas,
            final(self).heap_used == old(self).heap_used,
            final(self).same_setup(*old(self)),
    {
        let ghost t = old(self).next as nat;
        let ghost o = old(self).body@;
        let mut values: Vec<String> = Vec::new();
        let mut r: u64 = 0;
        while r < rows
            invariant
                r <= rows,
                t + 3 * rows <= u32::MAX,
                rows * ctx.tile_kc <= u64::MAX,
                ({
                    let res = kc_a_values_text(t, *ctx, *apack, koff@, r as nat);
                    &&& self.next == res.0
                    &&& self.body@ == o + res.1
                    &&& texts(values@) == res.2
                }),
                self.allocas == old(self).allocas,
                self.heap_used == old(self).heap_used,
                self.same_setup(*old(self)),
            decreases rows - r,
        {
            let ghost prev = kc_a_values_text(t, *ctx, *apack, koff@, r as nat);
            proof {
                lemma_kc_a_values_width(t, *ctx, *apack, koff@, r as nat);
                vstd::arithmetic::mul::lemma_mul_inequality(r as int, rows as int, ctx.tile_kc as int);
            }
            let index = if r == 0 {
                String::from_str(koff)
            } else {
                let off = num::u64_to_string(r * ctx.tile_kc);
                self.emit_op("add", koff, off.as_str())
            };
            let ghost ix: (nat, Seq<char>, Seq<char>) = if r == 0 {
                (prev.0, Seq::empty(), koff@)
            } else {
                (prev.0 + 1, op_line(tmp_name(prev.0), "add"@, koff@, num::dec_nat((r * ctx.tile_kc) as nat)), tmp_name(prev.0))
            };
            assert(self.body@ == o + (prev.1 + ix.1)) by {
                if r == 0 {
                    assert(prev.1 + ix.1 =~= prev.1);
                } else {
                    lemma_concat_associative(o, prev.1, ix.1);
                }
            }
            let ghost u = ix.0;
            let ptr = self.emit_gep(apack.llt.as_str(), apack.ptr.as_str(), index.as_str());
            let ghost p2 = gep_line(tmp_name(u), apack.llt@, apack.ptr@, ix.2);
            proof {
                lemma_concat_associative(o, prev.1 + ix.1, p2);
            }
            let value = self.emit_load(ctx.elem_llt.as_str(), ptr.as_str());
            proof {
                lemma_concat_associative(o, prev.1 + ix.1 + p2, load_line(tmp_name(u + 1), ctx.elem_llt@, tmp_name(u)));
            }
            values.push(value);
            assert(texts(values@) =~= prev.2.push(tmp_name(u + 1)));
            r += 1;
        }
        values
    }

    /// One k step's `a` values at `kk`: from each subrow's row of `a`, or
    /// from the packed panel at `kk - k_lo`.
    #[verifier::spinoff_prover]
    fn emit_a_step(
        &mut self,
        site: &TileSite,
        ctx: &TileCtx,
        a_rows: &[Option<String>],
        apack: Option<(&PackedBuffer, &str)>,
        rows: u64,
        kk: &str,
    ) -> (v: Vec<String>)
        requires
            old(self).next + 1 + 4 * rows <= u32::MAX,
            apack is None ==> rows == a_rows@.len(),
            apack is Some ==> rows * ctx.tile_kc <= u64::MAX,
        ensures
            ({
                let res = a_step_text(old(self).next as nat, *site, *ctx, a_source(a_rows@, apack, rows), kk@);
                &&& final(self).next == res.0
                &&& final(self).body@ == old(self).body@ + res.1
                &&& texts(v@) == res.2
            }),
            v@.len() == rows,
            final(self).allocas == old(self).allocas,
            final(self).heap_used == old(self).heap_used,
            final(self).same_setup(*old(self)),
    {
        let ghost t = old(self).next as nat;
        let ghost o = old(self).body@;
        proof {
            lemma_a_step_width(t, *site, *ctx, a_source(a_rows@, apack, rows), kk@);
        }
        match apack {
            Some((packed, k_lo)) => {
                let koff = self.emit_op("sub", kk, k_lo);
                let v = self.emit_tile_kc_a_values(ctx, packed, rows, koff.as_str());
                proof {
                    lemma_concat_associative(
                        o,
                        op_line(tmp_name(t), "sub"@, kk@, k_lo@),
                        kc_a_values_text(t + 1, *ctx, *packed, tmp_name(t), rows as nat).1,
                    );
                }
                v
            },
            None => self.emit_tile_a_values(site, ctx, a_rows, kk),
        }
    }

    /// Two k steps' `a` values at `kk` and `kk1`.
    #[verifier::spinoff_prover]
    fn emit_a_pair(
        &mut self,
        site: &TileSite,
        ctx: &TileCtx,
        a_rows: &[Option<String>],
        apack: Option<(&PackedBuffer, &str)>,
        rows: u64,
        kk: &str,
        kk1: &str,
    ) -> (v: (Vec<String>, Vec<String>))
        requires
            old(self).next + 2 + 8 * rows <= u32::MAX,
            apack is None ==> rows == a_rows@.len(),
            apack is Some ==> rows * ctx.tile_kc <= u64::MAX,
        ensures
            ({
                let res = a_pair_text(old(self).next as nat, *site, *ctx, a_source(a_rows@, apack, rows), kk@, kk1@);
                &&& final(self).next == res.0
                &&& final(self).body@ == old(self).body@ + res.1
                &&& texts(v.0@) == res.2
                &&& texts(v.1@) == res.3
            }),
            v.0@.len() == rows,
            v.1@.len() == rows,
            final(self).allocas == old(self).allocas,
            final(self).heap_used == old(self).heap_used,
            final(self).same_setup(*old(self)),
    {
        let ghost t = old(self).next as nat;
        let ghost o = old(self).body@;
        proof {
            lemma_a_pair_width(t, *site, *ctx, a_source(a_rows@, apack, rows), kk@, kk1@);
        }
        match apack {
            Some((packed, k_lo)) => {
                let koff0 = self.emit_op("sub", kk, k_lo);
                let ghost p1 = op_line(tmp_name(t), "sub"@, kk@, k_lo@);
                let koff1 = self.emit_op("sub", kk1, k_lo);
                let ghost p2 = op_line(tmp_name(t + 1), "sub"@, kk1@, k_lo@);
                proof {
                    lemma_concat_associative(o, p1, p2);
                    lemma_kc_a_values_width(t + 2, *ctx, *packed, tmp_name(t), rows as nat);
                }
                let a0 = self.emit_tile_kc_a_values(ctx, packed, rows, koff0.as_str());
                let ghost r0 = kc_a_values_text(t + 2, *ctx, *packed, tmp_name(t), rows as nat);
                proof {
                    lemma_concat_associative(o, p1 + p2, r0.1);
                }
                let a1 = self.emit_tile_kc_a_values(ctx, packed, rows, koff1.as_str());
                proof {
                    lemma_concat_associative(o, p1 + p2 + r0.1, kc_a_values_text(r0.0, *ctx, *packed, tmp_name(t + 1), rows as nat).1);
                }
                (a0, a1)
            },
            None => {
                proof {
                    lemma_a_values_width(t, *site, *ctx, opt_texts(a_rows@), kk@, rows as nat);
                }
                let a0 = self.emit_tile_a_values(site, ctx, a_rows, kk);
                let ghost r0 = a_values_text(t, *site, *ctx, opt_texts(a_rows@), kk@, rows as nat);
                let a1 = self.emit_tile_a_values(site, ctx, a_rows, kk1);
                proof {
                    lemma_concat_associative(o, r0.1, a_values_text(r0.0, *site, *ctx, opt_texts(a_rows@), kk1@, rows as nat).1);
                    lemma_a_values_width(r0.0, *site, *ctx, opt_texts(a_rows@), kk1@, rows as nat);
                }
                (a0, a1)
            },
        }
    }

    /// Prefetch the packed panel row two k steps ahead, when the site is
    /// packed and its panel base is hoisted.
    fn emit_opt_prefetch(&mut self, ctx: &TileCtx, panel_base: Option<&str>, kk: &str)
        requires
            old(self).next + 4 <= u32::MAX,
        ensures
            ({
                let res = opt_prefetch(old(self).next as nat, *ctx, opt_str(panel_base), kk@);
                &&& final(self).next == res.0
                &&& final(self).body@ == old(self).body@ + res.1
            }),
            final(self).allocas == old(self).allocas,
            final(self).heap_used == old(self).heap_used,
            final(self).same_setup(*old(self)),
    {
        let ghost t = old(self).next as nat;
        let ghost o = old(self).body@;
        match (&ctx.packed, panel_base) {
            (Some(packed), Some(pb)) => {
                let next_k = self.emit_op("add", kk, "2");
                let ghost p1 = op_line(tmp_name(t), "add"@, kk@, "2"@);
                let tj = num::u64_to_string(ctx.tile_j);
                let next_offset = self.emit_op("mul", next_k.as_str(), tj.as_str());
                let ghost p2 = op_line(tmp_name(t + 1), "mul"@, tmp_name(t), num::dec_nat(ctx.tile_j as nat));
                proof {
                    lemma_concat_associative(o, p1, p2);
                }
                let next_index = self.emit_op("add", pb, next_offset.as_str());
                let ghost p3 = op_line(tmp_name(t + 2), "add"@, pb@, tmp_name(t + 1));
                proof {
                    lemma_concat_associative(o, p1 + p2, p3);
                }
                let next_ptr = self.emit_gep(packed.llt.as_str(), packed.ptr.as_str(), next_index.as_str());
                let ghost p4 = gep_line(tmp_name(t + 3), packed.llt@, packed.ptr@, tmp_name(t + 2));
                proof {
                    lemma_concat_associative(o, p1 + p2 + p3, p4);
                }
                let mut call = String::from_str("call void @llvm.prefetch.p0(ptr ");
                call.append(next_ptr.as_str());
                call.append(", i32 0, i32 3, i32 1)");
                self.line(call.as_str());
                assert(call@ =~= "call void @llvm.prefetch.p0(ptr "@ + tmp_name(t + 3) + ", i32 0, i32 3, i32 1)"@);
                proof {
                    lemma_concat_associative(o, p1 + p2 + p3 + p4, line_text(call@));
                }
            },
            _ => {
                assert(o + Seq::<char>::empty() =~= o);
            },
        }
    }

    /// The paired trip's test: `k+1`, `k+1 < k_hi`, into `body` or out to
    /// `tail_check`; returns `k+1`.
    fn emit_pair_head(&mut self, kk: &str, k_hi: &str, body: &str, tail_check: &str) -> (kk1: String)
        requires
            old(self).next + 2 <= u32::MAX,
        ensures
            kk1@ == tmp_name(old(self).next as nat),
            final(self).next == old(self).next + 2,
            final(self).body@ == old(self).body@ + pair_head_text(old(self).next as nat, kk@, k_hi@, body@, tail_check@),
            final(self).allocas == old(self).allocas,
            final(self).heap_used == old(self).heap_used,
            final(self).same_setup(*old(self)),
    {
        let ghost t = old(self).next as nat;
        let ghost o = old(self).body@;
        let kk1 = self.emit_op("add", kk, "1");
        let ghost p1 = op_line(tmp_name(t), "add"@, kk@, "1"@);
        let pair = self.emit_op("icmp ult", kk1.as_str(), k_hi);
        let ghost p2 = op_line(tmp_name(t + 1), "icmp ult"@, tmp_name(t), k_hi@);
        proof {
            lemma_concat_associative(o, p1, p2);
        }
        self.branch(pair.as_str(), body, tail_check);
        let ghost p3 = branch_line(tmp_name(t + 1), body@, tail_check@);
        proof {
            lemma_concat_associative(o, p1 + p2, p3);
        }
        self.label_line(body);
        proof {
            lemma_concat_associative(o, p1 + p2 + p3, label_text(body@));
        }
        kk1
    }

    /// A k loop's back edge: `k += step`, then to `head`.
    fn emit_k_back(&mut self, ctx: &TileCtx, kk: &str, step: &str, head: &str)
        requires
            old(self).next < u32::MAX,
        ensures
            final(self).next == old(self).next + 1,
            final(self).body@ == old(self).body@ + k_back_text(old(self).next as nat, *ctx, kk@, step@, head@),
            final(self).allocas == old(self).allocas,
            final(self).heap_used == old(self).heap_used,
            final(self).same_setup(*old(self)),
    {
        let ghost t = old(self).next as nat;
        let ghost o = old(self).body@;
        let kk2 = self.emit_op("add", kk, step);
        let ghost p1 = op_line(tmp_name(t), "add"@, kk@, step@);
        self.emit_store("i64", kk2.as_str(), ctx.k_ctr.as_str());
        let ghost p2 = store_line("i64"@, tmp_name(t), ctx.k_ctr@);
        proof {
            lemma_concat_associative(o, p1, p2);
        }
        self.jump(head);
        proof {
            lemma_concat_associative(o, p1 + p2, jump_line(head@));
        }
    }

    /// The lane loop over the two k steps `kk` and `kk1`.
    #[verifier::spinoff_prover]
    fn emit_pair_lane_loop(
        &mut self,
        site: &TileSite,
        ctx: &TileCtx,
        j0: &str,
        b_row: &Option<String>,
        bound: &str,
        panel_base: Option<&str>,
        panel_lane0: Option<&str>,
        acc_base: Option<&str>,
        stride: u64,
        kk: &str,
        kk1: &str,
        a0: Vec<String>,
        a1: Vec<String>,
    )
        requires
            old(self).next + 24 + 6 * a0@.len() + 6 * a1@.len() <= u32::MAX,
            a0@.len() * stride <= u64::MAX,
            a1@.len() * stride <= u64::MAX,
            ctx.packed is Some && panel_base is None ==> site.k * ctx.tile_j <= u64::MAX,
        ensures
            ({
                let res = lane_loop_text(
                    old(self).next as nat,
                    *site,
                    *ctx,
                    shape_of(j0, *b_row, panel_base, panel_lane0, acc_base, stride),
                    bound@,
                    seq![(kk@, texts(a0@)), (kk1@, texts(a1@))],
                );
                &&& final(self).next == res.0
                &&& final(self).body@ == old(self).body@ + res.1
            }),
            final(self).allocas == old(self).allocas,
            final(self).heap_used == old(self).heap_used,
            final(self).same_setup(*old(self)),
    {
        let ghost sv = seq![(kk@, texts(a0@)), (kk1@, texts(a1@))];
        let steps = [(kk, a0), (kk1, a1)];
        assert(steps_view(steps@) =~= sv);
        proof {
            lemma_steps_small(kk@, sv[0].1, kk1@, sv[1].1, stride);
        }
        self.emit_tile_lane_loop(site, ctx, j0, b_row, bound, panel_base, panel_lane0, acc_base, stride, &steps);
    }

    /// The lane loop over the one k step `kk`.
    #[verifier::spinoff_prover]
    fn emit_single_lane_loop(
        &mut self,
        site: &TileSite,
        ctx: &TileCtx,
        j0: &str,
        b_row: &Option<String>,
        bound: &str,
        panel_base: Option<&str>,
        panel_lane0: Option<&str>,
        acc_base: Option<&str>,
        stride: u64,
        kk: &str,
        a: Vec<String>,
    )
        requires
            old(self).next + 15 + 6 * a@.len() <= u32::MAX,
            a@.len() * stride <= u64::MAX,
            ctx.packed is Some && panel_base is None ==> site.k * ctx.tile_j <= u64::MAX,
        ensures
            ({
                let res = lane_loop_text(
                    old(self).next as nat,
                    *site,
                    *ctx,
                    shape_of(j0, *b_row, panel_base, panel_lane0, acc_base, stride),
                    bound@,
                    seq![(kk@, texts(a@))],
                );
                &&& final(self).next == res.0
                &&& final(self).body@ == old(self).body@ + res.1
            }),
            final(self).allocas == old(self).allocas,
            final(self).heap_used == old(self).heap_used,
            final(self).same_setup(*old(self)),
    {
        let ghost sv = seq![(kk@, texts(a@))];
        let steps = [(kk, a)];
        assert(steps_view(steps@) =~= sv);
        proof {
            lemma_steps_small(kk@, sv[0].1, kk@, sv[0].1, stride);
        }
        self.emit_tile_lane_loop(site, ctx, j0, b_row, bound, panel_base, panel_lane0, acc_base, stride, &steps);
    }

    /// The paired trip of an unrolled trio k loop: steps `kk` and `kk+1`
    /// in one lane loop, then `k += 2`; leaves for `tail_check` when `kk+1`
    /// reaches `k_hi`.
    #[verifier::spinoff_prover]
    fn emit_mem_k_pair(
        &mut self,
        site: &TileSite,
        ctx: &TileCtx,
        j0: &str,
        b_row: &Option<String>,
        bound: &str,
        panel_base: Option<&str>,
        panel_lane0: Option<&str>,
        acc_base: Option<&str>,
        stride: u64,
        a_rows: &[Option<String>],
        apack: Option<(&PackedBuffer, &str)>,
        rows: u64,
        k_hi: &str,
        head: &str,
        body: &str,
        tail_check: &str,
        kk: &str,
    )
        requires
            old(self).next + 33 + 20 * rows <= u32::MAX,
            trio_args_ok(*site, *ctx, panel_base, stride, a_rows@, apack, rows),
        ensures
            ({
                let res = mem_k_pair(
                    old(self).next as nat,
                    *site,
                    *ctx,
                    shape_of(j0, *b_row, panel_base, panel_lane0, acc_base, stride),
                    bound@,
                    a_source(a_rows@, apack, rows),
                    k_hi@,
                    head@,
                    body@,
                    tail_check@,
                    kk@,
                );
                &&& final(self).next == res.0
                &&& final(self).body@ == old(self).body@ + res.1
            }),
            final(self).allocas == old(self).allocas,
            final(self).heap_used == old(self).heap_used,
            final(self).same_setup(*old(self)),
    {
        let ghost t = old(self).next as nat;
        let ghost o = old(self).body@;
        let ghost src = a_source(a_rows@, apack, rows);
        let ghost shape = shape_of(j0, *b_row, panel_base, panel_lane0, acc_base, stride);
        let kk1 = self.emit_pair_head(kk, k_hi, body, tail_check);
        let ghost w4 = pair_head_text(t, kk@, k_hi@, body@, tail_check@);
        let (a0, a1) = self.emit_a_pair(site, ctx, a_rows, apack, rows, kk, kk1.as_str());
        let ghost a = a_pair_text(t + 2, *site, *ctx, src, kk@, tmp_name(t));
        proof {
            lemma_concat_associative(o, w4, a.1);
            lemma_a_pair_width(t + 2, *site, *ctx, src, kk@, tmp_name(t));
        }
        let ghost w5 = w4 + a.1;
        self.emit_opt_prefetch(ctx, panel_base, kk);
        let ghost pf = opt_prefetch(a.0, *ctx, opt_str(panel_base), kk@);
        proof {
            lemma_concat_associative(o, w5, pf.1);
        }
        let ghost w6 = w5 + pf.1;
        self.emit_pair_lane_loop(site, ctx, j0, b_row, bound, panel_base, panel_lane0, acc_base, stride, kk, kk1.as_str(), a0, a1);
        let ghost ll = lane_loop_text(pf.0, *site, *ctx, shape, bound@, seq![(kk@, a.2), (tmp_name(t), a.3)]);
        proof {
            lemma_concat_associative(o, w6, ll.1);
            lemma_lane_loop_width(pf.0, *site, *ctx, shape, bound@, seq![(kk@, a.2), (tmp_name(t), a.3)]);
            lemma_steps_small(kk@, a.2, tmp_name(t), a.3, stride);
        }
        self.emit_k_back(ctx, kk, "2", head);
        proof {
            lemma_concat_associative(o, w6 + ll.1, k_back_text(ll.0, *ctx, kk@, "2"@, head@));
            assert(mem_k_pair(t, *site, *ctx, shape, bound@, src, k_hi@, head@, body@, tail_check@, kk@) == (
                ll.0 + 1,
                w6 + ll.1 + k_back_text(ll.0, *ctx, kk@, "2"@, head@),
            )) by {
                reveal(mem_k_pair);
            }
        }
    }

    /// The odd tail of an unrolled trio k loop: one more step while
    /// `kk < k_hi`, then to `done`.
    #[verifier::spinoff_prover]
    fn emit_mem_k_rest(
        &mut self,
        site: &TileSite,
        ctx: &TileCtx,
        j0: &str,
        b_row: &Option<String>,
        bound: &str,
        panel_base: Option<&str>,
        panel_lane0: Option<&str>,
        acc_base: Option<&str>,
        stride: u64,
        a_rows: &[Option<String>],
        apack: Option<(&PackedBuffer, &str)>,
        rows: u64,
        k_hi: &str,
        tail_check: &str,
        tail: &str,
        done: &str,
        kk: &str,
    )
        requires
            old(self).next + 17 + 10 * rows <= u32::MAX,
            trio_args_ok(*site, *ctx, panel_base, stride, a_rows@, apack, rows),
        ensures
            ({
                let res = mem_k_rest(
                    old(self).next as nat,
                    *site,
                    *ctx,
                    shape_of(j0, *b_row, panel_base, panel_lane0, acc_base, stride),
                    bound@,
                    a_source(a_rows@, apack, rows),
                    k_hi@,
                    tail_check@,
                    tail@,
                    done@,
                    kk@,
                );
                &&& final(self).next == res.0
                &&& final(self).body@ == old(self).body@ + res.1
            }),
            final(self).allocas == old(self).allocas,
            final(self).heap_used == old(self).heap_used,
            final(self).same_setup(*old(self)),
    {
        let ghost t = old(self).next as nat;
        let ghost o = old(self).body@;
        let ghost src = a_source(a_rows@, apack, rows);
        let ghost shape = shape_of(j0, *b_row, panel_base, panel_lane0, acc_base, stride);
        self.label_line(tail_check);
        let ghost p1 = label_text(tail_check@);
        let test = self.emit_op("icmp ult", kk, k_hi);
        let ghost p2 = op_line(tmp_name(t), "icmp ult"@, kk@, k_hi@);
        proof {
            lemma_concat_associative(o, p1, p2);
        }
        self.branch(test.as_str(), tail, done);
        let ghost p3 = branch_line(tmp_name(t), tail@, done@);
        proof {
            lemma_concat_associative(o, p1 + p2, p3);
        }
        self.label_line(tail);
        let ghost p4 = label_text(tail@);
        proof {
            lemma_concat_associative(o, p1 + p2 + p3, p4);
        }
        let ghost w4 = p1 + p2 + p3 + p4;
        let a = self.emit_a_step(site, ctx, a_rows, apack, rows, kk);
        let ghost av = a_step_text(t + 1, *site, *ctx, src, kk@);
        proof {
            lemma_concat_associative(o, w4, av.1);
            lemma_a_step_width(t + 1, *site, *ctx, src, kk@);
        }
        let ghost w5 = w4 + av.1;
        self.emit_single_lane_loop(site, ctx, j0, b_row, bound, panel_base, panel_lane0, acc_base, stride, kk, a);
        let ghost ll = lane_loop_text(av.0, *site, *ctx, shape, bound@, seq![(kk@, av.2)]);
        proof {
            lemma_concat_associative(o, w5, ll.1);
        }
        self.jump(done);
        proof {
            lemma_concat_associative(o, w5 + ll.1, jump_line(done@));
            assert(mem_k_rest(t, *site, *ctx, shape, bound@, src, k_hi@, tail_check@, tail@, done@, kk@) == (
                ll.0,
                w5 + ll.1 + jump_line(done@),
            )) by {
                reveal(mem_k_rest);
            }
        }
    }

    /// The one-step trip of a trio k loop: leave for `done` once `kk`
    /// reaches `k_hi`, else one step and `k += 1`.
    #[verifier::spinoff_prover]
    fn emit_mem_k_single(
        &mut self,
        site: &TileSite,
        ctx: &TileCtx,
        j0: &str,
        b_row: &Option<String>,
        bound: &str,
        panel_base: Option<&str>,
        panel_lane0: Option<&str>,
        acc_base: Option<&str>,
        stride: u64,
        a_rows: &[Option<String>],
        apack: Option<(&PackedBuffer, &str)>,
        rows: u64,
        k_hi: &str,
        head: &str,
        body: &str,
        done: &str,
        kk: &str,
    )
        requires
            old(self).next + 18 + 10 * rows <= u32::MAX,
            trio_args_ok(*site, *ctx, panel_base, stride, a_rows@, apack, rows),
        ensures
            ({
                let res = mem_k_single(
                    old(self).next as nat,
                    *site,
                    *ctx,
                    shape_of(j0, *b_row, panel_base, panel_lane0, acc_base, stride),
                    bound@,
                    a_source(a_rows@, apack, rows),
                    k_hi@,
                    head@,
                    body@,
                    done@,
                    kk@,
                );
                &&& final(self).next == res.0
                &&& final(self).body@ == old(self).body@ + res.1
            }),
            final(self).allocas == old(self).allocas,
            final(self).heap_used == old(self).heap_used,
            final(self).same_setup(*old(self)),
    {
        let ghost t = old(self).next as nat;
        let ghost o = old(self).body@;
        let ghost src = a_source(a_rows@, apack, rows);
        let ghost shape = shape_of(j0, *b_row, panel_base, panel_lane0, acc_base, stride);
        let test = self.emit_op("icmp uge", kk, k_hi);
        let ghost p1 = op_line(tmp_name(t), "icmp uge"@, kk@, k_hi@);
        self.branch(test.as_str(), done, body);
        let ghost p2 = branch_line(tmp_name(t), done@, body@);
        proof {
            lemma_concat_associative(o, p1, p2);
        }
        self.label_line(body);
        let ghost p3 = label_text(body@);
        proof {
            lemma_concat_associative(o, p1 + p2, p3);
        }
        let ghost w3 = p1 + p2 + p3;
        let a = self.emit_a_step(site, ctx, a_rows, apack, rows, kk);
        let ghost av = a_step_text(t + 1, *site, *ctx, src, kk@);
        proof {
            lemma_concat_associative(o, w3, av.1);
            lemma_a_step_width(t + 1, *site, *ctx, src, kk@);
        }
        let ghost w4 = w3 + av.1;
        self.emit_single_lane_loop(site, ctx, j0, b_row, bound, panel_base, panel_lane0, acc_base, stride, kk, a);
        let ghost ll = lane_loop_text(av.0, *site, *ctx, shape, bound@, seq![(kk@, av.2)]);
        proof {
            lemma_concat_associative(o, w4, ll.1);
            lemma_lane_loop_width(av.0, *site, *ctx, shape, bound@, seq![(kk@, av.2)]);
            lemma_steps_small(kk@, av.2, kk@, av.2, stride);
        }
        self.emit_loop_tail(ctx.k_ctr.as_str(), kk, head, done);
        proof {
            lemma_concat_associative(o, w4 + ll.1, latch_text(tmp_name(ll.0), kk@, ctx.k_ctr@, head@, done@));
            assert(mem_k_single(t, *site, *ctx, shape, bound@, src, k_hi@, head@, body@, done@, kk@) == (
                ll.0 + 1,
                w4 + ll.1 + latch_text(tmp_name(ll.0), kk@, ctx.k_ctr@, head@, done@),
            )) by {
                reveal(mem_k_single);
            }
        }
    }

    /// A trio's k loop over `[k_lo, k_hi)`: x2-unrolled with an odd-step
    /// tail when `unroll`, else one step per trip.
    #[verifier::spinoff_prover]
    fn emit_mem_k_loop(
        &mut self,
        site: &TileSite,
        ctx: &TileCtx,
        j0: &str,
        b_row: &Option<String>,
        bound: &str,
        panel_base: Option<&str>,
        panel_lane0: Option<&str>,
        acc_base: Option<&str>,
        stride: u64,
        a_rows: &[Option<String>],
        apack: Option<(&PackedBuffer, &str)>,
        rows: u64,
        k_lo: &str,
        k_hi: &str,
        unroll: bool,
    )
        requires
            old(self).next + 56 + 30 * rows <= u32::MAX,
            trio_args_ok(*site, *ctx, panel_base, stride, a_rows@, apack, rows),
        ensures
            ({
                let res = mem_k_loop(
                    old(self).next as nat,
                    *site,
                    *ctx,
                    shape_of(j0, *b_row, panel_base, panel_lane0, acc_base, stride),
                    bound@,
                    a_source(a_rows@, apack, rows),
                    k_lo@,
                    k_hi@,
                    unroll,
                );
                &&& final(self).next == res.0
                &&& final(self).body@ == old(self).body@ + res.1
            }),
            final(self).allocas == old(self).allocas,
            final(self).heap_used == old(self).heap_used,
            final(self).same_setup(*old(self)),
    {
        let ghost t = old(self).next as nat;
        let ghost o = old(self).body@;
        let ghost src = a_source(a_rows@, apack, rows);
        let ghost shape = shape_of(j0, *b_row, panel_base, panel_lane0, acc_base, stride);
        assert(src_rows(src) == rows);
        let (head, body, done, kk) = self.emit_k_open(ctx, k_lo);
        let ghost w0 = k_open_text(t, *ctx, k_lo@);
        let ghost kkv = tmp_name(t + 3);
        if unroll {
            let tail_check = self.label();
            let tail = self.label();
            proof {
                lemma_mem_k_width(t + 6, *site, *ctx, shape, bound@, src, k_hi@, label_name(t), label_name(t + 1), label_name(t + 4), kkv);
            }
            self.emit_mem_k_pair(
                site, ctx, j0, b_row, bound, panel_base, panel_lane0, acc_base, stride, a_rows, apack, rows, k_hi,
                head.as_str(), body.as_str(), tail_check.as_str(), kk.as_str(),
            );
            let ghost main = mem_k_pair(t + 6, *site, *ctx, shape, bound@, src, k_hi@, label_name(t), label_name(t + 1), label_name(t + 4), kkv);
            proof {
                lemma_concat_associative(o, w0, main.1);
                lemma_mem_k_width(main.0, *site, *ctx, shape, bound@, src, k_hi@, label_name(t + 4), label_name(t + 5), label_name(t + 2), kkv);
            }
            self.emit_mem_k_rest(
                site, ctx, j0, b_row, bound, panel_base, panel_lane0, acc_base, stride, a_rows, apack, rows, k_hi,
                tail_check.as_str(), tail.as_str(), done.as_str(), kk.as_str(),
            );
            let ghost rest = mem_k_rest(main.0, *site, *ctx, shape, bound@, src, k_hi@, label_name(t + 4), label_name(t + 5), label_name(t + 2), kkv);
            proof {
                lemma_concat_associative(o, w0 + main.1, rest.1);
            }
            self.label_line(done.as_str());
            proof {
                lemma_concat_associative(o, w0 + main.1 + rest.1, label_text(label_name(t + 2)));
                reveal(mem_k_loop);
            }
        } else {
            proof {
                lemma_mem_k_width(t + 4, *site, *ctx, shape, bound@, src, k_hi@, label_name(t), label_name(t + 1), label_name(t + 2), kkv);
            }
            self.emit_mem_k_single(
                site, ctx, j0, b_row, bound, panel_base, panel_lane0, acc_base, stride, a_rows, apack, rows, k_hi,
                head.as_str(), body.as_str(), done.as_str(), kk.as_str(),
            );
            proof {
                lemma_concat_associative(o, w0, mem_k_single(t + 4, *site, *ctx, shape, bound@, src, k_hi@, label_name(t), label_name(t + 1), label_name(t + 2), kkv).1);
                reveal(mem_k_loop);
            }
        }
    }

    /// The memory-form trio for one j-tile: seed, k loop, store.
    #[verifier::spinoff_prover]
    fn emit_tile_trio_mem(
        &mut self,
        site: &TileSite,
        ctx: &TileCtx,
        j0: &str,
        row0: &str,
        a_rows: &[Option<String>],
        b_row: &Option<String>,
        bound: &str,
        main: bool,
        panel_base: Option<&str>,
        panel_lane0: Option<&str>,
    )
        requires
            old(self).next + 60 + 50 * a_rows@.len() <= u32::MAX,
            a_rows@.len() * ctx.tile_j <= u64::MAX,
            a_rows@.len() * site.c <= u64::MAX,
            ctx.packed is Some && panel_base is None ==> site.k * ctx.tile_j <= u64::MAX,
        ensures
            ({
                let res = trio_mem_text(
                    old(self).next as nat,
                    *site,
                    *ctx,
                    j0@,
                    row0@,
                    opt_texts(a_rows@),
                    opt_text(*b_row),
                    bound@,
                    main,
                    opt_str(panel_base),
                    opt_str(panel_lane0),
                );
                &&& final(self).next == res.0
                &&& final(self).body@ == old(self).body@ + res.1
            }),
            final(self).allocas == old(self).allocas,
            final(self).heap_used == old(self).heap_used,
            final(self).same_setup(*old(self)),
    {
        let ghost t = old(self).next as nat;
        let ghost o = old(self).body@;
        let rows = a_rows.len() as u64;
        let ghost shape = shape_of(j0, *b_row, panel_base, panel_lane0, None, ctx.tile_j);
        let ghost src = a_source(a_rows@, None, rows);
        proof {
            lemma_seed_rows_width(t, *ctx, bound@, rows as nat);
        }
        self.emit_seed_rows(ctx, bound, rows);
        let ghost seeds = seed_rows(t, *ctx, bound@, rows as nat);
        let k_hi = num::u64_to_string(site.k);
        let unroll = main && rows == ctx.tile_i;
        proof {
            lemma_mem_k_loop_width(seeds.0, *site, *ctx, shape, bound@, src, "0"@, num::dec_nat(site.k as nat), unroll);
        }
        self.emit_mem_k_loop(
            site, ctx, j0, b_row, bound, panel_base, panel_lane0, None, ctx.tile_j, a_rows, None, rows, "0",
            k_hi.as_str(), unroll,
        );
        let ghost kl = mem_k_loop(seeds.0, *site, *ctx, shape, bound@, src, "0"@, num::dec_nat(site.k as nat), unroll);
        proof {
            lemma_concat_associative(o, seeds.1, kl.1);
        }
        let out_start = self.emit_op("add", row0, j0);
        let ghost p3 = op_line(tmp_name(kl.0), "add"@, row0@, j0@);
        proof {
            lemma_concat_associative(o, seeds.1 + kl.1, p3);
            lemma_store_rows_width(kl.0 + 1, *ctx, tmp_name(kl.0), site.c, bound@, rows as nat);
        }
        self.emit_store_rows(ctx, out_start.as_str(), site.c, bound, rows);
        let ghost st = store_rows(kl.0 + 1, *ctx, tmp_name(kl.0), site.c, bound@, rows as nat);
        proof {
            lemma_concat_associative(o, seeds.1 + kl.1 + p3, st.1);
            assert(shape == LaneShape { j0: j0@, b_row: opt_text(*b_row), panel_base: opt_str(panel_base), panel_lane0: opt_str(panel_lane0), acc_base: None, stride: ctx.tile_j });
            assert(src == ASource::Rows(opt_texts(a_rows@)));
            reveal(trio_mem_text);
        }
    }

    /// Subrow `r`'s run start in `out`: `out_start`, shifted by `r*C`
    /// when `shift` is on and `r > 0`.
    fn emit_row_start(&mut self, site: &TileSite, out_start: &str, r: u64, shift: bool) -> (v: String)
        requires
            old(self).next < u32::MAX,
            r * site.c <= u64::MAX,
        ensures
            ({
                let res = row_start(old(self).next as nat, *site, out_start@, r as nat, shift);
                &&& final(self).next == res.0
                &&& final(self).body@ == old(self).body@ + res.1
                &&& v@ == res.2
            }),
            final(self).allocas == old(self).allocas,
            final(self).heap_used == old(self).heap_used,
            final(self).same_setup(*old(self)),
    {
        if !shift || r == 0 {
            assert(old(self).body@ + Seq::<char>::empty() =~= old(self).body@);
            String::from_str(out_start)
        } else {
            let rc = num::u64_to_string(r * site.c);
            self.emit_op("add", out_start, rc.as_str())
        }
    }

    /// The address of the KC accumulator lane `acc_base + r*TJ + lane`.
    fn emit_kc_acc_ptr(&mut self, ctx: &TileCtx, lane: &str, acc_base: &str, r: u64) -> (v: String)
        requires
            old(self).next + 3 <= u32::MAX,
            r * ctx.tile_j <= u64::MAX,
        ensures
            ({
                let res = kc_acc_ptr(old(self).next as nat, *ctx, lane@, acc_base@, r as nat);
                &&& final(self).next == res.0
                &&& final(self).body@ == old(self).body@ + res.1
                &&& v@ == res.2
            }),
            final(self).allocas == old(self).allocas,
            final(self).heap_used == old(self).heap_used,
            final(self).same_setup(*old(self)),
    {
        let ghost t = old(self).next as nat;
        let ghost o = old(self).body@;
        let acc_lane = self.emit_tile_kc_acc_lane(lane, acc_base, r, ctx.tile_j);
        let ghost acc = acc_lane_text(t, lane@, Some(acc_base@), r as nat, ctx.tile_j);
        let ptr = self.emit_gep(ctx.acc_llt.as_str(), ctx.acc.as_str(), acc_lane.as_str());
        proof {
            lemma_concat_associative(o, acc.1, gep_line(tmp_name(acc.0), ctx.acc_llt@, ctx.acc@, acc.2));
        }
        ptr
    }

    /// Reload one lane's partial sum from `out[start + lane]` into `acc_ptr`.
    fn emit_kc_reload(&mut self, ctx: &TileCtx, start: &str, lane: &str, acc_ptr: &str)
        requires
            old(self).next + 3 <= u32::MAX,
        ensures
            final(self).next == old(self).next + 3,
            final(self).body@ == old(self).body@ + reload_text(old(self).next as nat, *ctx, start@, lane@, acc_ptr@),
            final(self).allocas == old(self).allocas,
            final(self).heap_used == old(self).heap_used,
            final(self).same_setup(*old(self)),
    {
        let ghost w = old(self).next as nat;
        let ghost o = old(self).body@;
        let elem = ctx.elem_llt.as_str();
        let out_index = self.emit_op("add", start, lane);
        let ghost q1 = op_line(tmp_name(w), "add"@, start@, lane@);
        let out_ptr = self.emit_gep(ctx.out_llt.as_str(), ctx.out_ptr.as_str(), out_index.as_str());
        let ghost q2 = gep_line(tmp_name(w + 1), ctx.out_llt@, ctx.out_ptr@, tmp_name(w));
        proof {
            lemma_concat_associative(o, q1, q2);
        }
        let spilled = self.emit_load(elem, out_ptr.as_str());
        let ghost q3 = load_line(tmp_name(w + 2), ctx.elem_llt@, tmp_name(w + 1));
        proof {
            lemma_concat_associative(o, q1 + q2, q3);
        }
        self.emit_store(elem, spilled.as_str(), acc_ptr);
        proof {
            lemma_concat_associative(o, q1 + q2 + q3, store_line(ctx.elem_llt@, tmp_name(w + 2), acc_ptr@));
        }
    }

    /// Spill one lane's sum at `acc_ptr` to `out[start + lane]`.
    fn emit_kc_spill_lane(&mut self, ctx: &TileCtx, start: &str, lane: &str, acc_ptr: &str)
        requires
            old(self).next + 3 <= u32::MAX,
        ensures
            final(self).next == old(self).next + 3,
            final(self).body@ == old(self).body@ + spill_lane_text(old(self).next as nat, *ctx, start@, lane@, acc_ptr@),
            final(self).allocas == old(self).allocas,
            final(self).heap_used == old(self).heap_used,
            final(self).same_setup(*old(self)),
    {
        let ghost w = old(self).next as nat;
        let ghost o = old(self).body@;
        let elem = ctx.elem_llt.as_str();
        let value = self.emit_load(elem, acc_ptr);
        let ghost q1 = load_line(tmp_name(w), ctx.elem_llt@, acc_ptr@);
        let out_index = self.emit_op("add", start, lane);
        let ghost q2 = op_line(tmp_name(w + 1), "add"@, start@, lane@);
        proof {
            lemma_concat_associative(o, q1, q2);
        }
        let out_ptr = self.emit_gep(ctx.out_llt.as_str(), ctx.out_ptr.as_str(), out_index.as_str());
        let ghost q3 = gep_line(tmp_name(w + 2), ctx.out_llt@, ctx.out_ptr@, tmp_name(w + 1));
        proof {
            lemma_concat_associative(o, q1 + q2, q3);
        }
        self.emit_store(elem, value.as_str(), out_ptr.as_str());
        proof {
            lemma_concat_associative(o, q1 + q2 + q3, store_line(ctx.elem_llt@, tmp_name(w), tmp_name(w + 2)));
        }
    }

    /// Seed (the first panel) or reload subrow `r`'s accumulator lanes.
    #[verifier::spinoff_prover]
    fn emit_kc_seed_row(
        &mut self,
        site: &TileSite,
        ctx: &TileCtx,
        out_start: &str,
        acc_base: &str,
        bound: &str,
        first: bool,
        r: u64,
    )
        requires
            old(self).next + 13 <= u32::MAX,
            r * ctx.tile_j <= u64::MAX,
            r * site.c <= u64::MAX,
        ensures
            ({
                let res = kc_seed_row(old(self).next as nat, *site, *ctx, out_start@, acc_base@, bound@, first, r as nat);
                &&& final(self).next == res.0
                &&& final(self).body@ == old(self).body@ + res.1
            }),
            final(self).allocas == old(self).allocas,
            final(self).heap_used == old(self).heap_used,
            final(self).same_setup(*old(self)),
    {
        let ghost t = old(self).next as nat;
        let ghost o = old(self).body@;
        let start = self.emit_row_start(site, out_start, r, !first);
        let ghost sh = row_start(t, *site, out_start@, r as nat, !first);
        let ghost h = sh.0;
        let (head, done, lane) = self.emit_lane_head(ctx.lane_ctr.as_str(), bound);
        let ghost p2 = lane_head_text(h, ctx.lane_ctr@, bound@);
        proof {
            lemma_concat_associative(o, sh.1, p2);
        }
        let acc_ptr = self.emit_kc_acc_ptr(ctx, lane.as_str(), acc_base, r);
        let ghost ap = kc_acc_ptr(h + 5, *ctx, tmp_name(h + 3), acc_base@, r as nat);
        proof {
            lemma_concat_associative(o, sh.1 + p2, ap.1);
        }
        let ghost w3 = sh.1 + p2 + ap.1;
        let ghost fill: (nat, Seq<char>) = if first {
            (ap.0, store_line(ctx.elem_llt@, ctx.seed@, ap.2))
        } else {
            (ap.0 + 3, reload_text(ap.0, *ctx, sh.2, tmp_name(h + 3), ap.2))
        };
        if first {
            self.emit_store(ctx.elem_llt.as_str(), ctx.seed.as_str(), acc_ptr.as_str());
        } else {
            self.emit_kc_reload(ctx, start.as_str(), lane.as_str(), acc_ptr.as_str());
        }
        proof {
            lemma_concat_associative(o, w3, fill.1);
        }
        self.emit_loop_tail(ctx.lane_ctr.as_str(), lane.as_str(), head.as_str(), done.as_str());
        proof {
            lemma_concat_associative(o, w3 + fill.1, lane_tail_text(h, fill.0, ctx.lane_ctr@));
        }
    }

    /// Spill subrow `r`'s accumulator lanes to `out[out_start + r*C + lane]`.
    #[verifier::spinoff_prover]
    fn emit_kc_spill_row(&mut self, site: &TileSite, ctx: &TileCtx, out_start: &str, acc_base: &str, bound: &str, r: u64)
        requires
            old(self).next + 13 <= u32::MAX,
            r * ctx.tile_j <= u64::MAX,
            r * site.c <= u64::MAX,
        ensures
            ({
                let res = kc_spill_row(old(self).next as nat, *site, *ctx, out_start@, acc_base@, bound@, r as nat);
                &&& final(self).next == res.0
                &&& final(self).body@ == old(self).body@ + res.1
            }),
            final(self).allocas == old(self).allocas,
            final(self).heap_used == old(self).heap_used,
            final(self).same_setup(*old(self)),
    {
        let ghost t = old(self).next as nat;
        let ghost o = old(self).body@;
        let start = self.emit_row_start(site, out_start, r, true);
        let ghost sh = row_start(t, *site, out_start@, r as nat, true);
        let ghost h = sh.0;
        let (head, done, lane) = self.emit_lane_head(ctx.lane_ctr.as_str(), bound);
        let ghost p2 = lane_head_text(h, ctx.lane_ctr@, bound@);
        proof {
            lemma_concat_associative(o, sh.1, p2);
        }
        let acc_ptr = self.emit_kc_acc_ptr(ctx, lane.as_str(), acc_base, r);
        let ghost ap = kc_acc_ptr(h + 5, *ctx, tmp_name(h + 3), acc_base@, r as nat);
        proof {
            lemma_concat_associative(o, sh.1 + p2, ap.1);
        }
        let ghost w3 = sh.1 + p2 + ap.1;
        self.emit_kc_spill_lane(ctx, start.as_str(), lane.as_str(), acc_ptr.as_str());
        let ghost q = spill_lane_text(ap.0, *ctx, sh.2, tmp_name(h + 3), ap.2);
        proof {
            lemma_concat_associative(o, w3, q);
        }
        self.emit_loop_tail(ctx.lane_ctr.as_str(), lane.as_str(), head.as_str(), done.as_str());
        proof {
            lemma_concat_associative(o, w3 + q, lane_tail_text(h, ap.0 + 3, ctx.lane_ctr@));
        }
    }

    /// Seed (the first panel) or reload subrows `0..rows`.
    fn emit_kc_seed_rows(
        &mut self,
        site: &TileSite,
        ctx: &TileCtx,
        out_start: &str,
        acc_base: &str,
        bound: &str,
        first: bool,
        rows: u64,
    )
        requires
            old(self).next + 13 * rows <= u32::MAX,
            rows * ctx.tile_j <= u64::MAX,
            rows * site.c <= u64::MAX,
        ensures
            ({
                let res = kc_seed_rows(old(self).next as nat, *site, *ctx, out_start@, acc_base@, bound@, first, rows as nat);
                &&& final(self).next == res.0
                &&& final(self).body@ == old(self).body@ + res.1
            }),
            final(self).allocas == old(self).allocas,
            final(self).heap_used == old(self).heap_used,
            final(self).same_setup(*old(self)),
    {
        let ghost t = old(self).next as nat;
        let mut r: u64 = 0;
        while r < rows
            invariant
                r <= rows,
                t == old(self).next,
                t + 13 * rows <= u32::MAX,
                rows * ctx.tile_j <= u64::MAX,
                rows * site.c <= u64::MAX,
                ({
                    let res = kc_seed_rows(t, *site, *ctx, out_start@, acc_base@, bound@, first, r as nat);
                    &&& self.next == res.0
                    &&& self.body@ == old(self).body@ + res.1
                }),
                self.allocas == old(self).allocas,
                self.heap_used == old(self).heap_used,
                self.same_setup(*old(self)),
            decreases rows - r,
        {
            proof {
                lemma_kc_rows_width(t, *site, *ctx, out_start@, acc_base@, bound@, first, r as nat);
                vstd::arithmetic::mul::lemma_mul_inequality(r as int, rows as int, ctx.tile_j as int);
                vstd::arithmetic::mul::lemma_mul_inequality(r as int, rows as int, site.c as int);
            }
            self.emit_kc_seed_row(site, ctx, out_start, acc_base, bound, first, r);
            proof {
                let prev = kc_seed_rows(t, *site, *ctx, out_start@, acc_base@, bound@, first, r as nat);
                lemma_concat_associative(
                    old(self).body@,
                    prev.1,
                    kc_seed_row(prev.0, *site, *ctx, out_start@, acc_base@, bound@, first, r as nat).1,
                );
            }
            r += 1;
        }
    }

    /// Spill subrows `0..rows` back to `out`.
    fn emit_kc_spill_rows(&mut self, site: &TileSite, ctx: &TileCtx, out_start: &str, acc_base: &str, bound: &str, rows: u64)
        requires
            old(self).next + 13 * rows <= u32::MAX,
            rows * ctx.tile_j <= u64::MAX,
            rows * site.c <= u64::MAX,
        ensures
            ({
                let res = kc_spill_rows(old(self).next as nat, *site, *ctx, out_start@, acc_base@, bound@, rows as nat);
                &&& final(self).next == res.0
                &&& final(self).body@ == old(self).body@ + res.1
            }),
            final(self).allocas == old(self).allocas,
            final(self).heap_used == old(self).heap_used,
            final(self).same_setup(*old(self)),
    {
        let ghost t = old(self).next as nat;
        let mut r: u64 = 0;
        while r < rows
            invariant
                r <= rows,
                t == old(self).next,
                t + 13 * rows <= u32::MAX,
                rows * ctx.tile_j <= u64::MAX,
                rows * site.c <= u64::MAX,
                ({
                    let res = kc_spill_rows(t, *site, *ctx, out_start@, acc_base@, bound@, r as nat);
                    &&& self.next == res.0
                    &&& self.body@ == old(self).body@ + res.1
                }),
                self.allocas == old(self).allocas,
                self.heap_used == old(self).heap_used,
                self.same_setup(*old(self)),
            decreases rows - r,
        {
            proof {
                lemma_kc_rows_width(t, *site, *ctx, out_start@, acc_base@, bound@, false, r as nat);
                vstd::arithmetic::mul::lemma_mul_inequality(r as int, rows as int, ctx.tile_j as int);
                vstd::arithmetic::mul::lemma_mul_inequality(r as int, rows as int, site.c as int);
            }
            self.emit_kc_spill_row(site, ctx, out_start, acc_base, bound, r);
            proof {
                let prev = kc_spill_rows(t, *site, *ctx, out_start@, acc_base@, bound@, r as nat);
                lemma_concat_associative(
                    old(self).body@,
                    prev.1,
                    kc_spill_row(prev.0, *site, *ctx, out_start@, acc_base@, bound@, r as nat).1,
                );
            }
            r += 1;
        }
    }

    /// The memory-form KC trio for one j-tile at one kc panel: seed or
    /// reload, the panel's k loop, spill.
    #[verifier::spinoff_prover]
    fn emit_tile_kc_trio_mem(
        &mut self,
        site: &TileSite,
        ctx: &TileCtx,
        apack: &PackedBuffer,
        j0: &str,
        acc_base: &str,
        row0: &str,
        rows: u64,
        bound: &str,
        main: bool,
        panel_base: &str,
        panel_lane0: Option<&str>,
        k_lo: &str,
        k_hi: &str,
        first: bool,
    )
        requires
            old(self).next + 60 + 60 * rows <= u32::MAX,
            rows * ctx.tile_j <= u64::MAX,
            rows * site.c <= u64::MAX,
            rows * ctx.tile_kc <= u64::MAX,
        ensures
            ({
                let res = kc_trio_mem_text(
                    old(self).next as nat,
                    *site,
                    *ctx,
                    *apack,
                    j0@,
                    acc_base@,
                    row0@,
                    rows as nat,
                    bound@,
                    main,
                    panel_base@,
                    opt_str(panel_lane0),
                    k_lo@,
                    k_hi@,
                    first,
                );
                &&& final(self).next == res.0
                &&& final(self).body@ == old(self).body@ + res.1
            }),
            final(self).allocas == old(self).allocas,
            final(self).heap_used == old(self).heap_used,
            final(self).same_setup(*old(self)),
    {
        let ghost t = old(self).next as nat;
        let ghost o = old(self).body@;
        let no_b_row: Option<String> = None;
        let no_rows: [Option<String>; 0] = [];
        let ghost shape = shape_of(j0, no_b_row, Some(panel_base), panel_lane0, Some(acc_base), ctx.tile_j);
        let ghost src = a_source(no_rows@, Some((apack, k_lo)), rows);
        let out_start = self.emit_op("add", row0, j0);
        let ghost p1 = op_line(tmp_name(t), "add"@, row0@, j0@);
        proof {
            lemma_kc_rows_width(t + 1, *site, *ctx, tmp_name(t), acc_base@, bound@, first, rows as nat);
        }
        self.emit_kc_seed_rows(site, ctx, out_start.as_str(), acc_base, bound, first, rows);
        let ghost seeds = kc_seed_rows(t + 1, *site, *ctx, tmp_name(t), acc_base@, bound@, first, rows as nat);
        proof {
            lemma_concat_associative(o, p1, seeds.1);
        }
        let unroll = main && rows == ctx.tile_i;
        proof {
            lemma_mem_k_loop_width(seeds.0, *site, *ctx, shape, bound@, src, k_lo@, k_hi@, unroll);
        }
        self.emit_mem_k_loop(
            site, ctx, j0, &no_b_row, bound, Some(panel_base), panel_lane0, Some(acc_base), ctx.tile_j, &no_rows,
            Some((apack, k_lo)), rows, k_lo, k_hi, unroll,
        );
        let ghost kl = mem_k_loop(seeds.0, *site, *ctx, shape, bound@, src, k_lo@, k_hi@, unroll);
        proof {
            lemma_concat_associative(o, p1 + seeds.1, kl.1);
            lemma_kc_rows_width(kl.0, *site, *ctx, tmp_name(t), acc_base@, bound@, first, rows as nat);
        }
        self.emit_kc_spill_rows(site, ctx, out_start.as_str(), acc_base, bound, rows);
        proof {
            lemma_concat_associative(o, p1 + seeds.1 + kl.1, kc_spill_rows(kl.0, *site, *ctx, tmp_name(t), acc_base@, bound@, rows as nat).1);
            assert(shape == LaneShape {
                j0: j0@,
                b_row: None,
                panel_base: Some(panel_base@),
                panel_lane0: opt_str(panel_lane0),
                acc_base: Some(acc_base@),
                stride: ctx.tile_j,
            });
            assert(src == ASource::Panel(*apack, k_lo@, rows as nat));
            reveal(kc_trio_mem_text);
        }
    }

    /// A k step's `b` operand as one `<TJ x elem>` load at the element's
    /// alignment: the packed panel row `panel_base + k*TJ`, or
    /// `b[b_row + b.ck*k + j0]`.
    #[verifier::spinoff_prover]
    pub fn emit_tile_b_vector(
        &mut self,
        site: &TileSite,
        ctx: &TileCtx,
        j0: &str,
        b_row: &Option<String>,
        k: &str,
        panel_base: Option<&str>,
    ) -> (v: String)
        requires
            old(self).next + 6 <= u32::MAX,
            ctx.packed is Some ==> panel_base is Some,
            align_ok(ctx.elem_llt@),
        ensures
            ({
                let res = b_vector_text(old(self).next as nat, *site, *ctx, j0@, opt_text(*b_row), k@, opt_str(panel_base));
                &&& final(self).next == res.0
                &&& final(self).body@ == old(self).body@ + res.1
                &&& v@ == res.2
            }),
            final(self).allocas == old(self).allocas,
            final(self).heap_used == old(self).heap_used,
            final(self).same_setup(*old(self)),
    {
        let ghost t = old(self).next as nat;
        let ghost o = old(self).body@;
        proof {
            lemma_b_vector_width(t, *site, *ctx, j0@, opt_text(*b_row), k@, opt_str(panel_base));
        }
        let index = match (&ctx.packed, panel_base) {
            (Some(_), Some(pb)) => {
                let tj = num::u64_to_string(ctx.tile_j);
                let k_offset = self.emit_op("mul", k, tj.as_str());
                let row = self.emit_op("add", pb, k_offset.as_str());
                proof {
                    lemma_concat_associative(
                        o,
                        op_line(tmp_name(t), "mul"@, k@, num::dec_nat(ctx.tile_j as nat)),
                        op_line(tmp_name(t + 1), "add"@, pb@, tmp_name(t)),
                    );
                }
                row
            },
            _ => {
                let base = match b_row {
                    Some(b) => Some(b.clone()),
                    None => None,
                };
                let terms = [(site.b.ck, k), (1u64, j0)];
                assert(term_views(terms@) =~= seq![(site.b.ck, k@), (1u64, j0@)]);
                self.emit_tile_index(base, &terms).expect("tile b has lane term")
            },
        };
        let ghost ix: (nat, Seq<char>, Seq<char>, Seq<char>, Seq<char>) = match ctx.packed {
            Some(_) => (
                t + 2,
                op_line(tmp_name(t), "mul"@, k@, num::dec_nat(ctx.tile_j as nat)) + op_line(
                    tmp_name(t + 1),
                    "add"@,
                    opt_str(panel_base).unwrap(),
                    tmp_name(t),
                ),
                ctx.packed.unwrap().llt@,
                ctx.packed.unwrap().ptr@,
                tmp_name(t + 1),
            ),
            None => {
                let st = tile_index_upto(t, opt_text(*b_row), seq![(site.b.ck, k@), (1u64, j0@)], 2);
                (st.0, st.2, ctx.b_llt@, ctx.b_ptr@, st.1.unwrap())
            },
        };
        let ptr = match &ctx.packed {
            Some(packed) => self.emit_gep(packed.llt.as_str(), packed.ptr.as_str(), index.as_str()),
            None => self.emit_gep(ctx.b_llt.as_str(), ctx.b_ptr.as_str(), index.as_str()),
        };
        let ghost p2 = gep_line(tmp_name(ix.0), ix.2, ix.3, ix.4);
        proof {
            lemma_concat_associative(o, ix.1, p2);
        }
        let vllt = crate::emit::tile_vec_llt(ctx);
        let align = crate::llt::llt_align(ctx.elem_llt.as_str());
        let value = self.emit_aligned_load(vllt.as_str(), ptr.as_str(), align);
        proof {
            assert(vllt@ =~= vec_text(ctx.elem_llt@, ctx.tile_j));
            lemma_concat_associative(
                o,
                ix.1 + p2,
                aligned_load_line(tmp_name(ix.0 + 1), vllt@, tmp_name(ix.0), align as nat),
            );
        }
        value
    }

    /// `<name> = <instr> <ty> <x>, <y>` onto a pre-minted name.
    fn emit_bin_named(&mut self, name: &str, instr: &str, ty: &str, x: &str, y: &str)
        ensures
            final(self).body@ == old(self).body@ + bin_line(name@, instr@, ty@, x@, y@),
            final(self).next == old(self).next,
            final(self).allocas == old(self).allocas,
            final(self).heap_used == old(self).heap_used,
            final(self).same_setup(*old(self)),
    {
        let mut s = String::from_str(name);
        s.append(" = ");
        s.append(instr);
        s.append(" ");
        s.append(ty);
        s.append(" ");
        s.append(x);
        s.append(", ");
        s.append(y);
        self.line(s.as_str());
        assert(s@ =~= name@ + " = "@ + instr@ + " "@ + ty@ + " "@ + x@ + ", "@ + y@);
    }

    /// Subrow `r`'s vector FMA: splat `a`, multiply by `b`, add to `acc`
    /// (both in the source's order) into `out_name` or a fresh temporary.
    #[verifier::spinoff_prover]
    fn emit_vec_fma_row(
        &mut self,
        site: &TileSite,
        ctx: &TileCtx,
        vllt: &str,
        a_value: &str,
        b: &str,
        acc: &str,
        out_name: Option<&str>,
    ) -> (v: String)
        requires
            old(self).next + 4 <= u32::MAX,
            vllt@ == vec_text(ctx.elem_llt@, ctx.tile_j),
        ensures
            ({
                let res = vec_fma_row(old(self).next as nat, *site, *ctx, a_value@, b@, acc@, opt_str(out_name));
                &&& final(self).next == res.0
                &&& final(self).body@ == old(self).body@ + res.1
                &&& v@ == res.2
            }),
            final(self).allocas == old(self).allocas,
            final(self).heap_used == old(self).heap_used,
            final(self).same_setup(*old(self)),
    {
        let ghost u = old(self).next as nat;
        let ghost o = old(self).body@;
        let a_vec = self.emit_vec_splat(ctx, a_value);
        let ghost p1 = splat_text(u, ctx.elem_llt@, ctx.tile_j, a_value@);
        let product = if site.mul_a_first {
            self.emit_flagged(ctx.mul_op, ctx.contract_flag, vllt, a_vec.as_str(), b)
        } else {
            self.emit_flagged(ctx.mul_op, ctx.contract_flag, vllt, b, a_vec.as_str())
        };
        let ghost p2 = vec_product(tmp_name(u + 2), *site, *ctx, vllt@, tmp_name(u + 1), b@);
        proof {
            lemma_concat_associative(o, p1, p2);
        }
        let mut add = String::from_str(ctx.add_op);
        add.append(ctx.contract_flag);
        let sum = match out_name {
            Some(n) => String::from_str(n),
            None => self.tmp(),
        };
        if site.add_acc_first {
            self.emit_bin_named(sum.as_str(), add.as_str(), vllt, acc, product.as_str());
        } else {
            self.emit_bin_named(sum.as_str(), add.as_str(), vllt, product.as_str(), acc);
        }
        proof {
            lemma_concat_associative(o, p1 + p2, vec_sum(sum@, *site, *ctx, vllt@, acc@, tmp_name(u + 2)));
        }
        sum
    }

    /// Every subrow's vector FMA on the shared `b`.
    #[verifier::spinoff_prover]
    fn emit_vec_fma_rows(
        &mut self,
        site: &TileSite,
        ctx: &TileCtx,
        vllt: &str,
        a_scalars: &Vec<String>,
        b: &str,
        accs: &[String],
        out_names: Option<&[String]>,
    ) -> (v: Vec<String>)
        requires
            old(self).next + 4 * accs@.len() <= u32::MAX,
            a_scalars@.len() == accs@.len(),
            vllt@ == vec_text(ctx.elem_llt@, ctx.tile_j),
            match out_names {
                Some(ns) => ns@.len() == accs@.len(),
                None => true,
            },
        ensures
            ({
                let res = vec_fma_rows(
                    old(self).next as nat,
                    *site,
                    *ctx,
                    texts(a_scalars@),
                    b@,
                    texts(accs@),
                    opt_names(out_names),
                    accs@.len(),
                );
                &&& final(self).next == res.0
                &&& final(self).body@ == old(self).body@ + res.1
                &&& texts(v@) == res.2
            }),
            v@.len() == accs@.len(),
            final(self).allocas == old(self).allocas,
            final(self).heap_used == old(self).heap_used,
            final(self).same_setup(*old(self)),
    {
        let ghost t = old(self).next as nat;
        let ghost o = old(self).body@;
        let ghost av = texts(accs@);
        let ghost sv = texts(a_scalars@);
        let ghost names = opt_names(out_names);
        let mut next: Vec<String> = Vec::new();
        let mut r: usize = 0;
        assert(o + Seq::<char>::empty() =~= o);
        while r < a_scalars.len()
            invariant
                r <= a_scalars@.len(),
                a_scalars@.len() == accs@.len(),
                sv == texts(a_scalars@),
                vllt@ == vec_text(ctx.elem_llt@, ctx.tile_j),
                av == texts(accs@),
                names == opt_names(out_names),
                match out_names {
                    Some(ns) => ns@.len() == accs@.len(),
                    None => true,
                },
                t + 4 * accs@.len() <= u32::MAX,
                next@.len() == r,
                ({
                    let res = vec_fma_rows(t, *site, *ctx, sv, b@, av, names, r as nat);
                    &&& self.next == res.0
                    &&& self.body@ == o + res.1
                    &&& texts(next@) == res.2
                }),
                self.allocas == old(self).allocas,
                self.heap_used == old(self).heap_used,
                self.same_setup(*old(self)),
            decreases a_scalars@.len() - r,
        {
            let ghost prev = vec_fma_rows(t, *site, *ctx, sv, b@, av, names, r as nat);
            proof {
                lemma_vec_fma_rows_width(t, *site, *ctx, sv, b@, av, names, r as nat);
            }
            let name: Option<&str> = match out_names {
                Some(ns) => Some(ns[r].as_str()),
                None => None,
            };
            assert(opt_str(name) == nth_name(names, r as int));
            let sum = self.emit_vec_fma_row(site, ctx, vllt, a_scalars[r].as_str(), b, accs[r].as_str(), name);
            let ghost row = vec_fma_row(prev.0, *site, *ctx, sv[r as int], b@, av[r as int], nth_name(names, r as int));
            proof {
                lemma_concat_associative(o, prev.1, row.1);
            }
            next.push(sum);
            assert(texts(next@) =~= prev.2.push(row.2));
            r += 1;
        }
        next
    }

    /// One k step over the vector accumulators `accs`: the subrows' `a`
    /// scalars, the shared `b` vector, one splat/multiply/add per subrow.
    /// `out_names`, when given, names the sums.
    #[verifier::spinoff_prover]
    pub fn emit_tile_vec_step(
        &mut self,
        site: &TileSite,
        ctx: &TileCtx,
        j0: &str,
        a_rows: &[Option<String>],
        b_row: &Option<String>,
        panel_base: Option<&str>,
        apack: Option<(&PackedBuffer, &str)>,
        k: &str,
        accs: &[String],
        out_names: Option<&[String]>,
    ) -> (v: Vec<String>)
        requires
            old(self).next + 7 + 8 * accs@.len() <= u32::MAX,
            apack is None ==> a_rows@.len() == accs@.len(),
            apack is Some ==> accs@.len() * ctx.tile_kc <= u64::MAX,
            ctx.packed is Some ==> panel_base is Some,
            align_ok(ctx.elem_llt@),
            match out_names {
                Some(ns) => ns@.len() == accs@.len(),
                None => true,
            },
        ensures
            ({
                let res = vec_step_text(
                    old(self).next as nat,
                    *site,
                    *ctx,
                    j0@,
                    opt_text(*b_row),
                    opt_str(panel_base),
                    a_source(a_rows@, apack, accs@.len() as u64),
                    k@,
                    texts(accs@),
                    opt_names(out_names),
                );
                &&& final(self).next == res.0
                &&& final(self).body@ == old(self).body@ + res.1
                &&& texts(v@) == res.2
            }),
            v@.len() == accs@.len(),
            final(self).allocas == old(self).allocas,
            final(self).heap_used == old(self).heap_used,
            final(self).same_setup(*old(self)),
    {
        let ghost t = old(self).next as nat;
        let ghost o = old(self).body@;
        let rows = accs.len() as u64;
        let ghost src = a_source(a_rows@, apack, rows);
        let ghost av = texts(accs@);
        let ghost names = opt_names(out_names);
        proof {
            lemma_a_step_width(t, *site, *ctx, src, k@);
        }
        let a_scalars = self.emit_a_step(site, ctx, a_rows, apack, rows, k);
        let ghost a = a_step_text(t, *site, *ctx, src, k@);
        proof {
            lemma_b_vector_width(a.0, *site, *ctx, j0@, opt_text(*b_row), k@, opt_str(panel_base));
        }
        let b = self.emit_tile_b_vector(site, ctx, j0, b_row, k, panel_base);
        let ghost bv = b_vector_text(a.0, *site, *ctx, j0@, opt_text(*b_row), k@, opt_str(panel_base));
        proof {
            lemma_concat_associative(o, a.1, bv.1);
        }
        let vllt = crate::emit::tile_vec_llt(ctx);
        assert(vllt@ =~= vec_text(ctx.elem_llt@, ctx.tile_j));
        let next = self.emit_vec_fma_rows(site, ctx, vllt.as_str(), &a_scalars, b.as_str(), accs, out_names);
        proof {
            lemma_concat_associative(o, a.1, bv.1);
            lemma_concat_associative(o, a.1 + bv.1, vec_fma_rows(bv.0, *site, *ctx, a.2, bv.2, av, names, av.len()).1);
            reveal(vec_step_text);
        }
        next
    }

    /// `n` fresh temporaries, minted without a line.
    fn emit_tmp_run(&mut self, n: usize) -> (v: Vec<String>)
        requires
            old(self).next + n <= u32::MAX,
        ensures
            texts(v@) == tmp_run(old(self).next as nat, n as nat),
            v@.len() == n,
            final(self).next == old(self).next + n,
            final(self).body == old(self).body,
            final(self).allocas == old(self).allocas,
            final(self).heap_used == old(self).heap_used,
            final(self).same_setup(*old(self)),
    {
        let ghost t = old(self).next as nat;
        let mut v: Vec<String> = Vec::new();
        let mut i: usize = 0;
        while i < n
            invariant
                i <= n,
                t + n <= u32::MAX,
                self.next == t + i,
                v@.len() == i,
                texts(v@) == tmp_run(t, i as nat),
                self.body == old(self).body,
                self.allocas == old(self).allocas,
                self.heap_used == old(self).heap_used,
                self.same_setup(*old(self)),
            decreases n - i,
        {
            let name = self.tmp();
            let ghost prev = texts(v@);
            v.push(name);
            assert forall|j: int| 0 <= j < i + 1 implies #[trigger] texts(v@)[j] == tmp_run(t, (i + 1) as nat)[j] by {
                if j < i {
                    assert(texts(v@)[j] == prev[j]);
                }
            }
            assert(texts(v@) =~= tmp_run(t, (i + 1) as nat));
            i += 1;
        }
        v
    }

    /// `<v> = phi <ty> [ <x>, %<xl> ], [ <y>, %<yl> ]`.
    fn emit_phi_pair(&mut self, v: &str, ty: &str, x: &str, xl: &str, y: &str, yl: &str)
        ensures
            final(self).body@ == old(self).body@ + phi_pair_line(v@, ty@, x@, xl@, y@, yl@),
            final(self).next == old(self).next,
            final(self).allocas == old(self).allocas,
            final(self).heap_used == old(self).heap_used,
            final(self).same_setup(*old(self)),
    {
        let mut s = String::from_str(v);
        s.append(" = phi ");
        s.append(ty);
        s.append(" [ ");
        s.append(x);
        s.append(", %");
        s.append(xl);
        s.append(" ], [ ");
        s.append(y);
        s.append(", %");
        s.append(yl);
        s.append(" ]");
        self.line(s.as_str());
        assert(s@ =~= v@ + " = phi "@ + ty@ + " [ "@ + x@ + ", %"@ + xl@ + " ], [ "@ + y@ + ", %"@ + yl@ + " ]"@);
    }

    /// One phi per subrow onto fresh temporaries: `xs[r]` from `xl`, `ys[r]`
    /// from `yl`.
    fn emit_phis(&mut self, ty: &str, xs: &[String], xl: &str, ys: &[String], yl: &str) -> (v: Vec<String>)
        requires
            old(self).next + xs@.len() <= u32::MAX,
            ys@.len() == xs@.len(),
        ensures
            texts(v@) == tmp_run(old(self).next as nat, xs@.len()),
            v@.len() == xs@.len(),
            final(self).next == old(self).next + xs@.len(),
            final(self).body@ == old(self).body@ + phis_text(
                old(self).next as nat,
                ty@,
                texts(xs@),
                xl@,
                texts(ys@),
                yl@,
                xs@.len(),
            ),
            final(self).allocas == old(self).allocas,
            final(self).heap_used == old(self).heap_used,
            final(self).same_setup(*old(self)),
    {
        let ghost t = old(self).next as nat;
        let ghost o = old(self).body@;
        let mut v: Vec<String> = Vec::new();
        let mut i: usize = 0;
        assert(o + Seq::<char>::empty() =~= o);
        while i < xs.len()
            invariant
                i <= xs@.len(),
                ys@.len() == xs@.len(),
                t + xs@.len() <= u32::MAX,
                self.next == t + i,
                v@.len() == i,
                texts(v@) == tmp_run(t, i as nat),
                self.body@ == o + phis_text(t, ty@, texts(xs@), xl@, texts(ys@), yl@, i as nat),
                self.allocas == old(self).allocas,
                self.heap_used == old(self).heap_used,
                self.same_setup(*old(self)),
            decreases xs@.len() - i,
        {
            let name = self.tmp();
            self.emit_phi_pair(name.as_str(), ty, xs[i].as_str(), xl, ys[i].as_str(), yl);
            proof {
                lemma_concat_associative(
                    o,
                    phis_text(t, ty@, texts(xs@), xl@, texts(ys@), yl@, i as nat),
                    phi_pair_line(tmp_name((t + i) as nat), ty@, xs@[i as int]@, xl@, ys@[i as int]@, yl@),
                );
            }
            let ghost prev = texts(v@);
            v.push(name);
            assert forall|j: int| 0 <= j < i + 1 implies #[trigger] texts(v@)[j] == tmp_run(t, (i + 1) as nat)[j] by {
                if j < i {
                    assert(texts(v@)[j] == prev[j]);
                }
            }
            assert(texts(v@) =~= tmp_run(t, (i + 1) as nat));
            i += 1;
        }
        v
    }

    /// Open a phi-carried k loop: the preheader starts the counter at
    /// `k_lo`; the header's phis take `seeds` from the preheader and the
    /// pre-minted sums from the body; then `k`, `k+1` and the paired test.
    #[verifier::spinoff_prover]
    fn emit_vec_loop_head(&mut self, ctx: &TileCtx, vllt: &str, k_lo: &str, k_hi: &str, seeds: &[String]) -> (n:
        VecLoopNames)
        requires
            old(self).next + 9 + 2 * seeds@.len() <= u32::MAX,
            vllt@ == vec_text(ctx.elem_llt@, ctx.tile_j),
        ensures
            vec_loop_names_ok(n, old(self).next as nat, seeds@.len()),
            final(self).next == old(self).next + 9 + 2 * seeds@.len(),
            final(self).body@ == old(self).body@ + vec_loop_head_text(
                old(self).next as nat,
                *ctx,
                k_lo@,
                k_hi@,
                texts(seeds@),
            ),
            final(self).allocas == old(self).allocas,
            final(self).heap_used == old(self).heap_used,
            final(self).same_setup(*old(self)),
    {
        let ghost t = old(self).next as nat;
        let ghost o = old(self).body@;
        let ghost rows = seeds@.len();
        let pre = self.label();
        let head = self.label();
        let body = self.label();
        let tail_check = self.label();
        let tail = self.label();
        let done = self.label();
        self.jump(pre.as_str());
        let ghost p1 = jump_line(label_name(t));
        self.label_line(pre.as_str());
        let ghost p2 = label_text(label_name(t));
        proof {
            lemma_concat_associative(o, p1, p2);
        }
        self.emit_store("i64", k_lo, ctx.k_ctr.as_str());
        let ghost p3 = store_line("i64"@, k_lo@, ctx.k_ctr@);
        proof {
            lemma_concat_associative(o, p1 + p2, p3);
        }
        self.jump(head.as_str());
        let ghost p4 = jump_line(label_name(t + 1));
        proof {
            lemma_concat_associative(o, p1 + p2 + p3, p4);
        }
        self.label_line(head.as_str());
        let ghost p5 = label_text(label_name(t + 1));
        proof {
            lemma_concat_associative(o, p1 + p2 + p3 + p4, p5);
        }
        let ghost w5 = p1 + p2 + p3 + p4 + p5;
        let nexts = self.emit_tmp_run(seeds.len());
        let accs = self.emit_phis(vllt, seeds, pre.as_str(), nexts.as_slice(), body.as_str());
        let ghost p6 = phis_text(t + 6 + rows, vllt@, texts(seeds@), label_name(t), tmp_run(t + 6, rows), label_name(t + 2), rows);
        proof {
            lemma_concat_associative(o, w5, p6);
        }
        let kk = self.emit_load("i64", ctx.k_ctr.as_str());
        let ghost p7 = load_line(tmp_name(t + 6 + 2 * rows), "i64"@, ctx.k_ctr@);
        proof {
            lemma_concat_associative(o, w5 + p6, p7);
        }
        let kk1 = self.emit_pair_head(kk.as_str(), k_hi, body.as_str(), tail_check.as_str());
        proof {
            lemma_concat_associative(
                o,
                w5 + p6 + p7,
                pair_head_text(t + 7 + 2 * rows, tmp_name(t + 6 + 2 * rows), k_hi@, label_name(t + 2), label_name(t + 3)),
            );
        }
        VecLoopNames { pre, head, body, tail_check, tail, done, nexts, accs, kk, kk1 }
    }

    /// The paired trip of a phi-carried k loop: prefetch, the step at `k`
    /// on the header's phis, the step at `k+1` onto the pre-minted sums,
    /// `k += 2`.
    #[verifier::spinoff_prover]
    fn emit_vec_loop_trip(
        &mut self,
        site: &TileSite,
        ctx: &TileCtx,
        j0: &str,
        a_rows: &[Option<String>],
        b_row: &Option<String>,
        panel_base: Option<&str>,
        apack: Option<(&PackedBuffer, &str)>,
        rows: u64,
        names: &VecLoopNames,
        Ghost(t): Ghost<nat>,
    )
        requires
            old(self).next + 19 + 16 * rows <= u32::MAX,
            vec_loop_names_ok(*names, t, rows as nat),
            apack is None ==> a_rows@.len() == rows,
            apack is Some ==> rows * ctx.tile_kc <= u64::MAX,
            ctx.packed is Some ==> panel_base is Some,
            align_ok(ctx.elem_llt@),
        ensures
            ({
                let res = vec_loop_trip(
                    old(self).next as nat,
                    t,
                    *site,
                    *ctx,
                    j0@,
                    opt_text(*b_row),
                    opt_str(panel_base),
                    a_source(a_rows@, apack, rows),
                    rows as nat,
                );
                &&& final(self).next == res.0
                &&& final(self).body@ == old(self).body@ + res.1
            }),
            final(self).allocas == old(self).allocas,
            final(self).heap_used == old(self).heap_used,
            final(self).same_setup(*old(self)),
    {
        let ghost u = old(self).next as nat;
        let ghost o = old(self).body@;
        let ghost src = a_source(a_rows@, apack, rows);
        let ghost rn: nat = rows as nat;
        let ghost h: nat = t + 6 + 2 * rn;
        assert(a_source(a_rows@, apack, names.accs@.len() as u64) == src);
        self.emit_opt_prefetch(ctx, panel_base, names.kk.as_str());
        let ghost pf = opt_prefetch(u, *ctx, opt_str(panel_base), tmp_name(h));
        proof {
            lemma_vec_step_width(pf.0, *site, *ctx, j0@, opt_text(*b_row), opt_str(panel_base), src, tmp_name(h), tmp_run(t + 6 + rn, rn), None);
        }
        let mid = self.emit_tile_vec_step(
            site, ctx, j0, a_rows, b_row, panel_base, apack, names.kk.as_str(), names.accs.as_slice(), None,
        );
        let ghost m = vec_step_text(pf.0, *site, *ctx, j0@, opt_text(*b_row), opt_str(panel_base), src, tmp_name(h), tmp_run(t + 6 + rn, rn), None);
        proof {
            lemma_concat_associative(o, pf.1, m.1);
            lemma_vec_step_width(m.0, *site, *ctx, j0@, opt_text(*b_row), opt_str(panel_base), src, tmp_name(h + 1), m.2, Some(tmp_run(t + 6, rn)));
        }
        assert(a_source(a_rows@, apack, mid@.len() as u64) == src);
        self.emit_tile_vec_step(
            site, ctx, j0, a_rows, b_row, panel_base, apack, names.kk1.as_str(), mid.as_slice(), Some(names.nexts.as_slice()),
        );
        let ghost l = vec_step_text(m.0, *site, *ctx, j0@, opt_text(*b_row), opt_str(panel_base), src, tmp_name(h + 1), m.2, Some(tmp_run(t + 6, rn)));
        proof {
            lemma_concat_associative(o, pf.1 + m.1, l.1);
        }
        self.emit_k_back(ctx, names.kk.as_str(), "2", names.head.as_str());
        proof {
            lemma_concat_associative(o, pf.1 + m.1 + l.1, k_back_text(l.0, *ctx, tmp_name(h), "2"@, label_name(t + 1)));
        }
    }

    /// The odd tail and exit of a phi-carried k loop: one more step while
    /// `k < k_hi`, then the exit's phis; returns the loop's results.
    #[verifier::spinoff_prover]
    fn emit_vec_loop_exit(
        &mut self,
        site: &TileSite,
        ctx: &TileCtx,
        vllt: &str,
        j0: &str,
        a_rows: &[Option<String>],
        b_row: &Option<String>,
        panel_base: Option<&str>,
        apack: Option<(&PackedBuffer, &str)>,
        rows: u64,
        k_hi: &str,
        names: &VecLoopNames,
        Ghost(t): Ghost<nat>,
    ) -> (v: Vec<String>)
        requires
            old(self).next + 8 + 9 * rows <= u32::MAX,
            vec_loop_names_ok(*names, t, rows as nat),
            vllt@ == vec_text(ctx.elem_llt@, ctx.tile_j),
            apack is None ==> a_rows@.len() == rows,
            apack is Some ==> rows * ctx.tile_kc <= u64::MAX,
            ctx.packed is Some ==> panel_base is Some,
            align_ok(ctx.elem_llt@),
        ensures
            ({
                let res = vec_loop_exit(
                    old(self).next as nat,
                    t,
                    *site,
                    *ctx,
                    j0@,
                    opt_text(*b_row),
                    opt_str(panel_base),
                    a_source(a_rows@, apack, rows),
                    k_hi@,
                    rows as nat,
                );
                &&& final(self).next == res.0
                &&& final(self).body@ == old(self).body@ + res.1
                &&& texts(v@) == res.2
            }),
            v@.len() == rows,
            final(self).allocas == old(self).allocas,
            final(self).heap_used == old(self).heap_used,
            final(self).same_setup(*old(self)),
    {
        let ghost u = old(self).next as nat;
        let ghost o = old(self).body@;
        let ghost src = a_source(a_rows@, apack, rows);
        let ghost rn: nat = rows as nat;
        let ghost kk = tmp_name(t + 6 + 2 * rn);
        let ghost accs = tmp_run(t + 6 + rn, rn);
        self.label_line(names.tail_check.as_str());
        let ghost p1 = label_text(label_name(t + 3));
        let test = self.emit_op("icmp ult", names.kk.as_str(), k_hi);
        let ghost p2 = op_line(tmp_name(u), "icmp ult"@, kk, k_hi@);
        proof {
            lemma_concat_associative(o, p1, p2);
        }
        self.branch(test.as_str(), names.tail.as_str(), names.done.as_str());
        let ghost p3 = branch_line(tmp_name(u), label_name(t + 4), label_name(t + 5));
        proof {
            lemma_concat_associative(o, p1 + p2, p3);
        }
        self.label_line(names.tail.as_str());
        let ghost p4 = label_text(label_name(t + 4));
        proof {
            lemma_concat_associative(o, p1 + p2 + p3, p4);
            lemma_vec_step_width(u + 1, *site, *ctx, j0@, opt_text(*b_row), opt_str(panel_base), src, kk, accs, None);
        }
        let ghost w4 = p1 + p2 + p3 + p4;
        assert(a_source(a_rows@, apack, names.accs@.len() as u64) == src);
        let tail_accs = self.emit_tile_vec_step(
            site, ctx, j0, a_rows, b_row, panel_base, apack, names.kk.as_str(), names.accs.as_slice(), None,
        );
        let ghost tl = vec_step_text(u + 1, *site, *ctx, j0@, opt_text(*b_row), opt_str(panel_base), src, kk, accs, None);
        proof {
            lemma_concat_associative(o, w4, tl.1);
        }
        self.jump(names.done.as_str());
        let ghost p6 = jump_line(label_name(t + 5));
        proof {
            lemma_concat_associative(o, w4 + tl.1, p6);
        }
        self.label_line(names.done.as_str());
        let ghost p7 = label_text(label_name(t + 5));
        proof {
            lemma_concat_associative(o, w4 + tl.1 + p6, p7);
        }
        let outs = self.emit_phis(vllt, names.accs.as_slice(), names.tail_check.as_str(), tail_accs.as_slice(), names.tail.as_str());
        proof {
            lemma_concat_associative(
                o,
                w4 + tl.1 + p6 + p7,
                phis_text(tl.0, vllt@, accs, label_name(t + 3), tl.2, label_name(t + 4), rn),
            );
        }
        outs
    }

    /// The x2-unrolled k loop over `[k_lo, k_hi)` with the accumulators
    /// carried by `phi`: `seeds` enter on the preheader edge, the paired
    /// trip threads every accumulator through both k steps, the exit merges
    /// the paired and odd-tail values. Returns the loop's results.
    #[verifier::spinoff_prover]
    pub fn emit_tile_vec_k_loop(
        &mut self,
        site: &TileSite,
        ctx: &TileCtx,
        j0: &str,
        a_rows: &[Option<String>],
        b_row: &Option<String>,
        panel_base: Option<&str>,
        apack: Option<(&PackedBuffer, &str)>,
        k_lo: &str,
        k_hi: &str,
        seeds: &[String],
    ) -> (v: Vec<String>)
        requires
            old(self).next + 36 + 27 * seeds@.len() <= u32::MAX,
            apack is None ==> a_rows@.len() == seeds@.len(),
            apack is Some ==> seeds@.len() * ctx.tile_kc <= u64::MAX,
            ctx.packed is Some ==> panel_base is Some,
            align_ok(ctx.elem_llt@),
        ensures
            ({
                let res = vec_k_loop_text(
                    old(self).next as nat,
                    *site,
                    *ctx,
                    j0@,
                    opt_text(*b_row),
                    opt_str(panel_base),
                    a_source(a_rows@, apack, seeds@.len() as u64),
                    k_lo@,
                    k_hi@,
                    texts(seeds@),
                );
                &&& final(self).next == res.0
                &&& final(self).body@ == old(self).body@ + res.1
                &&& texts(v@) == res.2
            }),
            v@.len() == seeds@.len(),
            final(self).allocas == old(self).allocas,
            final(self).heap_used == old(self).heap_used,
            final(self).same_setup(*old(self)),
    {
        let ghost t = old(self).next as nat;
        let ghost o = old(self).body@;
        let rows = seeds.len() as u64;
        let ghost rn: nat = rows as nat;
        let ghost src = a_source(a_rows@, apack, rows);
        let vllt = crate::emit::tile_vec_llt(ctx);
        assert(vllt@ =~= vec_text(ctx.elem_llt@, ctx.tile_j));
        let names = self.emit_vec_loop_head(ctx, vllt.as_str(), k_lo, k_hi, seeds);
        let ghost w1 = vec_loop_head_text(t, *ctx, k_lo@, k_hi@, texts(seeds@));
        proof {
            lemma_vec_loop_width(t, *site, *ctx, j0@, opt_text(*b_row), opt_str(panel_base), src, k_hi@, rn, t + 9 + 2 * rn);
        }
        self.emit_vec_loop_trip(site, ctx, j0, a_rows, b_row, panel_base, apack, rows, &names, Ghost(t));
        let ghost trip = vec_loop_trip(t + 9 + 2 * rn, t, *site, *ctx, j0@, opt_text(*b_row), opt_str(panel_base), src, rn);
        proof {
            lemma_concat_associative(o, w1, trip.1);
            lemma_vec_loop_width(t, *site, *ctx, j0@, opt_text(*b_row), opt_str(panel_base), src, k_hi@, rn, trip.0);
        }
        let outs = self.emit_vec_loop_exit(site, ctx, vllt.as_str(), j0, a_rows, b_row, panel_base, apack, rows, k_hi, &names, Ghost(t));
        proof {
            let ex = vec_loop_exit(trip.0, t, *site, *ctx, j0@, opt_text(*b_row), opt_str(panel_base), src, k_hi@, rn);
            lemma_concat_associative(o, w1 + trip.1, ex.1);
            reveal(vec_k_loop_text);
        }
        outs
    }

    /// The `out[out_start + r*C]` element pointers of subrows `0..rows`.
    #[verifier::spinoff_prover]
    pub fn emit_tile_vec_out_ptrs(&mut self, site: &TileSite, ctx: &TileCtx, out_start: &str, rows: u64) -> (v: Vec<String>)
        requires
            old(self).next + 2 * rows <= u32::MAX,
            rows * site.c <= u64::MAX,
        ensures
            ({
                let res = vec_out_ptrs_text(old(self).next as nat, *site, *ctx, out_start@, rows as nat);
                &&& final(self).next == res.0
                &&& final(self).body@ == old(self).body@ + res.1
                &&& texts(v@) == res.2
            }),
            v@.len() == rows,
            final(self).allocas == old(self).allocas,
            final(self).heap_used == old(self).heap_used,
            final(self).same_setup(*old(self)),
    {
        let ghost t = old(self).next as nat;
        let ghost o = old(self).body@;
        let mut v: Vec<String> = Vec::new();
        let mut r: u64 = 0;
        while r < rows
            invariant
                r <= rows,
                t + 2 * rows <= u32::MAX,
                rows * site.c <= u64::MAX,
                v@.len() == r,
                ({
                    let res = vec_out_ptrs_text(t, *site, *ctx, out_start@, r as nat);
                    &&& self.next == res.0
                    &&& self.body@ == o + res.1
                    &&& texts(v@) == res.2
                }),
                self.allocas == old(self).allocas,
                self.heap_used == old(self).heap_used,
                self.same_setup(*old(self)),
            decreases rows - r,
        {
            let ghost prev = vec_out_ptrs_text(t, *site, *ctx, out_start@, r as nat);
            proof {
                lemma_vec_out_ptrs_width(t, *site, *ctx, out_start@, r as nat);
                vstd::arithmetic::mul::lemma_mul_inequality(r as int, rows as int, site.c as int);
            }
            let index = self.emit_row_start(site, out_start, r, true);
            let ghost sh = row_start(prev.0, *site, out_start@, r as nat, true);
            let ptr = self.emit_gep(ctx.out_llt.as_str(), ctx.out_ptr.as_str(), index.as_str());
            proof {
                lemma_concat_associative(o, prev.1, sh.1);
                lemma_concat_associative(o, prev.1 + sh.1, gep_line(tmp_name(sh.0), ctx.out_llt@, ctx.out_ptr@, sh.2));
            }
            let ghost pv = texts(v@);
            v.push(ptr);
            assert(texts(v@) =~= pv.push(tmp_name(sh.0)));
            r += 1;
        }
        v
    }

    /// One `<TJ x elem>` store per subrow, `vals[r]` to `ptrs[r]`, at the
    /// element's alignment.
    fn emit_vec_stores(&mut self, ctx: &TileCtx, vllt: &str, align: u64, vals: &[String], ptrs: &[String])
        requires
            vals@.len() == ptrs@.len(),
            vllt@ == vec_text(ctx.elem_llt@, ctx.tile_j),
            align == llt_algn(ctx.elem_llt@),
        ensures
            final(self).body@ == old(self).body@ + vec_stores_text(*ctx, texts(vals@), texts(ptrs@), vals@.len()),
            final(self).next == old(self).next,
            final(self).allocas == old(self).allocas,
            final(self).heap_used == old(self).heap_used,
            final(self).same_setup(*old(self)),
    {
        let ghost o = old(self).body@;
        let mut r: usize = 0;
        while r < vals.len()
            invariant
                r <= vals@.len(),
                vals@.len() == ptrs@.len(),
                vllt@ == vec_text(ctx.elem_llt@, ctx.tile_j),
                align == llt_algn(ctx.elem_llt@),
                self.next == old(self).next,
                self.body@ == o + vec_stores_text(*ctx, texts(vals@), texts(ptrs@), r as nat),
                self.allocas == old(self).allocas,
                self.heap_used == old(self).heap_used,
                self.same_setup(*old(self)),
            decreases vals@.len() - r,
        {
            self.emit_aligned_store(vllt, vals[r].as_str(), ptrs[r].as_str(), align);
            proof {
                lemma_concat_associative(
                    o,
                    vec_stores_text(*ctx, texts(vals@), texts(ptrs@), r as nat),
                    aligned_store_line(vllt@, vals@[r as int]@, ptrs@[r as int]@, align as nat),
                );
            }
            r += 1;
        }
    }

    /// One `<TJ x elem>` reload per subrow from `ptrs[r]`, at the element's
    /// alignment.
    fn emit_vec_loads(&mut self, ctx: &TileCtx, vllt: &str, align: u64, ptrs: &[String]) -> (v: Vec<String>)
        requires
            old(self).next + ptrs@.len() <= u32::MAX,
            vllt@ == vec_text(ctx.elem_llt@, ctx.tile_j),
            align == llt_algn(ctx.elem_llt@),
        ensures
            final(self).body@ == old(self).body@ + vec_loads_text(old(self).next as nat, *ctx, texts(ptrs@), ptrs@.len()),
            texts(v@) == tmp_run(old(self).next as nat, ptrs@.len()),
            v@.len() == ptrs@.len(),
            final(self).next == old(self).next + ptrs@.len(),
            final(self).allocas == old(self).allocas,
            final(self).heap_used == old(self).heap_used,
            final(self).same_setup(*old(self)),
    {
        let ghost t = old(self).next as nat;
        let ghost o = old(self).body@;
        let mut v: Vec<String> = Vec::new();
        let mut r: usize = 0;
        while r < ptrs.len()
            invariant
                r <= ptrs@.len(),
                t + ptrs@.len() <= u32::MAX,
                vllt@ == vec_text(ctx.elem_llt@, ctx.tile_j),
                align == llt_algn(ctx.elem_llt@),
                self.next == t + r,
                v@.len() == r,
                texts(v@) == tmp_run(t, r as nat),
                self.body@ == o + vec_loads_text(t, *ctx, texts(ptrs@), r as nat),
                self.allocas == old(self).allocas,
                self.heap_used == old(self).heap_used,
                self.same_setup(*old(self)),
            decreases ptrs@.len() - r,
        {
            let value = self.emit_aligned_load(vllt, ptrs[r].as_str(), align);
            proof {
                lemma_concat_associative(
                    o,
                    vec_loads_text(t, *ctx, texts(ptrs@), r as nat),
                    aligned_load_line(tmp_name((t + r) as nat), vllt@, ptrs@[r as int]@, align as nat),
                );
            }
            let ghost prev = texts(v@);
            v.push(value);
            assert forall|j: int| 0 <= j < r + 1 implies #[trigger] texts(v@)[j] == tmp_run(t, (r + 1) as nat)[j] by {
                if j < r {
                    assert(texts(v@)[j] == prev[j]);
                }
            }
            assert(texts(v@) =~= tmp_run(t, (r + 1) as nat));
            r += 1;
        }
        v
    }

    /// The same seed `rows` times.
    fn repeat_seed(seed: &String, rows: usize) -> (v: Vec<String>)
        ensures
            v@.len() == rows,
            texts(v@) == Seq::new(rows as nat, |i: int| seed@),
    {
        let mut v: Vec<String> = Vec::new();
        let mut i: usize = 0;
        while i < rows
            invariant
                i <= rows,
                v@.len() == i,
                texts(v@) == Seq::new(i as nat, |j: int| seed@),
            decreases rows - i,
        {
            let ghost prev = texts(v@);
            let c = seed.clone();
            v.push(c);
            assert forall|j: int| 0 <= j < i + 1 implies #[trigger] texts(v@)[j] == Seq::new((i + 1) as nat, |k: int| seed@)[j] by {
                if j < i {
                    assert(texts(v@)[j] == prev[j]);
                }
            }
            assert(texts(v@) =~= Seq::new((i + 1) as nat, |j: int| seed@));
            i += 1;
        }
        v
    }

    /// The j-outer nest's vector main tile: the seed splat, the phi-carried
    /// k loop over `[0, K)`, one `<TJ x elem>` store per subrow. The
    /// accumulator scratch is not touched.
    #[verifier::spinoff_prover]
    pub fn emit_tile_trio_vec(
        &mut self,
        site: &TileSite,
        ctx: &TileCtx,
        j0: &str,
        row0: &str,
        a_rows: &[Option<String>],
        b_row: &Option<String>,
        panel_base: Option<&str>,
    )
        requires
            old(self).next + 39 + 29 * a_rows@.len() <= u32::MAX,
            a_rows@.len() * site.c <= u64::MAX,
            ctx.packed is Some ==> panel_base is Some,
            align_ok(ctx.elem_llt@),
        ensures
            ({
                let res = trio_vec_text(
                    old(self).next as nat,
                    *site,
                    *ctx,
                    j0@,
                    row0@,
                    opt_texts(a_rows@),
                    opt_text(*b_row),
                    opt_str(panel_base),
                );
                &&& final(self).next == res.0
                &&& final(self).body@ == old(self).body@ + res.1
            }),
            final(self).allocas == old(self).allocas,
            final(self).heap_used == old(self).heap_used,
            final(self).same_setup(*old(self)),
    {
        let ghost t = old(self).next as nat;
        let ghost o = old(self).body@;
        let ghost rn: nat = a_rows@.len();
        let vllt = crate::emit::tile_vec_llt(ctx);
        assert(vllt@ =~= vec_text(ctx.elem_llt@, ctx.tile_j));
        let align = crate::llt::llt_align(ctx.elem_llt.as_str());
        let seed = self.emit_vec_splat(ctx, ctx.seed.as_str());
        let ghost p1 = splat_text(t, ctx.elem_llt@, ctx.tile_j, ctx.seed@);
        let seeds = Self::repeat_seed(&seed, a_rows.len());
        let ghost sv = Seq::new(rn, |i: int| tmp_name(t + 1));
        assert(texts(seeds@) =~= sv);
        let k_hi = num::u64_to_string(site.k);
        let ghost src = a_source(a_rows@, None, rn as u64);
        assert(src == ASource::Rows(opt_texts(a_rows@)));
        proof {
            lemma_vec_k_loop_width(t + 2, *site, *ctx, j0@, opt_text(*b_row), opt_str(panel_base), src, "0"@, k_hi@, sv);
        }
        let accs = self.emit_tile_vec_k_loop(site, ctx, j0, a_rows, b_row, panel_base, None, "0", k_hi.as_str(), seeds.as_slice());
        let ghost kl = vec_k_loop_text(t + 2, *site, *ctx, j0@, opt_text(*b_row), opt_str(panel_base), src, "0"@, k_hi@, sv);
        proof {
            lemma_concat_associative(o, p1, kl.1);
        }
        let out_start = self.emit_op("add", row0, j0);
        let ghost p3 = op_line(tmp_name(kl.0), "add"@, row0@, j0@);
        proof {
            lemma_concat_associative(o, p1 + kl.1, p3);
            lemma_vec_out_ptrs_width(kl.0 + 1, *site, *ctx, tmp_name(kl.0), rn);
        }
        let ptrs = self.emit_tile_vec_out_ptrs(site, ctx, out_start.as_str(), accs.len() as u64);
        let ghost pt = vec_out_ptrs_text(kl.0 + 1, *site, *ctx, tmp_name(kl.0), rn);
        proof {
            lemma_concat_associative(o, p1 + kl.1 + p3, pt.1);
        }
        self.emit_vec_stores(ctx, vllt.as_str(), align, accs.as_slice(), ptrs.as_slice());
        proof {
            lemma_concat_associative(o, p1 + kl.1 + p3 + pt.1, vec_stores_text(*ctx, kl.2, pt.2, rn));
            reveal(trio_vec_text);
        }
    }

    /// The KC nest's vector main tile at one kc panel: the subrows' `out`
    /// pointers, the seeds (the splat on the first panel, else one vector
    /// reload per subrow), the phi-carried panel k loop, one vector store
    /// per subrow.
    #[verifier::spinoff_prover]
    pub fn emit_tile_kc_trio_vec(
        &mut self,
        site: &TileSite,
        ctx: &TileCtx,
        apack: &PackedBuffer,
        j0: &str,
        row0: &str,
        rows: u64,
        panel_base: &str,
        k_lo: &str,
        k_hi: &str,
        first: bool,
    )
        requires
            old(self).next + 39 + 30 * rows <= u32::MAX,
            rows * site.c <= u64::MAX,
            rows * ctx.tile_kc <= u64::MAX,
            align_ok(ctx.elem_llt@),
        ensures
            ({
                let res = kc_trio_vec_text(
                    old(self).next as nat,
                    *site,
                    *ctx,
                    *apack,
                    j0@,
                    row0@,
                    rows as nat,
                    panel_base@,
                    k_lo@,
                    k_hi@,
                    first,
                );
                &&& final(self).next == res.0
                &&& final(self).body@ == old(self).body@ + res.1
            }),
            final(self).allocas == old(self).allocas,
            final(self).heap_used == old(self).heap_used,
            final(self).same_setup(*old(self)),
    {
        let ghost t = old(self).next as nat;
        let ghost o = old(self).body@;
        let ghost rn: nat = rows as nat;
        let vllt = crate::emit::tile_vec_llt(ctx);
        assert(vllt@ =~= vec_text(ctx.elem_llt@, ctx.tile_j));
        let align = crate::llt::llt_align(ctx.elem_llt.as_str());
        let out_start = self.emit_op("add", row0, j0);
        let ghost p1 = op_line(tmp_name(t), "add"@, row0@, j0@);
        proof {
            lemma_vec_out_ptrs_width(t + 1, *site, *ctx, tmp_name(t), rn);
        }
        let ptrs = self.emit_tile_vec_out_ptrs(site, ctx, out_start.as_str(), rows);
        let ghost pt = vec_out_ptrs_text(t + 1, *site, *ctx, tmp_name(t), rn);
        proof {
            lemma_concat_associative(o, p1, pt.1);
        }
        let ghost p = pt.0;
        let seeds = if first {
            let seed = self.emit_vec_splat(ctx, ctx.seed.as_str());
            let v = Self::repeat_seed(&seed, rows as usize);
            assert(texts(v@) =~= Seq::new(rn, |i: int| tmp_name(p + 1)));
            v
        } else {
            self.emit_vec_loads(ctx, vllt.as_str(), align, ptrs.as_slice())
        };
        let ghost sd: (nat, Seq<char>, Seq<Seq<char>>) = if first {
            (p + 2, splat_text(p, ctx.elem_llt@, ctx.tile_j, ctx.seed@), Seq::new(rn, |i: int| tmp_name(p + 1)))
        } else {
            (p + rn, vec_loads_text(p, *ctx, pt.2, rn), tmp_run(p, rn))
        };
        proof {
            lemma_concat_associative(o, p1 + pt.1, sd.1);
        }
        let no_rows: [Option<String>; 0] = [];
        let no_b_row: Option<String> = None;
        let ghost src = a_source(no_rows@, Some((apack, k_lo)), rows);
        assert(src == ASource::Panel(*apack, k_lo@, rn));
        proof {
            lemma_vec_k_loop_width(sd.0, *site, *ctx, j0@, None, Some(panel_base@), src, k_lo@, k_hi@, sd.2);
        }
        let accs = self.emit_tile_vec_k_loop(
            site, ctx, j0, &no_rows, &no_b_row, Some(panel_base), Some((apack, k_lo)), k_lo, k_hi, seeds.as_slice(),
        );
        let ghost kl = vec_k_loop_text(sd.0, *site, *ctx, j0@, None, Some(panel_base@), src, k_lo@, k_hi@, sd.2);
        proof {
            lemma_concat_associative(o, p1 + pt.1 + sd.1, kl.1);
        }
        self.emit_vec_stores(ctx, vllt.as_str(), align, accs.as_slice(), ptrs.as_slice());
        proof {
            lemma_concat_associative(o, p1 + pt.1 + sd.1 + kl.1, vec_stores_text(*ctx, kl.2, pt.2, rn));
            reveal(kc_trio_vec_text);
        }
    }

    /// The seed / k-loop / store trio for one j-tile of an
    /// `a_rows.len()`-row block; subrow `r`'s accumulators live at
    /// `r*TJ + lane`, its `a` row base is `a_rows[r]`, and `bound` is the
    /// lane count (the literal `TJ` on the main path). The full
    /// constant-width main tile carries its accumulators as `<TJ x elem>`
    /// phis instead.
    pub fn emit_tile_trio(
        &mut self,
        site: &TileSite,
        ctx: &TileCtx,
        j0: &str,
        row0: &str,
        a_rows: &[Option<String>],
        b_row: &Option<String>,
        bound: &str,
        main: bool,
        panel_base: Option<&str>,
        panel_lane0: Option<&str>,
    )
        requires
            old(self).next + 60 + 50 * a_rows@.len() <= u32::MAX,
            a_rows@.len() * ctx.tile_j <= u64::MAX,
            a_rows@.len() * site.c <= u64::MAX,
            ctx.packed is Some && panel_base is None ==> site.k * ctx.tile_j <= u64::MAX,
            trio_vec_gate(*ctx, a_rows@.len(), bound@, main, opt_str(panel_base), opt_str(panel_lane0)) ==> align_ok(
                ctx.elem_llt@,
            ),
        ensures
            ({
                let res = trio_text(
                    old(self).next as nat,
                    *site,
                    *ctx,
                    j0@,
                    row0@,
                    opt_texts(a_rows@),
                    opt_text(*b_row),
                    bound@,
                    main,
                    opt_str(panel_base),
                    opt_str(panel_lane0),
                );
                &&& final(self).next == res.0
                &&& final(self).body@ == old(self).body@ + res.1
            }),
            final(self).allocas == old(self).allocas,
            final(self).heap_used == old(self).heap_used,
            final(self).same_setup(*old(self)),
    {
        let rows = a_rows.len() as u64;
        if main && rows == ctx.tile_i && crate::llt::parse_u64_text(bound) == Some(ctx.tile_j) && panel_lane0.is_none() && (
        ctx.packed.is_none() || panel_base.is_some()) {
            self.emit_tile_trio_vec(site, ctx, j0, row0, a_rows, b_row, panel_base);
        } else {
            self.emit_tile_trio_mem(site, ctx, j0, row0, a_rows, b_row, bound, main, panel_base, panel_lane0);
        }
    }

    /// The seed-or-reload / k-loop / spill trio for one j-tile of a
    /// `rows`-row i-block at one kc panel: subrow `r`'s lanes sit at
    /// `acc_base + r*TJ + lane`; the first panel seeds, later panels reload
    /// the partial sums parked in `out`; the k loop runs `[k_lo, k_hi)`
    /// with `a` from the packed panel; every panel spills back to `out`.
    /// The full constant-width main tile runs on `<TJ x elem>` phis.
    pub fn emit_tile_kc_trio(
        &mut self,
        site: &TileSite,
        ctx: &TileCtx,
        apack: &PackedBuffer,
        j0: &str,
        acc_base: &str,
        row0: &str,
        rows: u64,
        bound: &str,
        main: bool,
        panel_base: &str,
        panel_lane0: Option<&str>,
        k_lo: &str,
        k_hi: &str,
        first: bool,
    )
        requires
            old(self).next + 60 + 60 * rows <= u32::MAX,
            rows * ctx.tile_j <= u64::MAX,
            rows * site.c <= u64::MAX,
            rows * ctx.tile_kc <= u64::MAX,
            kc_vec_gate(*ctx, rows as nat, bound@, main) ==> align_ok(ctx.elem_llt@),
        ensures
            ({
                let res = kc_trio_text(
                    old(self).next as nat,
                    *site,
                    *ctx,
                    *apack,
                    j0@,
                    acc_base@,
                    row0@,
                    rows as nat,
                    bound@,
                    main,
                    panel_base@,
                    opt_str(panel_lane0),
                    k_lo@,
                    k_hi@,
                    first,
                );
                &&& final(self).next == res.0
                &&& final(self).body@ == old(self).body@ + res.1
            }),
            final(self).allocas == old(self).allocas,
            final(self).heap_used == old(self).heap_used,
            final(self).same_setup(*old(self)),
    {
        if main && rows == ctx.tile_i && crate::llt::parse_u64_text(bound) == Some(ctx.tile_j) {
            self.emit_tile_kc_trio_vec(site, ctx, apack, j0, row0, rows, panel_base, k_lo, k_hi, first);
        } else {
            self.emit_tile_kc_trio_mem(
                site, ctx, apack, j0, acc_base, row0, rows, bound, main, panel_base, panel_lane0, k_lo, k_hi, first,
            );
        }
    }
}

} // verus!
