//! The KC nest for packed sites with `K > KC`: j-blocks of `NC` lanes
//! outer, k-panels of `KC` next, the head / blocked / tail i regions
//! innermost. Per (i-block, panel) the block's `a` rows are packed into the
//! contiguous `apack` scratch, then the block's j-tiles run the KC trio;
//! partial sums are parked in `out` between panels (the first panel seeds).
use vstd::prelude::*;
use vstd::seq_lib::lemma_concat_associative;
use crate::access::{gep_line, latch_text, load_line, store_line};
use crate::arith::{branch_line, jump_line};
use crate::emit::{
    FnEmit, PackedBuffer, TileCtx, label_name, scratch_name, select_line, label_text, lemma_tile_index_counter, op_line, opt_text, row_window_text,
    term_views, tile_index_upto, tmp_name,
};
use crate::nest::j_open_text;
use crate::num;
use crate::site::TileSite;
use crate::llt::align_ok;
use crate::nest::{a_rows_text, base_text, block_close_text, block_open_text, lemma_a_rows_width, panel_base_text, tile_clip_text};
use crate::trio::{kc_trio_text, lemma_kc_trio_width, opt_str, opt_texts};

verus! {

/// The opening of a pack loop over `[k_lo, k_hi)`, ordinals `t..t+4`
/// (head `t`, body `t+1`, done `t+2`, `k` in `t+3`).
pub open spec fn apack_head_text(t: nat, ctx: TileCtx, k_lo: Seq<char>, k_hi: Seq<char>) -> Seq<char> {
    crate::tile::k_open_text(t, ctx, k_lo) + op_line(tmp_name(t + 4), "icmp uge"@, tmp_name(t + 3), k_hi) + branch_line(
        tmp_name(t + 4),
        label_name(t + 2),
        label_name(t + 1),
    ) + label_text(label_name(t + 1))
}

/// Reading `a[a_row + a.ck*k]`, ordinals from `t`: `(next, text, value)`.
pub open spec fn apack_read_text(t: nat, site: TileSite, ctx: TileCtx, a_row: Option<Seq<char>>, kk: Seq<char>) -> (
    nat,
    Seq<char>,
    Seq<char>,
) {
    let a = tile_index_upto(t, a_row, seq![(site.a.ck, kk)], 1);
    let a_index = match a.1 {
        Some(s) => s,
        None => "0"@,
    };
    let u = a.0;
    (
        u + 2,
        a.2 + gep_line(tmp_name(u), ctx.a_llt@, ctx.a_ptr@, a_index) + load_line(tmp_name(u + 1), ctx.elem_llt@, tmp_name(u)),
        tmp_name(u + 1),
    )
}

/// Storing `value` at `apack[r*KC + (k - k_lo)]`, ordinals from `u`.
pub open spec fn apack_store_text(
    u: nat,
    ctx: TileCtx,
    apack: PackedBuffer,
    kk: Seq<char>,
    k_lo: Seq<char>,
    r: nat,
    value: Seq<char>,
) -> (nat, Seq<char>) {
    let koff = tmp_name(u);
    let ix: (nat, Seq<char>, Seq<char>) = if r == 0 {
        (u + 1, Seq::empty(), koff)
    } else {
        (u + 2, op_line(tmp_name(u + 1), "add"@, koff, num::dec_nat((r * ctx.tile_kc) as nat)), tmp_name(u + 1))
    };
    let w = ix.0;
    (
        w + 1,
        op_line(koff, "sub"@, kk, k_lo) + ix.1 + gep_line(tmp_name(w), apack.llt@, apack.ptr@, ix.2) + store_line(
            ctx.elem_llt@,
            value,
            tmp_name(w),
        ),
    )
}

/// One pack step of subrow `r` at `k` (in `t+3` of the loop opened at `t`),
/// ordinals from `t+5`: `apack[r*KC + (k - k_lo)] = a[a_row + a.ck*k]`,
/// then `k += 1`.
pub open spec fn apack_body_text(
    t: nat,
    site: TileSite,
    ctx: TileCtx,
    apack: PackedBuffer,
    a_row: Option<Seq<char>>,
    k_lo: Seq<char>,
    r: nat,
) -> (nat, Seq<char>) {
    let kk = tmp_name(t + 3);
    let rd = apack_read_text(t + 5, site, ctx, a_row, kk);
    let st = apack_store_text(rd.0, ctx, apack, kk, k_lo, r, rd.2);
    (st.0 + 1, rd.1 + st.1 + latch_text(tmp_name(st.0), kk, ctx.k_ctr@, label_name(t), label_name(t + 2)))
}

/// Packing subrow `r`'s `a` row over `[k_lo, k_hi)` into
/// `apack[r*KC + (k - k_lo)]`, ordinals from `t`.
#[verifier::opaque]
pub open spec fn apack_row_text(
    t: nat,
    site: TileSite,
    ctx: TileCtx,
    apack: PackedBuffer,
    a_row: Option<Seq<char>>,
    k_lo: Seq<char>,
    k_hi: Seq<char>,
    r: nat,
) -> (nat, Seq<char>) {
    let body = apack_body_text(t, site, ctx, apack, a_row, k_lo, r);
    (body.0, apack_head_text(t, ctx, k_lo, k_hi) + body.1)
}

proof fn lemma_apack_row_width(
    t: nat,
    site: TileSite,
    ctx: TileCtx,
    apack: PackedBuffer,
    a_row: Option<Seq<char>>,
    k_lo: Seq<char>,
    k_hi: Seq<char>,
    r: nat,
)
    ensures
        t <= apack_row_text(t, site, ctx, apack, a_row, k_lo, k_hi, r).0 <= t + 13,
{
    reveal(apack_row_text);
    lemma_tile_index_counter(t + 5, a_row, seq![(site.a.ck, tmp_name(t + 3))], 1);
}

/// Packing the first `n` subrows, ordinals from `t`.
pub open spec fn apack_rows_text(
    t: nat,
    site: TileSite,
    ctx: TileCtx,
    apack: PackedBuffer,
    a_rows: Seq<Option<Seq<char>>>,
    k_lo: Seq<char>,
    k_hi: Seq<char>,
    n: nat,
) -> (nat, Seq<char>)
    decreases n,
{
    if n == 0 {
        (t, Seq::empty())
    } else {
        let prev = apack_rows_text(t, site, ctx, apack, a_rows, k_lo, k_hi, (n - 1) as nat);
        let row = apack_row_text(prev.0, site, ctx, apack, a_rows[n - 1], k_lo, k_hi, (n - 1) as nat);
        (row.0, prev.1 + row.1)
    }
}

proof fn lemma_apack_rows_width(
    t: nat,
    site: TileSite,
    ctx: TileCtx,
    apack: PackedBuffer,
    a_rows: Seq<Option<Seq<char>>>,
    k_lo: Seq<char>,
    k_hi: Seq<char>,
    n: nat,
)
    ensures
        t <= apack_rows_text(t, site, ctx, apack, a_rows, k_lo, k_hi, n).0 <= t + 13 * n,
    decreases n,
{
    if n > 0 {
        lemma_apack_rows_width(t, site, ctx, apack, a_rows, k_lo, k_hi, (n - 1) as nat);
        let prev = apack_rows_text(t, site, ctx, apack, a_rows, k_lo, k_hi, (n - 1) as nat);
        lemma_apack_row_width(prev.0, site, ctx, apack, a_rows[n - 1], k_lo, k_hi, (n - 1) as nat);
    }
}

/// One window-clipped j-tile of a KC boundary row, ordinals from `t`: the
/// tile's panel base, the clip of `[j0, j0 + bound)` to `[jw_lo, jw_hi)`;
/// when lanes are left, the one-row KC trio over them from `tile_lo` at
/// accumulator base 0 and panel lane `tile_lo - j0`.
#[verifier::opaque]
pub open spec fn kc_boundary_tile_text(
    t: nat,
    site: TileSite,
    ctx: TileCtx,
    row0: Seq<char>,
    jw_lo: Seq<char>,
    jw_hi: Seq<char>,
    j0: Seq<char>,
    bound: Seq<char>,
    main: bool,
    apack: PackedBuffer,
    k_lo: Seq<char>,
    k_hi: Seq<char>,
    first: bool,
) -> (nat, Seq<char>) {
    let tr = kc_trio_text(
        t + 12,
        site,
        ctx,
        apack,
        tmp_name(t + 4),
        "0"@,
        row0,
        1,
        tmp_name(t + 10),
        main,
        tmp_name(t + 1),
        Some(tmp_name(t + 11)),
        k_lo,
        k_hi,
        first,
    );
    (
        tr.0,
        panel_base_text(t, site, ctx, j0) + tile_clip_text(t + 2, jw_lo, jw_hi, j0, bound) + branch_line(
            tmp_name(t + 7),
            label_name(t + 8),
            label_name(t + 9),
        ) + label_text(label_name(t + 8)) + op_line(tmp_name(t + 10), "sub"@, tmp_name(t + 6), tmp_name(t + 4)) + op_line(
            tmp_name(t + 11),
            "sub"@,
            tmp_name(t + 4),
            j0,
        ) + tr.1 + jump_line(label_name(t + 9)) + label_text(label_name(t + 9)),
    )
}

/// After a KC main tile, ordinals from `u` (the loop opened at `t`): `j +=
/// TJ` and back to the head; the remainder check enters the remainder only
/// while `j0 < jb_end`, its width `jb_end - j0` in `u+2`.
pub open spec fn kc_step_text(u: nat, t: nat, j_ctr: Seq<char>, jb_end: Seq<char>, tile_j: u64) -> Seq<char> {
    let j0 = tmp_name(t + 5);
    op_line(tmp_name(u), "add"@, j0, num::dec_nat(tile_j as nat)) + store_line("i64"@, tmp_name(u), j_ctr) + jump_line(
        label_name(t),
    ) + label_text(label_name(t + 2)) + op_line(tmp_name(u + 1), "icmp ult"@, j0, jb_end) + branch_line(
        tmp_name(u + 1),
        label_name(t + 3),
        label_name(t + 4),
    ) + label_text(label_name(t + 3)) + op_line(tmp_name(u + 2), "sub"@, jb_end, j0)
}

/// The jb block's j-tiles for one interior block at one kc panel, ordinals
/// from `t`: main tiles at the literal width while `j0 + TJ <= jb_end`,
/// then one remainder at `jb_end - j0`, each the `rows`-row KC trio at
/// accumulator base 0 on its panel base.
#[verifier::opaque]
pub open spec fn kc_j_split_text(
    t: nat,
    site: TileSite,
    ctx: TileCtx,
    j_ctr: Seq<char>,
    jb0: Seq<char>,
    jb_end: Seq<char>,
    row0: Seq<char>,
    rows: nat,
    apack: PackedBuffer,
    k_lo: Seq<char>,
    k_hi: Seq<char>,
    first: bool,
) -> (nat, Seq<char>) {
    let j0 = tmp_name(t + 5);
    let main = kc_trio_text(
        t + 10,
        site,
        ctx,
        apack,
        j0,
        "0"@,
        row0,
        rows,
        num::dec_nat(ctx.tile_j as nat),
        true,
        tmp_name(t + 9),
        None,
        k_lo,
        k_hi,
        first,
    );
    let u = main.0;
    let rem = kc_trio_text(
        u + 5,
        site,
        ctx,
        apack,
        j0,
        "0"@,
        row0,
        rows,
        tmp_name(u + 2),
        false,
        tmp_name(u + 4),
        None,
        k_lo,
        k_hi,
        first,
    );
    (
        rem.0,
        j_open_text(t, j_ctr, jb0, jb_end, ctx.tile_j) + panel_base_text(t + 8, site, ctx, j0) + main.1 + kc_step_text(
            u,
            t,
            j_ctr,
            jb_end,
            ctx.tile_j,
        ) + panel_base_text(u + 3, site, ctx, j0) + rem.1 + jump_line(label_name(t + 4)) + label_text(label_name(t + 4)),
    )
}

/// One `TI = 1` boundary row of the KC nest, ordinals from `t`: `row0`, the
/// row's window, its `a` row base, the one-row `a` panel pack, then the jb
/// block's j-tiles, each clipped to the window.
#[verifier::opaque]
pub open spec fn kc_boundary_row_text(
    t: nat,
    site: TileSite,
    ctx: TileCtx,
    lo: Seq<char>,
    hi: Seq<char>,
    i: Seq<char>,
    j_ctr: Seq<char>,
    apack: PackedBuffer,
    jb0: Seq<char>,
    jb_end: Seq<char>,
    k_lo: Seq<char>,
    k_hi: Seq<char>,
    first: bool,
) -> (nat, Seq<char>) {
    let row0 = tmp_name(t);
    let a = tile_index_upto(t + 7, base_text(site.a.base), seq![(site.a.ci, i)], 1);
    let ap = apack_rows_text(a.0, site, ctx, apack, seq![a.1], k_lo, k_hi, 1);
    let s = ap.0;
    let j0 = tmp_name(s + 5);
    let main = kc_boundary_tile_text(
        s + 8,
        site,
        ctx,
        row0,
        tmp_name(t + 3),
        tmp_name(t + 6),
        j0,
        num::dec_nat(ctx.tile_j as nat),
        true,
        apack,
        k_lo,
        k_hi,
        first,
    );
    let u = main.0;
    let rem = kc_boundary_tile_text(
        u + 3,
        site,
        ctx,
        row0,
        tmp_name(t + 3),
        tmp_name(t + 6),
        j0,
        tmp_name(u + 2),
        false,
        apack,
        k_lo,
        k_hi,
        first,
    );
    (
        rem.0,
        op_line(row0, "mul"@, i, num::dec_nat(site.c as nat)) + row_window_text(t + 1, lo, hi, row0, site.c) + a.2 + ap.1
            + j_open_text(s, j_ctr, jb0, jb_end, ctx.tile_j) + main.1 + kc_step_text(u, s, j_ctr, jb_end, ctx.tile_j)
            + rem.1 + jump_line(label_name(s + 4)) + label_text(label_name(s + 4)),
    )
}

/// What the KC trio needs of a site and context for `rows` subrows.
pub open spec fn kc_fits(site: TileSite, ctx: TileCtx, rows: nat) -> bool {
    &&& rows * ctx.tile_j <= u64::MAX
    &&& rows * site.c <= u64::MAX
    &&& rows * ctx.tile_kc <= u64::MAX
    &&& site.k * ctx.tile_j <= u64::MAX
    &&& align_ok(ctx.elem_llt@)
}

/// A `TI = 1` row loop of the KC nest, ordinals from `t` (head `t`, body
/// `t+1`, done `t+2`, `i` in `t+3`): `i` starts at `start` when given
/// (else where the counter stands) and runs while `i < end`, one KC
/// boundary row per trip.
#[verifier::opaque]
pub open spec fn kc_row_loop_text(
    t: nat,
    site: TileSite,
    ctx: TileCtx,
    i_ctr: Seq<char>,
    j_ctr: Seq<char>,
    lo: Seq<char>,
    hi: Seq<char>,
    start: Option<Seq<char>>,
    end: Seq<char>,
    apack: PackedBuffer,
    jb0: Seq<char>,
    jb_end: Seq<char>,
    k_lo: Seq<char>,
    k_hi: Seq<char>,
    first: bool,
) -> (nat, Seq<char>) {
    let i = tmp_name(t + 3);
    let init = match start {
        Some(s) => store_line("i64"@, s, i_ctr),
        None => Seq::empty(),
    };
    let open = init + jump_line(label_name(t)) + label_text(label_name(t)) + load_line(i, "i64"@, i_ctr) + op_line(
        tmp_name(t + 4),
        "icmp uge"@,
        i,
        end,
    ) + branch_line(tmp_name(t + 4), label_name(t + 2), label_name(t + 1)) + label_text(label_name(t + 1));
    let row = kc_boundary_row_text(t + 5, site, ctx, lo, hi, i, j_ctr, apack, jb0, jb_end, k_lo, k_hi, first);
    (row.0 + 1, open + row.1 + latch_text(tmp_name(row.0), i, i_ctr, label_name(t), label_name(t + 2)))
}

/// The `TI`-blocked interior of one kc panel, ordinals from `t`: per
/// block, `row0`, the subrows' `a` row bases, their `a` panel pack, then
/// the jb block's j-tiles for all `TI` subrows.
#[verifier::opaque]
pub open spec fn kc_block_text(
    t: nat,
    site: TileSite,
    ctx: TileCtx,
    i_ctr: Seq<char>,
    j_ctr: Seq<char>,
    i_fw_lo: Seq<char>,
    i_fw_hi: Seq<char>,
    apack: PackedBuffer,
    jb0: Seq<char>,
    jb_end: Seq<char>,
    k_lo: Seq<char>,
    k_hi: Seq<char>,
    first: bool,
) -> (nat, Seq<char>) {
    let ti = ctx.tile_i as nat;
    let a = a_rows_text(t + 7, site, tmp_name(t + 3), ti);
    let ap = apack_rows_text(a.0, site, ctx, apack, a.2, k_lo, k_hi, ti);
    let js = kc_j_split_text(ap.0, site, ctx, j_ctr, jb0, jb_end, tmp_name(t + 6), ti, apack, k_lo, k_hi, first);
    (js.0, block_open_text(t, site, ctx, i_ctr, i_fw_lo, i_fw_hi) + a.1 + ap.1 + js.1 + block_close_text(t, i_ctr))
}

/// One kc panel's i sweep, ordinals from `t`: the head boundary rows
/// `[i_lo, i_fw_lo)`, the `TI`-blocked interior from `i_fw_lo` while whole
/// blocks fit below `i_fw_hi`, then the remaining rows up to `i_hi`.
#[verifier::opaque]
pub open spec fn kc_i_regions_text(
    t: nat,
    site: TileSite,
    ctx: TileCtx,
    i_ctr: Seq<char>,
    j_ctr: Seq<char>,
    lo: Seq<char>,
    hi: Seq<char>,
    i_lo: Seq<char>,
    i_hi: Seq<char>,
    i_fw_lo: Seq<char>,
    i_fw_hi: Seq<char>,
    apack: PackedBuffer,
    jb0: Seq<char>,
    jb_end: Seq<char>,
    k_lo: Seq<char>,
    k_hi: Seq<char>,
    first: bool,
) -> (nat, Seq<char>) {
    let head = kc_row_loop_text(t, site, ctx, i_ctr, j_ctr, lo, hi, Some(i_lo), i_fw_lo, apack, jb0, jb_end, k_lo, k_hi, first);
    let blk = kc_block_text(head.0, site, ctx, i_ctr, j_ctr, i_fw_lo, i_fw_hi, apack, jb0, jb_end, k_lo, k_hi, first);
    let tail = kc_row_loop_text(blk.0, site, ctx, i_ctr, j_ctr, lo, hi, None, i_hi, apack, jb0, jb_end, k_lo, k_hi, first);
    (tail.0, head.1 + blk.1 + tail.1)
}

/// A fresh `i64` scratch slot's alloca line.
pub open spec fn scratch_alloca(n: nat) -> Seq<char> {
    "  "@ + scratch_name(n) + " = alloca "@ + "i64"@ + "\n"@
}

/// The opening of the jb loop, ordinals from `t` (jb counter `%s<t>`,
/// head `t+2`, body `t+3`, done `t+4`, `jb0` in `t+8`): the block's lane
/// window `[jb0, jb_end)` is `NC` wide, clipped to `C` on the last block,
/// `jb_end` in `t+12`.
pub open spec fn jb_open_text(t: nat, site: TileSite, nc: u64) -> Seq<char> {
    let cs = num::dec_nat(site.c as nat);
    let jb0 = tmp_name(t + 8);
    store_line("i64"@, "0"@, scratch_name(t)) + jump_line(label_name(t + 2)) + label_text(label_name(t + 2)) + load_line(
        jb0,
        "i64"@,
        scratch_name(t),
    ) + op_line(tmp_name(t + 9), "icmp uge"@, jb0, cs) + branch_line(tmp_name(t + 9), label_name(t + 4), label_name(t + 3))
        + label_text(label_name(t + 3)) + op_line(tmp_name(t + 10), "add"@, jb0, num::dec_nat(nc as nat)) + op_line(
        tmp_name(t + 11),
        "icmp ugt"@,
        tmp_name(t + 10),
        cs,
    ) + select_line(tmp_name(t + 12), tmp_name(t + 11), cs, tmp_name(t + 10))
}

/// The opening of the kc loop over the later panels, ordinals from `u` (kc
/// counter `%s<t+1>`, head `t+5`, body `t+6`, done `t+7`): `kc` from `KC`
/// in `u` while `kc < K`, the panel's end `min(kc + KC, K)` in `u+4`.
pub open spec fn kc_open_text(u: nat, t: nat, site: TileSite, ctx: TileCtx) -> Seq<char> {
    let ks = num::dec_nat(site.k as nat);
    let kcs = num::dec_nat(ctx.tile_kc as nat);
    let kc = tmp_name(u);
    store_line("i64"@, kcs, scratch_name(t + 1)) + jump_line(label_name(t + 5)) + label_text(label_name(t + 5)) + load_line(
        kc,
        "i64"@,
        scratch_name(t + 1),
    ) + op_line(tmp_name(u + 1), "icmp uge"@, kc, ks) + branch_line(tmp_name(u + 1), label_name(t + 7), label_name(t + 6))
        + label_text(label_name(t + 6)) + op_line(tmp_name(u + 2), "add"@, kc, kcs) + op_line(
        tmp_name(u + 3),
        "icmp ugt"@,
        tmp_name(u + 2),
        ks,
    ) + select_line(tmp_name(u + 4), tmp_name(u + 3), ks, tmp_name(u + 2))
}

/// The closing of both loops, ordinals from `v` (`kc` in `u`): `kc += KC`
/// and back to the kc head; then `jb0 += NC` and back to the jb head.
pub open spec fn kc_close_text(v: nat, u: nat, t: nat, ctx: TileCtx, nc: u64) -> Seq<char> {
    op_line(tmp_name(v), "add"@, tmp_name(u), num::dec_nat(ctx.tile_kc as nat)) + store_line(
        "i64"@,
        tmp_name(v),
        scratch_name(t + 1),
    ) + jump_line(label_name(t + 5)) + label_text(label_name(t + 7)) + op_line(
        tmp_name(v + 1),
        "add"@,
        tmp_name(t + 8),
        num::dec_nat(nc as nat),
    ) + store_line("i64"@, tmp_name(v + 1), scratch_name(t)) + jump_line(label_name(t + 2)) + label_text(label_name(t + 4))
}

/// The KC nest, ordinals from `t`: j-blocks `[jb0, jb_end)` of `NC` lanes
/// outer; per block the peeled first panel `[0, KC)` (seeding), then the
/// later panels from `KC` while `kc < K`, each `[kc, min(kc + KC, K))`
/// (reloading), each panel's i sweep innermost.
#[verifier::opaque]
pub open spec fn packed_kc_text(
    t: nat,
    site: TileSite,
    ctx: TileCtx,
    i_ctr: Seq<char>,
    j_ctr: Seq<char>,
    lo: Seq<char>,
    hi: Seq<char>,
    i_lo: Seq<char>,
    i_hi: Seq<char>,
    i_fw_lo: Seq<char>,
    i_fw_hi: Seq<char>,
    apack: PackedBuffer,
    nc: u64,
) -> (nat, Seq<char>) {
    let jb0 = tmp_name(t + 8);
    let jb_end = tmp_name(t + 12);
    let r1 = kc_i_regions_text(
        t + 13,
        site,
        ctx,
        i_ctr,
        j_ctr,
        lo,
        hi,
        i_lo,
        i_hi,
        i_fw_lo,
        i_fw_hi,
        apack,
        jb0,
        jb_end,
        "0"@,
        num::dec_nat(ctx.tile_kc as nat),
        true,
    );
    let u = r1.0;
    let r2 = kc_i_regions_text(
        u + 5,
        site,
        ctx,
        i_ctr,
        j_ctr,
        lo,
        hi,
        i_lo,
        i_hi,
        i_fw_lo,
        i_fw_hi,
        apack,
        jb0,
        jb_end,
        tmp_name(u),
        tmp_name(u + 4),
        false,
    );
    (
        r2.0 + 2,
        jb_open_text(t, site, nc) + r1.1 + kc_open_text(u, t, site, ctx) + r2.1 + kc_close_text(r2.0, u, t, ctx, nc),
    )
}

proof fn lemma_kc_tile_width(
    t: nat,
    site: TileSite,
    ctx: TileCtx,
    row0: Seq<char>,
    jw_lo: Seq<char>,
    jw_hi: Seq<char>,
    j0: Seq<char>,
    bound: Seq<char>,
    main: bool,
    apack: PackedBuffer,
    k_lo: Seq<char>,
    k_hi: Seq<char>,
    first: bool,
    j_ctr: Seq<char>,
    jb0: Seq<char>,
    jb_end: Seq<char>,
    rows: nat,
)
    ensures
        t <= kc_boundary_tile_text(t, site, ctx, row0, jw_lo, jw_hi, j0, bound, main, apack, k_lo, k_hi, first).0 <= t + 132,
        t <= kc_j_split_text(t, site, ctx, j_ctr, jb0, jb_end, row0, rows, apack, k_lo, k_hi, first).0 <= t + 135 + 120 * rows,
{
    reveal(kc_boundary_tile_text);
    reveal(kc_j_split_text);
    lemma_kc_trio_width(
        t + 12,
        site,
        ctx,
        apack,
        tmp_name(t + 4),
        "0"@,
        row0,
        1,
        tmp_name(t + 10),
        main,
        tmp_name(t + 1),
        Some(tmp_name(t + 11)),
        k_lo,
        k_hi,
        first,
    );
    let tj = num::dec_nat(ctx.tile_j as nat);
    lemma_kc_trio_width(t + 10, site, ctx, apack, tmp_name(t + 5), "0"@, row0, rows, tj, true, tmp_name(t + 9), None, k_lo, k_hi, first);
    let m = kc_trio_text(t + 10, site, ctx, apack, tmp_name(t + 5), "0"@, row0, rows, tj, true, tmp_name(t + 9), None, k_lo, k_hi, first);
    lemma_kc_trio_width(
        m.0 + 5,
        site,
        ctx,
        apack,
        tmp_name(t + 5),
        "0"@,
        row0,
        rows,
        tmp_name(m.0 + 2),
        false,
        tmp_name(m.0 + 4),
        None,
        k_lo,
        k_hi,
        first,
    );
}

proof fn lemma_kc_boundary_row_width(
    t: nat,
    site: TileSite,
    ctx: TileCtx,
    lo: Seq<char>,
    hi: Seq<char>,
    i: Seq<char>,
    j_ctr: Seq<char>,
    apack: PackedBuffer,
    jb0: Seq<char>,
    jb_end: Seq<char>,
    k_lo: Seq<char>,
    k_hi: Seq<char>,
    first: bool,
)
    ensures
        t <= kc_boundary_row_text(t, site, ctx, lo, hi, i, j_ctr, apack, jb0, jb_end, k_lo, k_hi, first).0 <= t + 300,
{
    reveal(kc_boundary_row_text);
    let tv = seq![(site.a.ci, i)];
    lemma_tile_index_counter(t + 7, base_text(site.a.base), tv, 1);
    let a = tile_index_upto(t + 7, base_text(site.a.base), tv, 1);
    lemma_apack_rows_width(a.0, site, ctx, apack, seq![a.1], k_lo, k_hi, 1);
    let s = apack_rows_text(a.0, site, ctx, apack, seq![a.1], k_lo, k_hi, 1).0;
    let tj = num::dec_nat(ctx.tile_j as nat);
    lemma_kc_tile_width(s + 8, site, ctx, tmp_name(t), tmp_name(t + 3), tmp_name(t + 6), tmp_name(s + 5), tj, true, apack, k_lo, k_hi, first, j_ctr, jb0, jb_end, 1);
    let m = kc_boundary_tile_text(s + 8, site, ctx, tmp_name(t), tmp_name(t + 3), tmp_name(t + 6), tmp_name(s + 5), tj, true, apack, k_lo, k_hi, first);
    lemma_kc_tile_width(m.0 + 3, site, ctx, tmp_name(t), tmp_name(t + 3), tmp_name(t + 6), tmp_name(s + 5), tmp_name(m.0 + 2), false, apack, k_lo, k_hi, first, j_ctr, jb0, jb_end, 1);
}

proof fn lemma_kc_row_loop_width(
    t: nat,
    site: TileSite,
    ctx: TileCtx,
    i_ctr: Seq<char>,
    j_ctr: Seq<char>,
    lo: Seq<char>,
    hi: Seq<char>,
    start: Option<Seq<char>>,
    end: Seq<char>,
    apack: PackedBuffer,
    jb0: Seq<char>,
    jb_end: Seq<char>,
    k_lo: Seq<char>,
    k_hi: Seq<char>,
    first: bool,
)
    ensures
        t <= kc_row_loop_text(t, site, ctx, i_ctr, j_ctr, lo, hi, start, end, apack, jb0, jb_end, k_lo, k_hi, first).0
            <= t + 306,
{
    reveal(kc_row_loop_text);
    lemma_kc_boundary_row_width(t + 5, site, ctx, lo, hi, tmp_name(t + 3), j_ctr, apack, jb0, jb_end, k_lo, k_hi, first);
}

proof fn lemma_kc_block_width(
    t: nat,
    site: TileSite,
    ctx: TileCtx,
    i_ctr: Seq<char>,
    j_ctr: Seq<char>,
    i_fw_lo: Seq<char>,
    i_fw_hi: Seq<char>,
    apack: PackedBuffer,
    jb0: Seq<char>,
    jb_end: Seq<char>,
    k_lo: Seq<char>,
    k_hi: Seq<char>,
    first: bool,
)
    ensures
        t <= kc_block_text(t, site, ctx, i_ctr, j_ctr, i_fw_lo, i_fw_hi, apack, jb0, jb_end, k_lo, k_hi, first).0
            <= t + 142 + 135 * ctx.tile_i,
{
    reveal(kc_block_text);
    let ti = ctx.tile_i as nat;
    lemma_a_rows_width(t + 7, site, tmp_name(t + 3), ti);
    let a = a_rows_text(t + 7, site, tmp_name(t + 3), ti);
    lemma_apack_rows_width(a.0, site, ctx, apack, a.2, k_lo, k_hi, ti);
    let ap = apack_rows_text(a.0, site, ctx, apack, a.2, k_lo, k_hi, ti);
    lemma_kc_tile_width(ap.0, site, ctx, tmp_name(t + 6), jb0, jb0, jb0, jb0, true, apack, k_lo, k_hi, first, j_ctr, jb0, jb_end, ti);
}

/// The KC i sweep takes at most `754 + 135*TI` ordinals.
pub proof fn lemma_kc_i_regions_width(
    t: nat,
    site: TileSite,
    ctx: TileCtx,
    i_ctr: Seq<char>,
    j_ctr: Seq<char>,
    lo: Seq<char>,
    hi: Seq<char>,
    i_lo: Seq<char>,
    i_hi: Seq<char>,
    i_fw_lo: Seq<char>,
    i_fw_hi: Seq<char>,
    apack: PackedBuffer,
    jb0: Seq<char>,
    jb_end: Seq<char>,
    k_lo: Seq<char>,
    k_hi: Seq<char>,
    first: bool,
)
    ensures
        t <= kc_i_regions_text(t, site, ctx, i_ctr, j_ctr, lo, hi, i_lo, i_hi, i_fw_lo, i_fw_hi, apack, jb0, jb_end, k_lo, k_hi, first).0
            <= t + 754 + 135 * ctx.tile_i,
{
    reveal(kc_i_regions_text);
    lemma_kc_row_loop_width(t, site, ctx, i_ctr, j_ctr, lo, hi, Some(i_lo), i_fw_lo, apack, jb0, jb_end, k_lo, k_hi, first);
    let head = kc_row_loop_text(t, site, ctx, i_ctr, j_ctr, lo, hi, Some(i_lo), i_fw_lo, apack, jb0, jb_end, k_lo, k_hi, first);
    lemma_kc_block_width(head.0, site, ctx, i_ctr, j_ctr, i_fw_lo, i_fw_hi, apack, jb0, jb_end, k_lo, k_hi, first);
    let blk = kc_block_text(head.0, site, ctx, i_ctr, j_ctr, i_fw_lo, i_fw_hi, apack, jb0, jb_end, k_lo, k_hi, first);
    lemma_kc_row_loop_width(blk.0, site, ctx, i_ctr, j_ctr, lo, hi, None, i_hi, apack, jb0, jb_end, k_lo, k_hi, first);
}

/// The KC nest takes at most `1528 + 270*TI` ordinals.
pub proof fn lemma_packed_kc_width(
    t: nat,
    site: TileSite,
    ctx: TileCtx,
    i_ctr: Seq<char>,
    j_ctr: Seq<char>,
    lo: Seq<char>,
    hi: Seq<char>,
    i_lo: Seq<char>,
    i_hi: Seq<char>,
    i_fw_lo: Seq<char>,
    i_fw_hi: Seq<char>,
    apack: PackedBuffer,
    nc: u64,
)
    ensures
        t <= packed_kc_text(t, site, ctx, i_ctr, j_ctr, lo, hi, i_lo, i_hi, i_fw_lo, i_fw_hi, apack, nc).0
            <= t + 1528 + 270 * ctx.tile_i,
{
    reveal(packed_kc_text);
    let kcs = num::dec_nat(ctx.tile_kc as nat);
    lemma_kc_i_regions_width(t + 13, site, ctx, i_ctr, j_ctr, lo, hi, i_lo, i_hi, i_fw_lo, i_fw_hi, apack, tmp_name(t + 8), tmp_name(t + 12), "0"@, kcs, true);
    let r1 = kc_i_regions_text(t + 13, site, ctx, i_ctr, j_ctr, lo, hi, i_lo, i_hi, i_fw_lo, i_fw_hi, apack, tmp_name(t + 8), tmp_name(t + 12), "0"@, kcs, true);
    lemma_kc_i_regions_width(r1.0 + 5, site, ctx, i_ctr, j_ctr, lo, hi, i_lo, i_hi, i_fw_lo, i_fw_hi, apack, tmp_name(t + 8), tmp_name(t + 12), tmp_name(r1.0), tmp_name(r1.0 + 4), false);
}

impl<'a> FnEmit<'a> {
    /// Open a pack loop over `[k_lo, k_hi)`; returns the head and done
    /// labels and `k`.
    fn emit_apack_head(&mut self, ctx: &TileCtx, k_lo: &str, k_hi: &str) -> (r: (String, String, String))
        requires
            old(self).next + 5 <= u32::MAX,
        ensures
            ({
                let t = old(self).next as nat;
                &&& r.0@ == label_name(t)
                &&& r.1@ == label_name(t + 2)
                &&& r.2@ == tmp_name(t + 3)
                &&& final(self).body@ == old(self).body@ + apack_head_text(t, *ctx, k_lo@, k_hi@)
            }),
            final(self).next == old(self).next + 5,
            final(self).allocas == old(self).allocas,
            final(self).heap_used == old(self).heap_used,
            final(self).same_setup(*old(self)),
    {
        let ghost t = old(self).next as nat;
        let ghost o = old(self).body@;
        let (head, body, done, kk) = self.emit_k_open(ctx, k_lo);
        let ghost w1 = crate::tile::k_open_text(t, *ctx, k_lo@);
        let all_k = self.emit_op("icmp uge", kk.as_str(), k_hi);
        let ghost p2 = op_line(tmp_name(t + 4), "icmp uge"@, tmp_name(t + 3), k_hi@);
        proof {
            lemma_concat_associative(o, w1, p2);
        }
        self.branch(all_k.as_str(), done.as_str(), body.as_str());
        let ghost p3 = branch_line(tmp_name(t + 4), label_name(t + 2), label_name(t + 1));
        proof {
            lemma_concat_associative(o, w1 + p2, p3);
        }
        self.label_line(body.as_str());
        proof {
            lemma_concat_associative(o, w1 + p2 + p3, label_text(label_name(t + 1)));
        }
        (head, done, kk)
    }

    /// Read `a[a_row + a.ck*k]`; returns it.
    fn emit_apack_read(&mut self, site: &TileSite, ctx: &TileCtx, a_row: &Option<String>, kk: &str) -> (v: String)
        requires
            old(self).next + 4 <= u32::MAX,
        ensures
            ({
                let res = apack_read_text(old(self).next as nat, *site, *ctx, opt_text(*a_row), kk@);
                &&& final(self).next == res.0
                &&& final(self).body@ == old(self).body@ + res.1
                &&& v@ == res.2
            }),
            final(self).allocas == old(self).allocas,
            final(self).heap_used == old(self).heap_used,
            final(self).same_setup(*old(self)),
    {
        let ghost t = old(self).next as nat;
        let ghost o = old(self).body@;
        let base = match a_row {
            Some(b) => Some(b.clone()),
            None => None,
        };
        let terms = [(site.a.ck, kk)];
        let ghost tv = seq![(site.a.ck, kk@)];
        assert(term_views(terms@) =~= tv);
        proof {
            lemma_tile_index_counter(t, opt_text(*a_row), tv, 1);
        }
        let a_index = match self.emit_tile_index(base, &terms) {
            Some(s) => s,
            None => String::from_str("0"),
        };
        let ghost a = tile_index_upto(t, opt_text(*a_row), tv, 1);
        let ghost u = a.0;
        let ghost a_idx = match a.1 {
            Some(s) => s,
            None => "0"@,
        };
        let a_ptr = self.emit_gep(ctx.a_llt.as_str(), ctx.a_ptr.as_str(), a_index.as_str());
        let ghost p6 = gep_line(tmp_name(u), ctx.a_llt@, ctx.a_ptr@, a_idx);
        proof {
            lemma_concat_associative(o, a.2, p6);
        }
        let value = self.emit_load(ctx.elem_llt.as_str(), a_ptr.as_str());
        proof {
            lemma_concat_associative(o, a.2 + p6, load_line(tmp_name(u + 1), ctx.elem_llt@, tmp_name(u)));
        }
        value
    }

    /// Store `value` at `apack[r*KC + (k - k_lo)]`.
    fn emit_apack_store(&mut self, ctx: &TileCtx, apack: &PackedBuffer, kk: &str, k_lo: &str, r: u64, value: &str)
        requires
            old(self).next + 3 <= u32::MAX,
            r * ctx.tile_kc <= u64::MAX,
        ensures
            ({
                let res = apack_store_text(old(self).next as nat, *ctx, *apack, kk@, k_lo@, r as nat, value@);
                &&& final(self).next == res.0
                &&& final(self).body@ == old(self).body@ + res.1
            }),
            final(self).allocas == old(self).allocas,
            final(self).heap_used == old(self).heap_used,
            final(self).same_setup(*old(self)),
    {
        let ghost u = old(self).next as nat;
        let ghost o = old(self).body@;
        let koff = self.emit_op("sub", kk, k_lo);
        let ghost p1 = op_line(tmp_name(u), "sub"@, kk@, k_lo@);
        let apack_index = if r == 0 {
            koff
        } else {
            let off = num::u64_to_string(r * ctx.tile_kc);
            self.emit_op("add", koff.as_str(), off.as_str())
        };
        let ghost ix: (nat, Seq<char>, Seq<char>) = if r == 0 {
            (u + 1, Seq::empty(), tmp_name(u))
        } else {
            (u + 2, op_line(tmp_name(u + 1), "add"@, tmp_name(u), num::dec_nat((r * ctx.tile_kc) as nat)), tmp_name(u + 1))
        };
        assert(self.body@ == o + (p1 + ix.1)) by {
            if r == 0 {
                assert(p1 + ix.1 =~= p1);
            } else {
                lemma_concat_associative(o, p1, ix.1);
            }
        }
        let apack_ptr = self.emit_gep(apack.llt.as_str(), apack.ptr.as_str(), apack_index.as_str());
        let ghost p3 = gep_line(tmp_name(ix.0), apack.llt@, apack.ptr@, ix.2);
        proof {
            lemma_concat_associative(o, p1 + ix.1, p3);
        }
        self.emit_store(ctx.elem_llt.as_str(), value, apack_ptr.as_str());
        proof {
            lemma_concat_associative(o, p1 + ix.1 + p3, store_line(ctx.elem_llt@, value@, tmp_name(ix.0)));
        }
    }

    /// One pack step of subrow `r` at `k`, then `k += 1`.
    #[verifier::spinoff_prover]
    fn emit_apack_body(
        &mut self,
        site: &TileSite,
        ctx: &TileCtx,
        apack: &PackedBuffer,
        a_row: &Option<String>,
        k_lo: &str,
        r: u64,
        head: &str,
        done: &str,
        kk: &str,
        Ghost(t): Ghost<nat>,
    )
        requires
            old(self).next == t + 5,
            old(self).next + 8 <= u32::MAX,
            r * ctx.tile_kc <= u64::MAX,
            head@ == label_name(t),
            done@ == label_name(t + 2),
            kk@ == tmp_name(t + 3),
        ensures
            ({
                let res = apack_body_text(t, *site, *ctx, *apack, opt_text(*a_row), k_lo@, r as nat);
                &&& final(self).next == res.0
                &&& final(self).body@ == old(self).body@ + res.1
            }),
            final(self).allocas == old(self).allocas,
            final(self).heap_used == old(self).heap_used,
            final(self).same_setup(*old(self)),
    {
        let ghost o = old(self).body@;
        proof {
            lemma_tile_index_counter(t + 5, opt_text(*a_row), seq![(site.a.ck, kk@)], 1);
        }
        let value = self.emit_apack_read(site, ctx, a_row, kk);
        let ghost rd = apack_read_text(t + 5, *site, *ctx, opt_text(*a_row), kk@);
        self.emit_apack_store(ctx, apack, kk, k_lo, r, value.as_str());
        let ghost st = apack_store_text(rd.0, *ctx, *apack, kk@, k_lo@, r as nat, rd.2);
        proof {
            lemma_concat_associative(o, rd.1, st.1);
        }
        self.emit_loop_tail(ctx.k_ctr.as_str(), kk, head, done);
        proof {
            lemma_concat_associative(o, rd.1 + st.1, latch_text(tmp_name(st.0), kk@, ctx.k_ctr@, label_name(t), label_name(t + 2)));
        }
    }

    /// Pack subrow `r`'s `a` row over `[k_lo, k_hi)` into the panel.
    fn emit_apack_row(
        &mut self,
        site: &TileSite,
        ctx: &TileCtx,
        apack: &PackedBuffer,
        a_row: &Option<String>,
        k_lo: &str,
        k_hi: &str,
        r: u64,
    )
        requires
            old(self).next + 13 <= u32::MAX,
            r * ctx.tile_kc <= u64::MAX,
        ensures
            ({
                let res = apack_row_text(old(self).next as nat, *site, *ctx, *apack, opt_text(*a_row), k_lo@, k_hi@, r as nat);
                &&& final(self).next == res.0
                &&& final(self).body@ == old(self).body@ + res.1
            }),
            final(self).allocas == old(self).allocas,
            final(self).heap_used == old(self).heap_used,
            final(self).same_setup(*old(self)),
    {
        let ghost t = old(self).next as nat;
        let ghost o = old(self).body@;
        let (head, done, kk) = self.emit_apack_head(ctx, k_lo, k_hi);
        let ghost w1 = apack_head_text(t, *ctx, k_lo@, k_hi@);
        proof {
            lemma_tile_index_counter(t + 5, opt_text(*a_row), seq![(site.a.ck, tmp_name(t + 3))], 1);
        }
        self.emit_apack_body(site, ctx, apack, a_row, k_lo, r, head.as_str(), done.as_str(), kk.as_str(), Ghost(t));
        proof {
            lemma_concat_associative(o, w1, apack_body_text(t, *site, *ctx, *apack, opt_text(*a_row), k_lo@, r as nat).1);
            reveal(apack_row_text);
        }
    }

    /// The `a` panel pack for one i-block at one kc panel: subrow `r`'s
    /// source row over `[k_lo, k_hi)` into `apack[r*KC + (k - k_lo)]`, so the
    /// kernel's `a` loads walk the panel contiguously.
    pub fn emit_tile_kc_apack(
        &mut self,
        site: &TileSite,
        ctx: &TileCtx,
        apack: &PackedBuffer,
        a_rows: &[Option<String>],
        k_lo: &str,
        k_hi: &str,
    )
        requires
            old(self).next + 13 * a_rows@.len() <= u32::MAX,
            a_rows@.len() * ctx.tile_kc <= u64::MAX,
        ensures
            ({
                let res = apack_rows_text(
                    old(self).next as nat,
                    *site,
                    *ctx,
                    *apack,
                    opt_texts(a_rows@),
                    k_lo@,
                    k_hi@,
                    a_rows@.len(),
                );
                &&& final(self).next == res.0
                &&& final(self).body@ == old(self).body@ + res.1
            }),
            final(self).allocas == old(self).allocas,
            final(self).heap_used == old(self).heap_used,
            final(self).same_setup(*old(self)),
    {
        let ghost t = old(self).next as nat;
        let ghost rows = opt_texts(a_rows@);
        let mut r: usize = 0;
        while r < a_rows.len()
            invariant
                r <= a_rows@.len(),
                rows == opt_texts(a_rows@),
                t == old(self).next,
                t + 13 * a_rows@.len() <= u32::MAX,
                a_rows@.len() * ctx.tile_kc <= u64::MAX,
                ({
                    let res = apack_rows_text(t, *site, *ctx, *apack, rows, k_lo@, k_hi@, r as nat);
                    &&& self.next == res.0
                    &&& self.body@ == old(self).body@ + res.1
                }),
                self.allocas == old(self).allocas,
                self.heap_used == old(self).heap_used,
                self.same_setup(*old(self)),
            decreases a_rows@.len() - r,
        {
            proof {
                lemma_apack_rows_width(t, *site, *ctx, *apack, rows, k_lo@, k_hi@, r as nat);
                vstd::arithmetic::mul::lemma_mul_inequality(r as int, a_rows@.len() as int, ctx.tile_kc as int);
            }
            self.emit_apack_row(site, ctx, apack, &a_rows[r], k_lo, k_hi, r as u64);
            proof {
                let prev = apack_rows_text(t, *site, *ctx, *apack, rows, k_lo@, k_hi@, r as nat);
                lemma_concat_associative(
                    old(self).body@,
                    prev.1,
                    apack_row_text(prev.0, *site, *ctx, *apack, rows[r as int], k_lo@, k_hi@, r as nat).1,
                );
            }
            r += 1;
        }
    }

    /// One window-clipped j-tile of a KC boundary row: the tile's panel
    /// base, the clip of `[j0, j0 + bound)` to the row's window, and, when
    /// lanes are left, the one-row KC trio over them at accumulator base 0
    /// and panel lane `tile_lo - j0`.
    #[verifier::spinoff_prover]
    pub fn emit_tile_kc_boundary_tile(
        &mut self,
        site: &TileSite,
        ctx: &TileCtx,
        row0: &str,
        jw_lo: &str,
        jw_hi: &str,
        j0: &str,
        bound: &str,
        main: bool,
        apack: &PackedBuffer,
        k_lo: &str,
        k_hi: &str,
        first: bool,
    )
        requires
            old(self).next + 132 <= u32::MAX,
            kc_fits(*site, *ctx, 1),
        ensures
            ({
                let res = kc_boundary_tile_text(
                    old(self).next as nat,
                    *site,
                    *ctx,
                    row0@,
                    jw_lo@,
                    jw_hi@,
                    j0@,
                    bound@,
                    main,
                    *apack,
                    k_lo@,
                    k_hi@,
                    first,
                );
                &&& final(self).next == res.0
                &&& final(self).body@ == old(self).body@ + res.1
            }),
            final(self).allocas == old(self).allocas,
            final(self).heap_used == old(self).heap_used,
            final(self).same_setup(*old(self)),
    {
        let ghost t = old(self).next as nat;
        let ghost o = old(self).body@;
        let panel_base = self.emit_tile_panel_base(site, ctx, j0);
        let ghost p1 = panel_base_text(t, *site, *ctx, j0@);
        proof {
            lemma_concat_associative(
                o,
                op_line(tmp_name(t), "udiv"@, j0@, num::dec_nat(ctx.tile_j as nat)),
                op_line(tmp_name(t + 1), "mul"@, tmp_name(t), num::dec_nat((site.k * ctx.tile_j) as nat)),
            );
        }
        let (tile_lo, clipped_hi, has_lanes) = self.emit_tile_clip(jw_lo, jw_hi, j0, bound);
        let ghost p2 = tile_clip_text(t + 2, jw_lo@, jw_hi@, j0@, bound@);
        proof {
            lemma_concat_associative(o, p1, p2);
        }
        let body = self.label();
        let next = self.label();
        self.branch(has_lanes.as_str(), body.as_str(), next.as_str());
        let ghost p3 = branch_line(tmp_name(t + 7), label_name(t + 8), label_name(t + 9));
        proof {
            lemma_concat_associative(o, p1 + p2, p3);
        }
        self.label_line(body.as_str());
        let ghost p4 = label_text(label_name(t + 8));
        proof {
            lemma_concat_associative(o, p1 + p2 + p3, p4);
        }
        let lanes = self.emit_op("sub", clipped_hi.as_str(), tile_lo.as_str());
        let ghost p5 = op_line(tmp_name(t + 10), "sub"@, tmp_name(t + 6), tmp_name(t + 4));
        proof {
            lemma_concat_associative(o, p1 + p2 + p3 + p4, p5);
        }
        let panel_lane0 = self.emit_op("sub", tile_lo.as_str(), j0);
        let ghost p6 = op_line(tmp_name(t + 11), "sub"@, tmp_name(t + 4), j0@);
        proof {
            lemma_concat_associative(o, p1 + p2 + p3 + p4 + p5, p6);
        }
        let ghost w6 = p1 + p2 + p3 + p4 + p5 + p6;
        self.emit_tile_kc_trio(
            site, ctx, apack, tile_lo.as_str(), "0", row0, 1, lanes.as_str(), main, panel_base.as_str(),
            Some(panel_lane0.as_str()), k_lo, k_hi, first,
        );
        let ghost tr = kc_trio_text(
            t + 12,
            *site,
            *ctx,
            *apack,
            tmp_name(t + 4),
            "0"@,
            row0@,
            1,
            tmp_name(t + 10),
            main,
            tmp_name(t + 1),
            Some(tmp_name(t + 11)),
            k_lo@,
            k_hi@,
            first,
        );
        proof {
            lemma_concat_associative(o, w6, tr.1);
        }
        self.jump(next.as_str());
        proof {
            lemma_concat_associative(o, w6 + tr.1, jump_line(label_name(t + 9)));
        }
        self.label_line(next.as_str());
        proof {
            lemma_concat_associative(o, w6 + tr.1 + jump_line(label_name(t + 9)), label_text(label_name(t + 9)));
            reveal(kc_boundary_tile_text);
        }
    }

    /// After a KC main tile: `j += TJ` and back to the head; the remainder
    /// check against `jb_end`, and the remainder's width `jb_end - j0`,
    /// which it returns.
    #[verifier::spinoff_prover]
    fn emit_kc_step(
        &mut self,
        j_ctr: &str,
        jb_end: &str,
        tile_j: u64,
        head: &str,
        rem_check: &str,
        rem: &str,
        done: &str,
        j0: &str,
        Ghost(t): Ghost<nat>,
    ) -> (w: String)
        requires
            old(self).next + 3 <= u32::MAX,
            head@ == label_name(t),
            rem_check@ == label_name(t + 2),
            rem@ == label_name(t + 3),
            done@ == label_name(t + 4),
            j0@ == tmp_name(t + 5),
        ensures
            w@ == tmp_name(old(self).next as nat + 2),
            final(self).body@ == old(self).body@ + kc_step_text(old(self).next as nat, t, j_ctr@, jb_end@, tile_j),
            final(self).next == old(self).next + 3,
            final(self).allocas == old(self).allocas,
            final(self).heap_used == old(self).heap_used,
            final(self).same_setup(*old(self)),
    {
        let ghost u = old(self).next as nat;
        let ghost o = old(self).body@;
        let tj = num::u64_to_string(tile_j);
        let j0_next = self.emit_op("add", j0, tj.as_str());
        let ghost p1 = op_line(tmp_name(u), "add"@, j0@, num::dec_nat(tile_j as nat));
        self.emit_store("i64", j0_next.as_str(), j_ctr);
        let ghost p2 = store_line("i64"@, tmp_name(u), j_ctr@);
        proof {
            lemma_concat_associative(o, p1, p2);
        }
        self.jump(head);
        let ghost p3 = jump_line(head@);
        proof {
            lemma_concat_associative(o, p1 + p2, p3);
        }
        self.label_line(rem_check);
        let ghost p4 = label_text(rem_check@);
        proof {
            lemma_concat_associative(o, p1 + p2 + p3, p4);
        }
        let ghost w4 = p1 + p2 + p3 + p4;
        let rem_exists = self.emit_op("icmp ult", j0, jb_end);
        let ghost p5 = op_line(tmp_name(u + 1), "icmp ult"@, j0@, jb_end@);
        proof {
            lemma_concat_associative(o, w4, p5);
        }
        self.branch(rem_exists.as_str(), rem, done);
        let ghost p6 = branch_line(tmp_name(u + 1), rem@, done@);
        proof {
            lemma_concat_associative(o, w4 + p5, p6);
        }
        self.label_line(rem);
        let ghost p7 = label_text(rem@);
        proof {
            lemma_concat_associative(o, w4 + p5 + p6, p7);
        }
        let width = self.emit_op("sub", jb_end, j0);
        proof {
            lemma_concat_associative(o, w4 + p5 + p6 + p7, op_line(tmp_name(u + 2), "sub"@, jb_end@, j0@));
        }
        width
    }

    /// The jb block's j-tiles for one interior i-block at one kc panel:
    /// main tiles at the literal width while `j0 + TJ <= jb_end`, then one
    /// remainder at `jb_end - j0`, each the `rows`-row KC trio at
    /// accumulator base 0 on its panel base.
    #[verifier::spinoff_prover]
    #[verifier::rlimit(40)]
    pub fn emit_tile_kc_j_split(
        &mut self,
        site: &TileSite,
        ctx: &TileCtx,
        j_ctr: &str,
        jb0: &str,
        jb_end: &str,
        row0: &str,
        rows: u64,
        apack: &PackedBuffer,
        k_lo: &str,
        k_hi: &str,
        first: bool,
    )
        requires
            old(self).next + 135 + 120 * rows <= u32::MAX,
            kc_fits(*site, *ctx, rows as nat),
        ensures
            ({
                let res = kc_j_split_text(
                    old(self).next as nat,
                    *site,
                    *ctx,
                    j_ctr@,
                    jb0@,
                    jb_end@,
                    row0@,
                    rows as nat,
                    *apack,
                    k_lo@,
                    k_hi@,
                    first,
                );
                &&& final(self).next == res.0
                &&& final(self).body@ == old(self).body@ + res.1
            }),
            final(self).allocas == old(self).allocas,
            final(self).heap_used == old(self).heap_used,
            final(self).same_setup(*old(self)),
    {
        let ghost t = old(self).next as nat;
        let ghost o = old(self).body@;
        let ghost tjs = num::dec_nat(ctx.tile_j as nat);
        let (head, main, rem_check, rem, done, j0) = self.emit_j_open(j_ctr, jb0, jb_end, ctx.tile_j);
        let ghost w1 = j_open_text(t, j_ctr@, jb0@, jb_end@, ctx.tile_j);
        let panel_base = self.emit_tile_panel_base(site, ctx, j0.as_str());
        let ghost p2 = panel_base_text(t + 8, *site, *ctx, j0@);
        proof {
            lemma_concat_associative(
                o + w1,
                op_line(tmp_name(t + 8), "udiv"@, j0@, tjs),
                op_line(tmp_name(t + 9), "mul"@, tmp_name(t + 8), num::dec_nat((site.k * ctx.tile_j) as nat)),
            );
            lemma_concat_associative(o, w1, p2);
        }
        let lane_full = num::u64_to_string(ctx.tile_j);
        proof {
            lemma_kc_trio_width(t + 10, *site, *ctx, *apack, j0@, "0"@, row0@, rows as nat, tjs, true, tmp_name(t + 9), None, k_lo@, k_hi@, first);
        }
        self.emit_tile_kc_trio(
            site, ctx, apack, j0.as_str(), "0", row0, rows, lane_full.as_str(), true, panel_base.as_str(), None, k_lo,
            k_hi, first,
        );
        let ghost m = kc_trio_text(t + 10, *site, *ctx, *apack, j0@, "0"@, row0@, rows as nat, tjs, true, tmp_name(t + 9), None, k_lo@, k_hi@, first);
        proof {
            lemma_concat_associative(o, w1 + p2, m.1);
        }
        let w = self.emit_kc_step(
            j_ctr, jb_end, ctx.tile_j, head.as_str(), rem_check.as_str(), rem.as_str(), done.as_str(), j0.as_str(),
            Ghost(t),
        );
        let ghost p4 = kc_step_text(m.0, t, j_ctr@, jb_end@, ctx.tile_j);
        proof {
            lemma_concat_associative(o, w1 + p2 + m.1, p4);
        }
        let panel_base2 = self.emit_tile_panel_base(site, ctx, j0.as_str());
        let ghost p5 = panel_base_text(m.0 + 3, *site, *ctx, j0@);
        proof {
            lemma_concat_associative(
                o + (w1 + p2 + m.1 + p4),
                op_line(tmp_name(m.0 + 3), "udiv"@, j0@, tjs),
                op_line(tmp_name(m.0 + 4), "mul"@, tmp_name(m.0 + 3), num::dec_nat((site.k * ctx.tile_j) as nat)),
            );
            lemma_concat_associative(o, w1 + p2 + m.1 + p4, p5);
            lemma_kc_trio_width(m.0 + 5, *site, *ctx, *apack, j0@, "0"@, row0@, rows as nat, tmp_name(m.0 + 2), false, tmp_name(m.0 + 4), None, k_lo@, k_hi@, first);
        }
        self.emit_tile_kc_trio(
            site, ctx, apack, j0.as_str(), "0", row0, rows, w.as_str(), false, panel_base2.as_str(), None, k_lo, k_hi,
            first,
        );
        let ghost r = kc_trio_text(m.0 + 5, *site, *ctx, *apack, j0@, "0"@, row0@, rows as nat, tmp_name(m.0 + 2), false, tmp_name(m.0 + 4), None, k_lo@, k_hi@, first);
        let ghost w5 = w1 + p2 + m.1 + p4 + p5;
        proof {
            lemma_concat_associative(o, w5, r.1);
        }
        self.jump(done.as_str());
        proof {
            lemma_concat_associative(o, w5 + r.1, jump_line(label_name(t + 4)));
        }
        self.label_line(done.as_str());
        proof {
            lemma_concat_associative(o, w5 + r.1 + jump_line(label_name(t + 4)), label_text(label_name(t + 4)));
            assert(lane_full@ == tjs);
            reveal(kc_j_split_text);
        }
    }

    /// One `TI = 1` boundary row of the KC nest: `row0`, the row's window,
    /// its `a` row base, the one-row `a` panel pack, then the jb block's
    /// j-tiles, each clipped to the window and skipped when empty.
    #[verifier::spinoff_prover]
    #[verifier::rlimit(40)]
    pub fn emit_tile_kc_boundary_row(
        &mut self,
        site: &TileSite,
        ctx: &TileCtx,
        lo: &str,
        hi: &str,
        i: &str,
        j_ctr: &str,
        apack: &PackedBuffer,
        jb0: &str,
        jb_end: &str,
        k_lo: &str,
        k_hi: &str,
        first: bool,
    )
        requires
            old(self).next + 300 <= u32::MAX,
            kc_fits(*site, *ctx, 1),
        ensures
            ({
                let res = kc_boundary_row_text(
                    old(self).next as nat,
                    *site,
                    *ctx,
                    lo@,
                    hi@,
                    i@,
                    j_ctr@,
                    *apack,
                    jb0@,
                    jb_end@,
                    k_lo@,
                    k_hi@,
                    first,
                );
                &&& final(self).next == res.0
                &&& final(self).body@ == old(self).body@ + res.1
            }),
            final(self).allocas == old(self).allocas,
            final(self).heap_used == old(self).heap_used,
            final(self).same_setup(*old(self)),
    {
        let ghost t = old(self).next as nat;
        let ghost o = old(self).body@;
        let ghost tjs = num::dec_nat(ctx.tile_j as nat);
        let c = num::u64_to_string(site.c);
        let row0 = self.emit_op("mul", i, c.as_str());
        let ghost p1 = op_line(tmp_name(t), "mul"@, i@, num::dec_nat(site.c as nat));
        let (jw_lo, jw_hi) = self.emit_row_window(site, lo, hi, row0.as_str());
        let ghost p2 = row_window_text(t + 1, lo@, hi@, tmp_name(t), site.c);
        proof {
            lemma_concat_associative(o, p1, p2);
        }
        let ta = [(site.a.ci, i)];
        let ghost tva = seq![(site.a.ci, i@)];
        assert(term_views(ta@) =~= tva);
        proof {
            lemma_tile_index_counter(t + 7, base_text(site.a.base), tva, 1);
        }
        let a_row = self.emit_tile_index(Self::base_option(site.a.base), &ta);
        let ghost a = tile_index_upto(t + 7, base_text(site.a.base), tva, 1);
        proof {
            lemma_concat_associative(o, p1 + p2, a.2);
        }
        let a_rows = [a_row];
        assert(opt_texts(a_rows@) =~= seq![a.1]);
        proof {
            lemma_apack_rows_width(a.0, *site, *ctx, *apack, seq![a.1], k_lo@, k_hi@, 1);
        }
        self.emit_tile_kc_apack(site, ctx, apack, &a_rows, k_lo, k_hi);
        let ghost ap = apack_rows_text(a.0, *site, *ctx, *apack, seq![a.1], k_lo@, k_hi@, 1);
        let ghost s = ap.0;
        let ghost w3 = p1 + p2 + a.2 + ap.1;
        proof {
            lemma_concat_associative(o, p1 + p2 + a.2, ap.1);
        }
        let (head, main, rem_check, rem, done, j0) = self.emit_j_open(j_ctr, jb0, jb_end, ctx.tile_j);
        let ghost p4 = j_open_text(s, j_ctr@, jb0@, jb_end@, ctx.tile_j);
        proof {
            lemma_concat_associative(o, w3, p4);
        }
        let lane_full = num::u64_to_string(ctx.tile_j);
        proof {
            lemma_kc_tile_width(s + 8, *site, *ctx, tmp_name(t), tmp_name(t + 3), tmp_name(t + 6), j0@, tjs, true, *apack, k_lo@, k_hi@, first, j_ctr@, jb0@, jb_end@, 1);
        }
        self.emit_tile_kc_boundary_tile(
            site, ctx, row0.as_str(), jw_lo.as_str(), jw_hi.as_str(), j0.as_str(), lane_full.as_str(), true, apack, k_lo,
            k_hi, first,
        );
        let ghost m = kc_boundary_tile_text(s + 8, *site, *ctx, tmp_name(t), tmp_name(t + 3), tmp_name(t + 6), j0@, tjs, true, *apack, k_lo@, k_hi@, first);
        proof {
            lemma_concat_associative(o, w3 + p4, m.1);
        }
        let w = self.emit_kc_step(
            j_ctr, jb_end, ctx.tile_j, head.as_str(), rem_check.as_str(), rem.as_str(), done.as_str(), j0.as_str(),
            Ghost(s),
        );
        let ghost p6 = kc_step_text(m.0, s, j_ctr@, jb_end@, ctx.tile_j);
        proof {
            lemma_concat_associative(o, w3 + p4 + m.1, p6);
            lemma_kc_tile_width(m.0 + 3, *site, *ctx, tmp_name(t), tmp_name(t + 3), tmp_name(t + 6), j0@, tmp_name(m.0 + 2), false, *apack, k_lo@, k_hi@, first, j_ctr@, jb0@, jb_end@, 1);
        }
        self.emit_tile_kc_boundary_tile(
            site, ctx, row0.as_str(), jw_lo.as_str(), jw_hi.as_str(), j0.as_str(), w.as_str(), false, apack, k_lo, k_hi,
            first,
        );
        let ghost r = kc_boundary_tile_text(m.0 + 3, *site, *ctx, tmp_name(t), tmp_name(t + 3), tmp_name(t + 6), j0@, tmp_name(m.0 + 2), false, *apack, k_lo@, k_hi@, first);
        let ghost w6 = w3 + p4 + m.1 + p6;
        proof {
            lemma_concat_associative(o, w6, r.1);
        }
        self.jump(done.as_str());
        proof {
            lemma_concat_associative(o, w6 + r.1, jump_line(label_name(s + 4)));
        }
        self.label_line(done.as_str());
        proof {
            lemma_concat_associative(o, w6 + r.1 + jump_line(label_name(s + 4)), label_text(label_name(s + 4)));
            assert(lane_full@ == tjs);
            reveal(kc_boundary_row_text);
        }
    }

    /// A `TI = 1` row loop of the KC nest: from `start` (when given) while
    /// `i < end`, one KC boundary row per trip.
    #[verifier::spinoff_prover]
    fn emit_kc_row_loop(
        &mut self,
        site: &TileSite,
        ctx: &TileCtx,
        i_ctr: &str,
        j_ctr: &str,
        lo: &str,
        hi: &str,
        start: Option<&str>,
        end: &str,
        apack: &PackedBuffer,
        jb0: &str,
        jb_end: &str,
        k_lo: &str,
        k_hi: &str,
        first: bool,
    )
        requires
            old(self).next + 306 <= u32::MAX,
            kc_fits(*site, *ctx, 1),
        ensures
            ({
                let res = kc_row_loop_text(
                    old(self).next as nat,
                    *site,
                    *ctx,
                    i_ctr@,
                    j_ctr@,
                    lo@,
                    hi@,
                    opt_str(start),
                    end@,
                    *apack,
                    jb0@,
                    jb_end@,
                    k_lo@,
                    k_hi@,
                    first,
                );
                &&& final(self).next == res.0
                &&& final(self).body@ == old(self).body@ + res.1
            }),
            final(self).allocas == old(self).allocas,
            final(self).heap_used == old(self).heap_used,
            final(self).same_setup(*old(self)),
    {
        let ghost t = old(self).next as nat;
        let ghost o = old(self).body@;
        let head = self.label();
        let body = self.label();
        let done = self.label();
        let ghost init = match opt_str(start) {
            Some(s) => store_line("i64"@, s, i_ctr@),
            None => Seq::<char>::empty(),
        };
        match start {
            Some(s) => self.emit_store("i64", s, i_ctr),
            None => {
                assert(o + Seq::<char>::empty() =~= o);
            },
        }
        self.jump(head.as_str());
        let ghost p2 = jump_line(label_name(t));
        proof {
            lemma_concat_associative(o, init, p2);
        }
        self.label_line(head.as_str());
        let ghost p3 = label_text(label_name(t));
        proof {
            lemma_concat_associative(o, init + p2, p3);
        }
        let i = self.emit_load("i64", i_ctr);
        let ghost p4 = load_line(tmp_name(t + 3), "i64"@, i_ctr@);
        proof {
            lemma_concat_associative(o, init + p2 + p3, p4);
        }
        let at_end = self.emit_op("icmp uge", i.as_str(), end);
        let ghost p5 = op_line(tmp_name(t + 4), "icmp uge"@, tmp_name(t + 3), end@);
        proof {
            lemma_concat_associative(o, init + p2 + p3 + p4, p5);
        }
        self.branch(at_end.as_str(), done.as_str(), body.as_str());
        let ghost p6 = branch_line(tmp_name(t + 4), label_name(t + 2), label_name(t + 1));
        proof {
            lemma_concat_associative(o, init + p2 + p3 + p4 + p5, p6);
        }
        self.label_line(body.as_str());
        let ghost p7 = label_text(label_name(t + 1));
        proof {
            lemma_concat_associative(o, init + p2 + p3 + p4 + p5 + p6, p7);
        }
        let ghost w7 = init + p2 + p3 + p4 + p5 + p6 + p7;
        proof {
            lemma_kc_boundary_row_width(t + 5, *site, *ctx, lo@, hi@, tmp_name(t + 3), j_ctr@, *apack, jb0@, jb_end@, k_lo@, k_hi@, first);
        }
        self.emit_tile_kc_boundary_row(site, ctx, lo, hi, i.as_str(), j_ctr, apack, jb0, jb_end, k_lo, k_hi, first);
        let ghost row = kc_boundary_row_text(t + 5, *site, *ctx, lo@, hi@, tmp_name(t + 3), j_ctr@, *apack, jb0@, jb_end@, k_lo@, k_hi@, first);
        proof {
            lemma_concat_associative(o, w7, row.1);
        }
        self.emit_loop_tail(i_ctr, i.as_str(), head.as_str(), done.as_str());
        proof {
            lemma_concat_associative(o, w7 + row.1, latch_text(tmp_name(row.0), tmp_name(t + 3), i_ctr@, label_name(t), label_name(t + 2)));
            reveal(kc_row_loop_text);
        }
    }

    /// The `TI`-blocked interior of one kc panel: per block, the subrows'
    /// `a` row bases, their panel pack, then the jb block's j-tiles.
    #[verifier::spinoff_prover]
    fn emit_kc_block(
        &mut self,
        site: &TileSite,
        ctx: &TileCtx,
        i_ctr: &str,
        j_ctr: &str,
        i_fw_lo: &str,
        i_fw_hi: &str,
        apack: &PackedBuffer,
        jb0: &str,
        jb_end: &str,
        k_lo: &str,
        k_hi: &str,
        first: bool,
    )
        requires
            old(self).next + 142 + 135 * ctx.tile_i <= u32::MAX,
            kc_fits(*site, *ctx, ctx.tile_i as nat),
            ctx.tile_i > 0 ==> site.a.base + site.a.ci * (ctx.tile_i - 1) <= u64::MAX,
        ensures
            ({
                let res = kc_block_text(
                    old(self).next as nat,
                    *site,
                    *ctx,
                    i_ctr@,
                    j_ctr@,
                    i_fw_lo@,
                    i_fw_hi@,
                    *apack,
                    jb0@,
                    jb_end@,
                    k_lo@,
                    k_hi@,
                    first,
                );
                &&& final(self).next == res.0
                &&& final(self).body@ == old(self).body@ + res.1
            }),
            final(self).allocas == old(self).allocas,
            final(self).heap_used == old(self).heap_used,
            final(self).same_setup(*old(self)),
    {
        let ghost t = old(self).next as nat;
        let ghost o = old(self).body@;
        let ghost ti = ctx.tile_i as nat;
        let (head, done, i_blk, i_blk_end, row0) = self.emit_block_open(site, ctx, i_ctr, i_fw_lo, i_fw_hi);
        let ghost w1 = block_open_text(t, *site, *ctx, i_ctr@, i_fw_lo@, i_fw_hi@);
        proof {
            lemma_a_rows_width(t + 7, *site, tmp_name(t + 3), ti);
        }
        let a_rows = self.emit_tile_a_rows(site, i_blk.as_str(), ctx.tile_i);
        let ghost a = a_rows_text(t + 7, *site, tmp_name(t + 3), ti);
        proof {
            lemma_concat_associative(o, w1, a.1);
            lemma_apack_rows_width(a.0, *site, *ctx, *apack, a.2, k_lo@, k_hi@, ti);
        }
        self.emit_tile_kc_apack(site, ctx, apack, a_rows.as_slice(), k_lo, k_hi);
        let ghost ap = apack_rows_text(a.0, *site, *ctx, *apack, a.2, k_lo@, k_hi@, ti);
        proof {
            lemma_concat_associative(o, w1 + a.1, ap.1);
            lemma_kc_tile_width(ap.0, *site, *ctx, tmp_name(t + 6), jb0@, jb0@, jb0@, jb0@, true, *apack, k_lo@, k_hi@, first, j_ctr@, jb0@, jb_end@, ti);
        }
        self.emit_tile_kc_j_split(site, ctx, j_ctr, jb0, jb_end, row0.as_str(), ctx.tile_i, apack, k_lo, k_hi, first);
        let ghost js = kc_j_split_text(ap.0, *site, *ctx, j_ctr@, jb0@, jb_end@, tmp_name(t + 6), ti, *apack, k_lo@, k_hi@, first);
        proof {
            lemma_concat_associative(o, w1 + a.1 + ap.1, js.1);
        }
        self.emit_block_close(i_ctr, head.as_str(), done.as_str(), i_blk_end.as_str(), Ghost(t));
        proof {
            lemma_concat_associative(o, w1 + a.1 + ap.1 + js.1, block_close_text(t, i_ctr@));
            reveal(kc_block_text);
        }
    }

    /// One kc panel's i sweep: the head boundary rows `[i_lo, i_fw_lo)`,
    /// the `TI`-blocked interior, then the rest up to `i_hi`; `first`
    /// selects the seeding first panel over the reloading later ones.
    #[verifier::spinoff_prover]
    pub fn emit_tile_kc_i_regions(
        &mut self,
        site: &TileSite,
        ctx: &TileCtx,
        i_ctr: &str,
        j_ctr: &str,
        lo: &str,
        hi: &str,
        i_lo: &str,
        i_hi: &str,
        i_fw_lo: &str,
        i_fw_hi: &str,
        apack: &PackedBuffer,
        jb0: &str,
        jb_end: &str,
        k_lo: &str,
        k_hi: &str,
        first: bool,
    )
        requires
            old(self).next + 754 + 135 * ctx.tile_i <= u32::MAX,
            kc_fits(*site, *ctx, 1),
            kc_fits(*site, *ctx, ctx.tile_i as nat),
            ctx.tile_i > 0 ==> site.a.base + site.a.ci * (ctx.tile_i - 1) <= u64::MAX,
        ensures
            ({
                let res = kc_i_regions_text(
                    old(self).next as nat,
                    *site,
                    *ctx,
                    i_ctr@,
                    j_ctr@,
                    lo@,
                    hi@,
                    i_lo@,
                    i_hi@,
                    i_fw_lo@,
                    i_fw_hi@,
                    *apack,
                    jb0@,
                    jb_end@,
                    k_lo@,
                    k_hi@,
                    first,
                );
                &&& final(self).next == res.0
                &&& final(self).body@ == old(self).body@ + res.1
            }),
            final(self).allocas == old(self).allocas,
            final(self).heap_used == old(self).heap_used,
            final(self).same_setup(*old(self)),
    {
        reveal(kc_i_regions_text);
        let ghost t = old(self).next as nat;
        let ghost o = old(self).body@;
        proof {
            lemma_kc_row_loop_width(t, *site, *ctx, i_ctr@, j_ctr@, lo@, hi@, Some(i_lo@), i_fw_lo@, *apack, jb0@, jb_end@, k_lo@, k_hi@, first);
        }
        self.emit_kc_row_loop(site, ctx, i_ctr, j_ctr, lo, hi, Some(i_lo), i_fw_lo, apack, jb0, jb_end, k_lo, k_hi, first);
        let ghost head = kc_row_loop_text(t, *site, *ctx, i_ctr@, j_ctr@, lo@, hi@, Some(i_lo@), i_fw_lo@, *apack, jb0@, jb_end@, k_lo@, k_hi@, first);
        proof {
            lemma_kc_block_width(head.0, *site, *ctx, i_ctr@, j_ctr@, i_fw_lo@, i_fw_hi@, *apack, jb0@, jb_end@, k_lo@, k_hi@, first);
        }
        self.emit_kc_block(site, ctx, i_ctr, j_ctr, i_fw_lo, i_fw_hi, apack, jb0, jb_end, k_lo, k_hi, first);
        let ghost blk = kc_block_text(head.0, *site, *ctx, i_ctr@, j_ctr@, i_fw_lo@, i_fw_hi@, *apack, jb0@, jb_end@, k_lo@, k_hi@, first);
        proof {
            lemma_concat_associative(o, head.1, blk.1);
            lemma_kc_row_loop_width(blk.0, *site, *ctx, i_ctr@, j_ctr@, lo@, hi@, None, i_hi@, *apack, jb0@, jb_end@, k_lo@, k_hi@, first);
        }
        self.emit_kc_row_loop(site, ctx, i_ctr, j_ctr, lo, hi, None, i_hi, apack, jb0, jb_end, k_lo, k_hi, first);
        proof {
            lemma_concat_associative(
                o,
                head.1 + blk.1,
                kc_row_loop_text(blk.0, *site, *ctx, i_ctr@, j_ctr@, lo@, hi@, None, i_hi@, *apack, jb0@, jb_end@, k_lo@, k_hi@, first).1,
            );
        }
    }

    /// Open the jb loop on the counter `jb_ctr`; returns `jb0` and
    /// `jb_end`.
    #[verifier::spinoff_prover]
    fn emit_jb_open(
        &mut self,
        site: &TileSite,
        nc: u64,
        jb_ctr: &str,
        head: &str,
        body: &str,
        done: &str,
        Ghost(t): Ghost<nat>,
    ) -> (r: (String, String))
        requires
            old(self).next == t + 8,
            old(self).next + 5 <= u32::MAX,
            jb_ctr@ == scratch_name(t),
            head@ == label_name(t + 2),
            body@ == label_name(t + 3),
            done@ == label_name(t + 4),
        ensures
            r.0@ == tmp_name(t + 8),
            r.1@ == tmp_name(t + 12),
            final(self).body@ == old(self).body@ + jb_open_text(t, *site, nc),
            final(self).next == old(self).next + 5,
            final(self).allocas == old(self).allocas,
            final(self).heap_used == old(self).heap_used,
            final(self).same_setup(*old(self)),
    {
        let ghost o = old(self).body@;
        let ghost cs = num::dec_nat(site.c as nat);
        self.emit_store("i64", "0", jb_ctr);
        let ghost p1 = store_line("i64"@, "0"@, scratch_name(t));
        self.jump(head);
        let ghost p2 = jump_line(label_name(t + 2));
        proof {
            lemma_concat_associative(o, p1, p2);
        }
        self.label_line(head);
        let ghost p3 = label_text(label_name(t + 2));
        proof {
            lemma_concat_associative(o, p1 + p2, p3);
        }
        let jb0 = self.emit_load("i64", jb_ctr);
        let ghost p4 = load_line(tmp_name(t + 8), "i64"@, scratch_name(t));
        proof {
            lemma_concat_associative(o, p1 + p2 + p3, p4);
        }
        let c = num::u64_to_string(site.c);
        let jb_all = self.emit_op("icmp uge", jb0.as_str(), c.as_str());
        let ghost p5 = op_line(tmp_name(t + 9), "icmp uge"@, tmp_name(t + 8), cs);
        proof {
            lemma_concat_associative(o, p1 + p2 + p3 + p4, p5);
        }
        self.branch(jb_all.as_str(), done, body);
        let ghost p6 = branch_line(tmp_name(t + 9), label_name(t + 4), label_name(t + 3));
        proof {
            lemma_concat_associative(o, p1 + p2 + p3 + p4 + p5, p6);
        }
        let ghost w6 = p1 + p2 + p3 + p4 + p5 + p6;
        self.label_line(body);
        let ghost p7 = label_text(label_name(t + 3));
        proof {
            lemma_concat_associative(o, w6, p7);
        }
        let ncs = num::u64_to_string(nc);
        let jb_plus = self.emit_op("add", jb0.as_str(), ncs.as_str());
        let ghost p8 = op_line(tmp_name(t + 10), "add"@, tmp_name(t + 8), num::dec_nat(nc as nat));
        proof {
            lemma_concat_associative(o, w6 + p7, p8);
        }
        let jb_over = self.emit_op("icmp ugt", jb_plus.as_str(), c.as_str());
        let ghost p9 = op_line(tmp_name(t + 11), "icmp ugt"@, tmp_name(t + 10), cs);
        proof {
            lemma_concat_associative(o, w6 + p7 + p8, p9);
        }
        let jb_end = self.emit_select(jb_over.as_str(), c.as_str(), jb_plus.as_str());
        proof {
            lemma_concat_associative(o, w6 + p7 + p8 + p9, select_line(tmp_name(t + 12), tmp_name(t + 11), cs, tmp_name(t + 10)));
        }
        (jb0, jb_end)
    }

    /// Open the loop over the later kc panels on the counter `kc_ctr`;
    /// returns `kc` and the panel's end.
    #[verifier::spinoff_prover]
    fn emit_kc_open(
        &mut self,
        site: &TileSite,
        ctx: &TileCtx,
        kc_ctr: &str,
        head: &str,
        body: &str,
        done: &str,
        Ghost(t): Ghost<nat>,
    ) -> (r: (String, String))
        requires
            old(self).next + 5 <= u32::MAX,
            kc_ctr@ == scratch_name(t + 1),
            head@ == label_name(t + 5),
            body@ == label_name(t + 6),
            done@ == label_name(t + 7),
        ensures
            r.0@ == tmp_name(old(self).next as nat),
            r.1@ == tmp_name(old(self).next as nat + 4),
            final(self).body@ == old(self).body@ + kc_open_text(old(self).next as nat, t, *site, *ctx),
            final(self).next == old(self).next + 5,
            final(self).allocas == old(self).allocas,
            final(self).heap_used == old(self).heap_used,
            final(self).same_setup(*old(self)),
    {
        let ghost u = old(self).next as nat;
        let ghost o = old(self).body@;
        let ghost ks = num::dec_nat(site.k as nat);
        let ghost kcs = num::dec_nat(ctx.tile_kc as nat);
        let kc_text = num::u64_to_string(ctx.tile_kc);
        let k = num::u64_to_string(site.k);
        self.emit_store("i64", kc_text.as_str(), kc_ctr);
        let ghost p1 = store_line("i64"@, kcs, scratch_name(t + 1));
        self.jump(head);
        let ghost p2 = jump_line(label_name(t + 5));
        proof {
            lemma_concat_associative(o, p1, p2);
        }
        self.label_line(head);
        let ghost p3 = label_text(label_name(t + 5));
        proof {
            lemma_concat_associative(o, p1 + p2, p3);
        }
        let kc = self.emit_load("i64", kc_ctr);
        let ghost p4 = load_line(tmp_name(u), "i64"@, scratch_name(t + 1));
        proof {
            lemma_concat_associative(o, p1 + p2 + p3, p4);
        }
        let kc_all = self.emit_op("icmp uge", kc.as_str(), k.as_str());
        let ghost p5 = op_line(tmp_name(u + 1), "icmp uge"@, tmp_name(u), ks);
        proof {
            lemma_concat_associative(o, p1 + p2 + p3 + p4, p5);
        }
        self.branch(kc_all.as_str(), done, body);
        let ghost p6 = branch_line(tmp_name(u + 1), label_name(t + 7), label_name(t + 6));
        proof {
            lemma_concat_associative(o, p1 + p2 + p3 + p4 + p5, p6);
        }
        let ghost w6 = p1 + p2 + p3 + p4 + p5 + p6;
        self.label_line(body);
        let ghost p7 = label_text(label_name(t + 6));
        proof {
            lemma_concat_associative(o, w6, p7);
        }
        let kc_plus = self.emit_op("add", kc.as_str(), kc_text.as_str());
        let ghost p8 = op_line(tmp_name(u + 2), "add"@, tmp_name(u), kcs);
        proof {
            lemma_concat_associative(o, w6 + p7, p8);
        }
        let kc_over = self.emit_op("icmp ugt", kc_plus.as_str(), k.as_str());
        let ghost p9 = op_line(tmp_name(u + 3), "icmp ugt"@, tmp_name(u + 2), ks);
        proof {
            lemma_concat_associative(o, w6 + p7 + p8, p9);
        }
        let k_hi = self.emit_select(kc_over.as_str(), k.as_str(), kc_plus.as_str());
        proof {
            lemma_concat_associative(o, w6 + p7 + p8 + p9, select_line(tmp_name(u + 4), tmp_name(u + 3), ks, tmp_name(u + 2)));
        }
        (kc, k_hi)
    }

    /// Close the kc loop (`kc += KC`) and the jb loop (`jb0 += NC`).
    #[verifier::spinoff_prover]
    fn emit_kc_close(
        &mut self,
        ctx: &TileCtx,
        nc: u64,
        jb_ctr: &str,
        kc_ctr: &str,
        jb_head: &str,
        jb_done: &str,
        kc_head: &str,
        kc_done: &str,
        jb0: &str,
        kc: &str,
        Ghost(t): Ghost<nat>,
        Ghost(u): Ghost<nat>,
    )
        requires
            old(self).next + 2 <= u32::MAX,
            jb_ctr@ == scratch_name(t),
            kc_ctr@ == scratch_name(t + 1),
            jb_head@ == label_name(t + 2),
            jb_done@ == label_name(t + 4),
            kc_head@ == label_name(t + 5),
            kc_done@ == label_name(t + 7),
            jb0@ == tmp_name(t + 8),
            kc@ == tmp_name(u),
        ensures
            final(self).body@ == old(self).body@ + kc_close_text(old(self).next as nat, u, t, *ctx, nc),
            final(self).next == old(self).next + 2,
            final(self).allocas == old(self).allocas,
            final(self).heap_used == old(self).heap_used,
            final(self).same_setup(*old(self)),
    {
        let ghost v = old(self).next as nat;
        let ghost o = old(self).body@;
        let kc_text = num::u64_to_string(ctx.tile_kc);
        let kc_next = self.emit_op("add", kc, kc_text.as_str());
        let ghost p1 = op_line(tmp_name(v), "add"@, tmp_name(u), num::dec_nat(ctx.tile_kc as nat));
        self.emit_store("i64", kc_next.as_str(), kc_ctr);
        let ghost p2 = store_line("i64"@, tmp_name(v), scratch_name(t + 1));
        proof {
            lemma_concat_associative(o, p1, p2);
        }
        self.jump(kc_head);
        let ghost p3 = jump_line(label_name(t + 5));
        proof {
            lemma_concat_associative(o, p1 + p2, p3);
        }
        self.label_line(kc_done);
        let ghost p4 = label_text(label_name(t + 7));
        proof {
            lemma_concat_associative(o, p1 + p2 + p3, p4);
        }
        let ghost w4 = p1 + p2 + p3 + p4;
        let ncs = num::u64_to_string(nc);
        let jb_next = self.emit_op("add", jb0, ncs.as_str());
        let ghost p5 = op_line(tmp_name(v + 1), "add"@, tmp_name(t + 8), num::dec_nat(nc as nat));
        proof {
            lemma_concat_associative(o, w4, p5);
        }
        self.emit_store("i64", jb_next.as_str(), jb_ctr);
        let ghost p6 = store_line("i64"@, tmp_name(v + 1), scratch_name(t));
        proof {
            lemma_concat_associative(o, w4 + p5, p6);
        }
        self.jump(jb_head);
        let ghost p7 = jump_line(label_name(t + 2));
        proof {
            lemma_concat_associative(o, w4 + p5 + p6, p7);
        }
        self.label_line(jb_done);
        proof {
            lemma_concat_associative(o, w4 + p5 + p6 + p7, label_text(label_name(t + 4)));
        }
    }

    /// The KC nest for packed sites with `K > KC`: j-blocks of `nc` lanes
    /// (the last clipped to `C`) outer; per block the peeled first panel
    /// `[0, KC)` that seeds, then the later panels `[kc, min(kc + KC, K))`
    /// that reload the partial sums parked in `out`, each running the
    /// panel's i sweep. Two `i64` scratch counters are allocated.
    #[verifier::spinoff_prover]
    pub fn emit_tile_packed_kc(
        &mut self,
        site: &TileSite,
        ctx: &TileCtx,
        i_ctr: &str,
        j_ctr: &str,
        lo: &str,
        hi: &str,
        i_lo: &str,
        i_hi: &str,
        i_fw_lo: &str,
        i_fw_hi: &str,
        apack: &PackedBuffer,
        nc: u64,
    )
        requires
            old(self).next + 1528 + 270 * ctx.tile_i <= u32::MAX,
            kc_fits(*site, *ctx, 1),
            kc_fits(*site, *ctx, ctx.tile_i as nat),
            ctx.tile_i > 0 ==> site.a.base + site.a.ci * (ctx.tile_i - 1) <= u64::MAX,
        ensures
            ({
                let t = old(self).next as nat;
                let res = packed_kc_text(
                    t,
                    *site,
                    *ctx,
                    i_ctr@,
                    j_ctr@,
                    lo@,
                    hi@,
                    i_lo@,
                    i_hi@,
                    i_fw_lo@,
                    i_fw_hi@,
                    *apack,
                    nc,
                );
                &&& final(self).next == res.0
                &&& final(self).body@ == old(self).body@ + res.1
                &&& final(self).allocas@ == old(self).allocas@ + scratch_alloca(t) + scratch_alloca(t + 1)
            }),
            final(self).heap_used == old(self).heap_used,
            final(self).same_setup(*old(self)),
    {
        let ghost t = old(self).next as nat;
        let ghost o = old(self).body@;
        let ghost a0 = old(self).allocas@;
        let jb_ctr = self.scratch("i64");
        assert(self.allocas@ =~= a0 + scratch_alloca(t));
        let kc_ctr = self.scratch("i64");
        assert(self.allocas@ =~= a0 + scratch_alloca(t) + scratch_alloca(t + 1));
        let jb_head = self.label();
        let jb_body = self.label();
        let jb_done = self.label();
        let kc_head = self.label();
        let kc_body = self.label();
        let kc_done = self.label();
        let (jb0, jb_end) = self.emit_jb_open(
            site, nc, jb_ctr.as_str(), jb_head.as_str(), jb_body.as_str(), jb_done.as_str(), Ghost(t),
        );
        let ghost w1 = jb_open_text(t, *site, nc);
        let ghost kcs = num::dec_nat(ctx.tile_kc as nat);
        let k_hi0 = num::u64_to_string(ctx.tile_kc);
        proof {
            lemma_kc_i_regions_width(t + 13, *site, *ctx, i_ctr@, j_ctr@, lo@, hi@, i_lo@, i_hi@, i_fw_lo@, i_fw_hi@, *apack, tmp_name(t + 8), tmp_name(t + 12), "0"@, kcs, true);
        }
        self.emit_tile_kc_i_regions(
            site, ctx, i_ctr, j_ctr, lo, hi, i_lo, i_hi, i_fw_lo, i_fw_hi, apack, jb0.as_str(), jb_end.as_str(), "0",
            k_hi0.as_str(), true,
        );
        let ghost r1 = kc_i_regions_text(t + 13, *site, *ctx, i_ctr@, j_ctr@, lo@, hi@, i_lo@, i_hi@, i_fw_lo@, i_fw_hi@, *apack, tmp_name(t + 8), tmp_name(t + 12), "0"@, kcs, true);
        proof {
            lemma_concat_associative(o, w1, r1.1);
        }
        let ghost u = r1.0;
        let (kc, k_hi) = self.emit_kc_open(site, ctx, kc_ctr.as_str(), kc_head.as_str(), kc_body.as_str(), kc_done.as_str(), Ghost(t));
        let ghost w3 = kc_open_text(u, t, *site, *ctx);
        proof {
            lemma_concat_associative(o, w1 + r1.1, w3);
            lemma_kc_i_regions_width(u + 5, *site, *ctx, i_ctr@, j_ctr@, lo@, hi@, i_lo@, i_hi@, i_fw_lo@, i_fw_hi@, *apack, tmp_name(t + 8), tmp_name(t + 12), tmp_name(u), tmp_name(u + 4), false);
        }
        self.emit_tile_kc_i_regions(
            site, ctx, i_ctr, j_ctr, lo, hi, i_lo, i_hi, i_fw_lo, i_fw_hi, apack, jb0.as_str(), jb_end.as_str(),
            kc.as_str(), k_hi.as_str(), false,
        );
        let ghost r2 = kc_i_regions_text(u + 5, *site, *ctx, i_ctr@, j_ctr@, lo@, hi@, i_lo@, i_hi@, i_fw_lo@, i_fw_hi@, *apack, tmp_name(t + 8), tmp_name(t + 12), tmp_name(u), tmp_name(u + 4), false);
        proof {
            lemma_concat_associative(o, w1 + r1.1 + w3, r2.1);
        }
        self.emit_kc_close(
            ctx, nc, jb_ctr.as_str(), kc_ctr.as_str(), jb_head.as_str(), jb_done.as_str(), kc_head.as_str(),
            kc_done.as_str(), jb0.as_str(), kc.as_str(), Ghost(t), Ghost(u),
        );
        proof {
            lemma_concat_associative(o, w1 + r1.1 + w3 + r2.1, kc_close_text(r2.0, u, t, *ctx, nc));
            assert(k_hi0@ == kcs);
            reveal(packed_kc_text);
        }
    }
}

} // verus!
