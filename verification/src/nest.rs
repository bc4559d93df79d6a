//! The tiled nests' row and j-tile drivers around the trio: the fixed-width
//! j split of one row block (constant-width main tiles, then one remainder
//! tile at the runtime width), one clipped boundary row, and the i regions
//! (head boundary rows, the `TI`-blocked interior, tail rows).
use vstd::prelude::*;
use vstd::seq_lib::lemma_concat_associative;
use crate::access::{latch_text, load_line, store_line};
use crate::arith::{branch_line, jump_line};
use crate::emit::{
    FnEmit, TileCtx, label_name, label_text, lemma_tile_index_counter, op_line, opt_text, row_window_text, select_line,
    term_views, tile_index_upto, tmp_name,
};
use crate::llt::align_ok;
use crate::num;
use crate::site::TileSite;
use crate::trio::{lemma_trio_width, opt_str, opt_texts, trio_text};

verus! {

/// The j loop's opening, ordinals from `t`: `j` starts at `jw_lo`; the
/// head `t` loads `j0` into `t+5` and enters the main tile `t+1` while
/// `j0 + TJ <= jw_hi`, else the remainder check `t+2`.
pub open spec fn j_open_text(t: nat, j_ctr: Seq<char>, jw_lo: Seq<char>, jw_hi: Seq<char>, tile_j: u64) -> Seq<char> {
    let j0 = tmp_name(t + 5);
    store_line("i64"@, jw_lo, j_ctr) + jump_line(label_name(t)) + label_text(label_name(t)) + load_line(j0, "i64"@, j_ctr)
        + op_line(tmp_name(t + 6), "add"@, j0, num::dec_nat(tile_j as nat)) + op_line(
        tmp_name(t + 7),
        "icmp ule"@,
        tmp_name(t + 6),
        jw_hi,
    ) + branch_line(tmp_name(t + 7), label_name(t + 1), label_name(t + 2)) + label_text(label_name(t + 1))
}

/// After a main tile, ordinals from `u` (the loop opened at `t`): `j += TJ`
/// and back to the head; the remainder check enters the remainder `t+3`
/// only while `j0 < jw_hi`, with the width `min(jw_hi - j0, TJ)` in `u+4`.
pub open spec fn j_step_text(u: nat, t: nat, j_ctr: Seq<char>, jw_hi: Seq<char>, tile_j: u64) -> Seq<char> {
    let tj = num::dec_nat(tile_j as nat);
    let j0 = tmp_name(t + 5);
    op_line(tmp_name(u), "add"@, j0, tj) + store_line("i64"@, tmp_name(u), j_ctr) + jump_line(label_name(t)) + label_text(
        label_name(t + 2),
    ) + op_line(tmp_name(u + 1), "icmp ult"@, j0, jw_hi) + branch_line(tmp_name(u + 1), label_name(t + 3), label_name(t + 4))
        + label_text(label_name(t + 3)) + op_line(tmp_name(u + 2), "sub"@, jw_hi, j0) + op_line(
        tmp_name(u + 3),
        "icmp ult"@,
        tmp_name(u + 2),
        tj,
    ) + select_line(tmp_name(u + 4), tmp_name(u + 3), tmp_name(u + 2), tj)
}

/// The fixed-width j loop over one row block, ordinals from `t`: head `t`,
/// main `t+1`, remainder check `t+2`, remainder `t+3`, done `t+4`; `j0` in
/// `t+5`. Main tiles run while `j0 + TJ <= jw_hi` at the literal width `TJ`;
/// then, only while `j0 < jw_hi`, one remainder tile at the runtime width
/// `min(jw_hi - j0, TJ)`.
#[verifier::opaque]
pub open spec fn j_split_text(
    t: nat,
    site: TileSite,
    ctx: TileCtx,
    j_ctr: Seq<char>,
    jw_lo: Seq<char>,
    jw_hi: Seq<char>,
    row0: Seq<char>,
    a_rows: Seq<Option<Seq<char>>>,
    b_row: Option<Seq<char>>,
) -> (nat, Seq<char>) {
    let tj = num::dec_nat(ctx.tile_j as nat);
    let done = label_name(t + 4);
    let j0 = tmp_name(t + 5);
    let full = trio_text(t + 8, site, ctx, j0, row0, a_rows, b_row, tj, true, None, None);
    let u = full.0;
    let part = trio_text(u + 5, site, ctx, j0, row0, a_rows, b_row, tmp_name(u + 4), false, None, None);
    let open = j_open_text(t, j_ctr, jw_lo, jw_hi, ctx.tile_j);
    let step = j_step_text(u, t, j_ctr, jw_hi, ctx.tile_j);
    (part.0, open + full.1 + step + part.1 + jump_line(done) + label_text(done))
}

/// What the trio needs of a site and context: the subrows' accumulator and
/// output strides fit, an unhoisted packed panel's size fits, and the
/// element type has an alignment.
pub open spec fn trio_fits(site: TileSite, ctx: TileCtx, rows: nat) -> bool {
    &&& rows * ctx.tile_j <= u64::MAX
    &&& rows * site.c <= u64::MAX
    &&& ctx.packed is Some ==> site.k * ctx.tile_j <= u64::MAX
    &&& align_ok(ctx.elem_llt@)
}

/// A nonzero constant base's text.
pub open spec fn base_text(b: u64) -> Option<Seq<char>> {
    if b != 0 {
        Some(num::dec_nat(b as nat))
    } else {
        None
    }
}

/// One `TI = 1` row body, ordinals from `t`: `row0 = i*C` into `t`, the
/// row's clipped column window (`jw_lo` in `t+3`, `jw_hi` in `t+6`), the
/// hoisted row bases `a.base + a.ci*i` and `b.base + b.ci*i`, then the
/// fixed-width j split over the window.
#[verifier::opaque]
pub open spec fn row_split_text(
    t: nat,
    site: TileSite,
    ctx: TileCtx,
    j_ctr: Seq<char>,
    lo: Seq<char>,
    hi: Seq<char>,
    i: Seq<char>,
) -> (nat, Seq<char>) {
    let row0 = tmp_name(t);
    let a = tile_index_upto(t + 7, base_text(site.a.base), seq![(site.a.ci, i)], 1);
    let b = tile_index_upto(a.0, base_text(site.b.base), seq![(site.b.ci, i)], 1);
    let js = j_split_text(b.0, site, ctx, j_ctr, tmp_name(t + 3), tmp_name(t + 6), row0, seq![a.1], b.1);
    (
        js.0,
        op_line(row0, "mul"@, i, num::dec_nat(site.c as nat)) + row_window_text(t + 1, lo, hi, row0, site.c) + a.2 + b.2
            + js.1,
    )
}

/// The clip of a packed j-tile to one boundary row's window, ordinals from
/// `t` (the window's `jw_lo` in `t-4`, `jw_hi` in `t-1`): the tile's end
/// `j0 + bound` into `t`, `tile_lo = max(jw_lo, j0)` into `t+2`,
/// `clipped_hi = min(jw_hi, j0 + bound)` into `t+4`, and whether any lane
/// is left into `t+5`.
pub open spec fn tile_clip_text(t: nat, jw_lo: Seq<char>, jw_hi: Seq<char>, j0: Seq<char>, bound: Seq<char>) -> Seq<char> {
    op_line(tmp_name(t), "add"@, j0, bound) + op_line(tmp_name(t + 1), "icmp ult"@, jw_lo, j0) + select_line(
        tmp_name(t + 2),
        tmp_name(t + 1),
        j0,
        jw_lo,
    ) + op_line(tmp_name(t + 3), "icmp ugt"@, jw_hi, tmp_name(t)) + select_line(
        tmp_name(t + 4),
        tmp_name(t + 3),
        tmp_name(t),
        jw_hi,
    ) + op_line(tmp_name(t + 5), "icmp ult"@, tmp_name(t + 2), tmp_name(t + 4))
}

/// The head of a packed boundary row, ordinals `t..t+16`: `row0 = i*C`,
/// the row window, the tile clip; into the body `t+13` only when lanes are
/// left (else to `t+14`), with `lanes` in `t+15` and the panel lane
/// `tile_lo - j0` in `t+16`.
pub open spec fn boundary_head_text(
    t: nat,
    site: TileSite,
    lo: Seq<char>,
    hi: Seq<char>,
    i: Seq<char>,
    j0: Seq<char>,
    bound: Seq<char>,
) -> Seq<char> {
    let row0 = tmp_name(t);
    op_line(row0, "mul"@, i, num::dec_nat(site.c as nat)) + row_window_text(t + 1, lo, hi, row0, site.c)
        + tile_clip_text(t + 7, tmp_name(t + 3), tmp_name(t + 6), j0, bound) + branch_line(
        tmp_name(t + 12),
        label_name(t + 13),
        label_name(t + 14),
    ) + label_text(label_name(t + 13)) + op_line(tmp_name(t + 15), "sub"@, tmp_name(t + 11), tmp_name(t + 9)) + op_line(
        tmp_name(t + 16),
        "sub"@,
        tmp_name(t + 9),
        j0,
    )
}

/// One boundary row of the packed j-outer nest, ordinals from `t`: the row
/// window, the packed tile `[j0, j0 + bound)` clipped to it; when lanes are
/// left, the single-subrow trio over them (`lanes = clipped_hi - tile_lo`,
/// panel lane `tile_lo - j0`).
#[verifier::opaque]
pub open spec fn packed_boundary_row_text(
    t: nat,
    site: TileSite,
    ctx: TileCtx,
    lo: Seq<char>,
    hi: Seq<char>,
    i: Seq<char>,
    j0: Seq<char>,
    bound: Seq<char>,
    main: bool,
    panel_base: Seq<char>,
) -> (nat, Seq<char>) {
    let row0 = tmp_name(t);
    let a = tile_index_upto(t + 17, base_text(site.a.base), seq![(site.a.ci, i)], 1);
    let tr = trio_text(
        a.0,
        site,
        ctx,
        tmp_name(t + 9),
        row0,
        seq![a.1],
        base_text(site.b.base),
        tmp_name(t + 15),
        main,
        Some(panel_base),
        Some(tmp_name(t + 16)),
    );
    (
        tr.0,
        boundary_head_text(t, site, lo, hi, i, j0, bound) + a.2 + tr.1 + jump_line(label_name(t + 14)) + label_text(
            label_name(t + 14),
        ),
    )
}

/// A packed j-tile the i regions run on: its start, lane bound, whether
/// it is a main tile, and its hoisted panel base.
pub open spec fn jt_view(j_tile: Option<(&str, &str, bool, &str)>) -> Option<(Seq<char>, Seq<char>, bool, Seq<char>)> {
    match j_tile {
        Some((j0, bound, main, pb)) => Some((j0@, bound@, main, pb@)),
        None => None,
    }
}

/// One `TI = 1` edge row at `i`, ordinals from `t`: the packed boundary
/// row of the given j-tile, or the row's own j split.
pub open spec fn edge_row_text(
    t: nat,
    site: TileSite,
    ctx: TileCtx,
    j_ctr: Seq<char>,
    lo: Seq<char>,
    hi: Seq<char>,
    i: Seq<char>,
    jt: Option<(Seq<char>, Seq<char>, bool, Seq<char>)>,
) -> (nat, Seq<char>) {
    match jt {
        Some((j0, bound, main, pb)) => packed_boundary_row_text(t, site, ctx, lo, hi, i, j0, bound, main, pb),
        None => row_split_text(t, site, ctx, j_ctr, lo, hi, i),
    }
}

/// A `TI = 1` row loop, ordinals from `t` (head `t`, body `t+1`, done
/// `t+2`, `i` in `t+3`): `i` starts at `start` when given (else where the
/// counter stands) and runs while `i < end`, one edge row per trip.
#[verifier::opaque]
pub open spec fn row_loop_text(
    t: nat,
    site: TileSite,
    ctx: TileCtx,
    i_ctr: Seq<char>,
    j_ctr: Seq<char>,
    lo: Seq<char>,
    hi: Seq<char>,
    start: Option<Seq<char>>,
    end: Seq<char>,
    jt: Option<(Seq<char>, Seq<char>, bool, Seq<char>)>,
) -> (nat, Seq<char>) {
    let i = tmp_name(t + 3);
    let init = match start {
        Some(s) => store_line("i64"@, s, i_ctr),
        None => Seq::empty(),
    };
    let open = init + jump_line(label_name(t)) + label_text(label_name(t)) + load_line(i, "i64"@, i_ctr) + op_line(
        tmp_name(t + 4),
        "icmp uge"@,
        i,
        end,
    ) + branch_line(tmp_name(t + 4), label_name(t + 2), label_name(t + 1)) + label_text(label_name(t + 1));
    let row = edge_row_text(t + 5, site, ctx, j_ctr, lo, hi, i, jt);
    (row.0 + 1, open + row.1 + latch_text(tmp_name(row.0), i, i_ctr, label_name(t), label_name(t + 2)))
}

/// The first `n` subrows' hoisted `a` row bases at block row `i`, ordinals
/// from `t`: subrow `r`'s is `(a.base + a.ci*r) + a.ci*i`.
pub open spec fn a_rows_text(t: nat, site: TileSite, i: Seq<char>, n: nat) -> (nat, Seq<char>, Seq<Option<Seq<char>>>)
    decreases n,
{
    if n == 0 {
        (t, Seq::empty(), Seq::empty())
    } else {
        let prev = a_rows_text(t, site, i, (n - 1) as nat);
        let r = (n - 1) as nat;
        let a = tile_index_upto(
            prev.0,
            base_text((site.a.base + site.a.ci * r) as u64),
            seq![(site.a.ci, i)],
            1,
        );
        (a.0, prev.1 + a.2, prev.2.push(a.1))
    }
}

/// The opening of a `TI`-blocked interior, ordinals `t..t+7` (head `t`,
/// body `t+1`, done `t+2`, the block's first row in `t+3`, its end in
/// `t+4`): the loop runs while a whole block of `TI` rows fits below
/// `i_fw_hi`; `row0 = i*C` in `t+6`.
pub open spec fn block_open_text(
    t: nat,
    site: TileSite,
    ctx: TileCtx,
    i_ctr: Seq<char>,
    i_fw_lo: Seq<char>,
    i_fw_hi: Seq<char>,
) -> Seq<char> {
    let i = tmp_name(t + 3);
    store_line("i64"@, i_fw_lo, i_ctr) + jump_line(label_name(t)) + label_text(label_name(t)) + load_line(
        i,
        "i64"@,
        i_ctr,
    ) + op_line(tmp_name(t + 4), "add"@, i, num::dec_nat(ctx.tile_i as nat)) + op_line(
        tmp_name(t + 5),
        "icmp ule"@,
        tmp_name(t + 4),
        i_fw_hi,
    ) + branch_line(tmp_name(t + 5), label_name(t + 1), label_name(t + 2)) + label_text(label_name(t + 1)) + op_line(
        tmp_name(t + 6),
        "mul"@,
        i,
        num::dec_nat(site.c as nat),
    )
}

/// The closing of the blocked interior opened at `t`: the counter moves to
/// the block's end, back to the head, then the done label.
pub open spec fn block_close_text(t: nat, i_ctr: Seq<char>) -> Seq<char> {
    store_line("i64"@, tmp_name(t + 4), i_ctr) + jump_line(label_name(t)) + label_text(label_name(t + 2))
}

/// The `TI`-blocked interior, ordinals from `t`: while a whole block of
/// `TI` rows fits below `i_fw_hi`, `row0 = i*C`, every subrow's `a` row
/// base, then the packed j-tile's trio or the block's j split over `[0, C)`.
#[verifier::opaque]
pub open spec fn block_region_text(
    t: nat,
    site: TileSite,
    ctx: TileCtx,
    i_ctr: Seq<char>,
    j_ctr: Seq<char>,
    i_fw_lo: Seq<char>,
    i_fw_hi: Seq<char>,
    jt: Option<(Seq<char>, Seq<char>, bool, Seq<char>)>,
) -> (nat, Seq<char>) {
    let i = tmp_name(t + 3);
    let row0 = tmp_name(t + 6);
    let a = a_rows_text(t + 7, site, i, ctx.tile_i as nat);
    let inner = match jt {
        Some((j0, bound, main, pb)) => trio_text(
            a.0,
            site,
            ctx,
            j0,
            row0,
            a.2,
            base_text(site.b.base),
            bound,
            main,
            Some(pb),
            None,
        ),
        None => j_split_text(a.0, site, ctx, j_ctr, "0"@, num::dec_nat(site.c as nat), row0, a.2, base_text(site.b.base)),
    };
    (inner.0, block_open_text(t, site, ctx, i_ctr, i_fw_lo, i_fw_hi) + a.1 + inner.1 + block_close_text(t, i_ctr))
}

/// The i regions of a row range, ordinals from `t`: the head boundary rows
/// `[i_lo, i_fw_lo)` one at a time, the `TI`-blocked interior from
/// `i_fw_lo` while whole blocks fit below `i_fw_hi`, then the remaining
/// rows up to `i_hi` one at a time.
#[verifier::opaque]
pub open spec fn i_regions_text(
    t: nat,
    site: TileSite,
    ctx: TileCtx,
    i_ctr: Seq<char>,
    j_ctr: Seq<char>,
    lo: Seq<char>,
    hi: Seq<char>,
    i_lo: Seq<char>,
    i_hi: Seq<char>,
    i_fw_lo: Seq<char>,
    i_fw_hi: Seq<char>,
    jt: Option<(Seq<char>, Seq<char>, bool, Seq<char>)>,
) -> (nat, Seq<char>) {
    let head = row_loop_text(t, site, ctx, i_ctr, j_ctr, lo, hi, Some(i_lo), i_fw_lo, jt);
    let blk = block_region_text(head.0, site, ctx, i_ctr, j_ctr, i_fw_lo, i_fw_hi, jt);
    let tail = row_loop_text(blk.0, site, ctx, i_ctr, j_ctr, lo, hi, None, i_hi, jt);
    (tail.0, head.1 + blk.1 + tail.1)
}

/// A packed panel's base for the j-tile at `j0`, ordinals `t` and `t+1`:
/// `(j0 / TJ) * (K*TJ)`.
pub open spec fn panel_base_text(t: nat, site: TileSite, ctx: TileCtx, j0: Seq<char>) -> Seq<char> {
    op_line(tmp_name(t), "udiv"@, j0, num::dec_nat(ctx.tile_j as nat)) + op_line(
        tmp_name(t + 1),
        "mul"@,
        tmp_name(t),
        num::dec_nat((site.k * ctx.tile_j) as nat),
    )
}

/// The packed j-outer nest, ordinals from `t`: the fixed-width j loop over
/// `[0, C)` with the i regions innermost: each main j-tile at the literal
/// width and the remainder tile at `min(C - j0, TJ)`, each with its panel
/// base.
#[verifier::opaque]
pub open spec fn packed_j_outer_text(
    t: nat,
    site: TileSite,
    ctx: TileCtx,
    i_ctr: Seq<char>,
    j_ctr: Seq<char>,
    lo: Seq<char>,
    hi: Seq<char>,
    i_lo: Seq<char>,
    i_hi: Seq<char>,
    i_fw_lo: Seq<char>,
    i_fw_hi: Seq<char>,
) -> (nat, Seq<char>) {
    let cs = num::dec_nat(site.c as nat);
    let j0 = tmp_name(t + 5);
    let main = i_regions_text(
        t + 10,
        site,
        ctx,
        i_ctr,
        j_ctr,
        lo,
        hi,
        i_lo,
        i_hi,
        i_fw_lo,
        i_fw_hi,
        Some((j0, num::dec_nat(ctx.tile_j as nat), true, tmp_name(t + 9))),
    );
    let u = main.0;
    let rem = i_regions_text(
        u + 7,
        site,
        ctx,
        i_ctr,
        j_ctr,
        lo,
        hi,
        i_lo,
        i_hi,
        i_fw_lo,
        i_fw_hi,
        Some((j0, tmp_name(u + 4), false, tmp_name(u + 6))),
    );
    (
        rem.0,
        j_open_text(t, j_ctr, "0"@, cs, ctx.tile_j) + panel_base_text(t + 8, site, ctx, j0) + main.1 + j_step_text(
            u,
            t,
            j_ctr,
            cs,
            ctx.tile_j,
        ) + panel_base_text(u + 5, site, ctx, j0) + rem.1 + jump_line(label_name(t + 4)) + label_text(label_name(t + 4)),
    )
}

/// What the i regions need of a site and context: the trio fits one row and
/// a whole block, and the block's `a` row bases fit.
pub open spec fn regions_fit(site: TileSite, ctx: TileCtx) -> bool {
    &&& trio_fits(site, ctx, 1)
    &&& trio_fits(site, ctx, ctx.tile_i as nat)
    &&& ctx.tile_i > 0 ==> site.a.base + site.a.ci * (ctx.tile_i - 1) <= u64::MAX
}

pub(crate) proof fn lemma_j_split_width(
    t: nat,
    site: TileSite,
    ctx: TileCtx,
    j_ctr: Seq<char>,
    jw_lo: Seq<char>,
    jw_hi: Seq<char>,
    row0: Seq<char>,
    a_rows: Seq<Option<Seq<char>>>,
    b_row: Option<Seq<char>>,
)
    ensures
        t <= j_split_text(t, site, ctx, j_ctr, jw_lo, jw_hi, row0, a_rows, b_row).0 <= t + 140 + 100 * a_rows.len(),
{
    reveal(j_split_text);
    let tj = num::dec_nat(ctx.tile_j as nat);
    let j0 = tmp_name(t + 5);
    lemma_trio_width(t + 8, site, ctx, j0, row0, a_rows, b_row, tj, true, None, None);
    let full = trio_text(t + 8, site, ctx, j0, row0, a_rows, b_row, tj, true, None, None);
    lemma_trio_width(full.0 + 5, site, ctx, j0, row0, a_rows, b_row, tmp_name(full.0 + 4), false, None, None);
}

proof fn lemma_edge_row_width(
    t: nat,
    site: TileSite,
    ctx: TileCtx,
    j_ctr: Seq<char>,
    lo: Seq<char>,
    hi: Seq<char>,
    i: Seq<char>,
    jt: Option<(Seq<char>, Seq<char>, bool, Seq<char>)>,
)
    ensures
        t <= edge_row_text(t, site, ctx, j_ctr, lo, hi, i, jt).0 <= t + 251,
{
    match jt {
        Some((j0, bound, main, pb)) => {
            reveal(packed_boundary_row_text);
            let tv = seq![(site.a.ci, i)];
            lemma_tile_index_counter(t + 17, base_text(site.a.base), tv, 1);
            let a = tile_index_upto(t + 17, base_text(site.a.base), tv, 1);
            lemma_trio_width(
                a.0,
                site,
                ctx,
                tmp_name(t + 9),
                tmp_name(t),
                seq![a.1],
                base_text(site.b.base),
                tmp_name(t + 15),
                main,
                Some(pb),
                Some(tmp_name(t + 16)),
            );
        },
        None => {
            reveal(row_split_text);
            let tva = seq![(site.a.ci, i)];
            lemma_tile_index_counter(t + 7, base_text(site.a.base), tva, 1);
            let a = tile_index_upto(t + 7, base_text(site.a.base), tva, 1);
            let tvb = seq![(site.b.ci, i)];
            lemma_tile_index_counter(a.0, base_text(site.b.base), tvb, 1);
            let b = tile_index_upto(a.0, base_text(site.b.base), tvb, 1);
            lemma_j_split_width(b.0, site, ctx, j_ctr, tmp_name(t + 3), tmp_name(t + 6), tmp_name(t), seq![a.1], b.1);
        },
    }
}

pub(crate) proof fn lemma_a_rows_width(t: nat, site: TileSite, i: Seq<char>, n: nat)
    ensures
        t <= a_rows_text(t, site, i, n).0 <= t + 2 * n,
        a_rows_text(t, site, i, n).2.len() == n,
    decreases n,
{
    if n > 0 {
        lemma_a_rows_width(t, site, i, (n - 1) as nat);
        let prev = a_rows_text(t, site, i, (n - 1) as nat);
        let r = (n - 1) as nat;
        lemma_tile_index_counter(prev.0, base_text((site.a.base + site.a.ci * r) as u64), seq![(site.a.ci, i)], 1);
    }
}

proof fn lemma_region_width(
    t: nat,
    site: TileSite,
    ctx: TileCtx,
    i_ctr: Seq<char>,
    j_ctr: Seq<char>,
    lo: Seq<char>,
    hi: Seq<char>,
    start: Option<Seq<char>>,
    end: Seq<char>,
    i_fw_lo: Seq<char>,
    i_fw_hi: Seq<char>,
    jt: Option<(Seq<char>, Seq<char>, bool, Seq<char>)>,
)
    ensures
        t <= row_loop_text(t, site, ctx, i_ctr, j_ctr, lo, hi, start, end, jt).0 <= t + 257,
        t <= block_region_text(t, site, ctx, i_ctr, j_ctr, i_fw_lo, i_fw_hi, jt).0 <= t + 147 + 102 * ctx.tile_i,
{
    reveal(row_loop_text);
    reveal(block_region_text);
    lemma_edge_row_width(t + 5, site, ctx, j_ctr, lo, hi, tmp_name(t + 3), jt);
    lemma_a_rows_width(t + 7, site, tmp_name(t + 3), ctx.tile_i as nat);
    let a = a_rows_text(t + 7, site, tmp_name(t + 3), ctx.tile_i as nat);
    match jt {
        Some((j0, bound, main, pb)) => {
            lemma_trio_width(a.0, site, ctx, j0, tmp_name(t + 6), a.2, base_text(site.b.base), bound, main, Some(pb), None);
        },
        None => {
            lemma_j_split_width(a.0, site, ctx, j_ctr, "0"@, num::dec_nat(site.c as nat), tmp_name(t + 6), a.2, base_text(site.b.base));
        },
    }
}

pub proof fn lemma_i_regions_width(
    t: nat,
    site: TileSite,
    ctx: TileCtx,
    i_ctr: Seq<char>,
    j_ctr: Seq<char>,
    lo: Seq<char>,
    hi: Seq<char>,
    i_lo: Seq<char>,
    i_hi: Seq<char>,
    i_fw_lo: Seq<char>,
    i_fw_hi: Seq<char>,
    jt: Option<(Seq<char>, Seq<char>, bool, Seq<char>)>,
)
    ensures
        t <= i_regions_text(t, site, ctx, i_ctr, j_ctr, lo, hi, i_lo, i_hi, i_fw_lo, i_fw_hi, jt).0 <= t + 661 + 102
            * ctx.tile_i,
{
    reveal(i_regions_text);
    lemma_region_width(t, site, ctx, i_ctr, j_ctr, lo, hi, Some(i_lo), i_fw_lo, i_fw_lo, i_fw_hi, jt);
    let head = row_loop_text(t, site, ctx, i_ctr, j_ctr, lo, hi, Some(i_lo), i_fw_lo, jt);
    lemma_region_width(head.0, site, ctx, i_ctr, j_ctr, lo, hi, None, i_hi, i_fw_lo, i_fw_hi, jt);
    let blk = block_region_text(head.0, site, ctx, i_ctr, j_ctr, i_fw_lo, i_fw_hi, jt);
    lemma_region_width(blk.0, site, ctx, i_ctr, j_ctr, lo, hi, None, i_hi, i_fw_lo, i_fw_hi, jt);
}

impl<'a> FnEmit<'a> {
    /// Open the j loop: `j = jw_lo`; at the head, load `j0` and test whether
    /// a full `TJ` tile fits below `jw_hi`. Returns the five labels and `j0`.
    pub(crate) fn emit_j_open(&mut self, j_ctr: &str, jw_lo: &str, jw_hi: &str, tile_j: u64) -> (r: (
        String,
        String,
        String,
        String,
        String,
        String,
    ))
        requires
            old(self).next + 8 <= u32::MAX,
        ensures
            ({
                let t = old(self).next as nat;
                &&& r.0@ == label_name(t)
                &&& r.1@ == label_name(t + 1)
                &&& r.2@ == label_name(t + 2)
                &&& r.3@ == label_name(t + 3)
                &&& r.4@ == label_name(t + 4)
                &&& r.5@ == tmp_name(t + 5)
                &&& final(self).body@ == old(self).body@ + j_open_text(t, j_ctr@, jw_lo@, jw_hi@, tile_j)
            }),
            final(self).next == old(self).next + 8,
            final(self).allocas == old(self).allocas,
            final(self).heap_used == old(self).heap_used,
            final(self).same_setup(*old(self)),
    {
        let ghost t = old(self).next as nat;
        let ghost o = old(self).body@;
        let head = self.label();
        let main = self.label();
        let rem_check = self.label();
        let rem = self.label();
        let done = self.label();
        self.emit_store("i64", jw_lo, j_ctr);
        let ghost p1 = store_line("i64"@, jw_lo@, j_ctr@);
        self.jump(head.as_str());
        let ghost p2 = jump_line(label_name(t));
        proof {
            lemma_concat_associative(o, p1, p2);
        }
        self.label_line(head.as_str());
        let ghost p3 = label_text(label_name(t));
        proof {
            lemma_concat_associative(o, p1 + p2, p3);
        }
        let j0 = self.emit_load("i64", j_ctr);
        let ghost p4 = load_line(tmp_name(t + 5), "i64"@, j_ctr@);
        proof {
            lemma_concat_associative(o, p1 + p2 + p3, p4);
        }
        let tj = num::u64_to_string(tile_j);
        let j0_full = self.emit_op("add", j0.as_str(), tj.as_str());
        let ghost p5 = op_line(tmp_name(t + 6), "add"@, tmp_name(t + 5), num::dec_nat(tile_j as nat));
        proof {
            lemma_concat_associative(o, p1 + p2 + p3 + p4, p5);
        }
        let full = self.emit_op("icmp ule", j0_full.as_str(), jw_hi);
        let ghost p6 = op_line(tmp_name(t + 7), "icmp ule"@, tmp_name(t + 6), jw_hi@);
        proof {
            lemma_concat_associative(o, p1 + p2 + p3 + p4 + p5, p6);
        }
        self.branch(full.as_str(), main.as_str(), rem_check.as_str());
        let ghost p7 = branch_line(tmp_name(t + 7), label_name(t + 1), label_name(t + 2));
        proof {
            lemma_concat_associative(o, p1 + p2 + p3 + p4 + p5 + p6, p7);
        }
        self.label_line(main.as_str());
        proof {
            lemma_concat_associative(o, p1 + p2 + p3 + p4 + p5 + p6 + p7, label_text(label_name(t + 1)));
        }
        (head, main, rem_check, rem, done, j0)
    }

    /// After a main tile: `j += TJ` and back to the head; the remainder
    /// check, and the remainder's width `min(jw_hi - j0, TJ)`, which it
    /// returns.
    #[verifier::spinoff_prover]
    pub(crate) fn emit_j_step(
        &mut self,
        j_ctr: &str,
        jw_hi: &str,
        tile_j: u64,
        head: &str,
        rem_check: &str,
        rem: &str,
        done: &str,
        j0: &str,
        Ghost(t): Ghost<nat>,
    ) -> (w: String)
        requires
            old(self).next + 5 <= u32::MAX,
            head@ == label_name(t),
            rem_check@ == label_name(t + 2),
            rem@ == label_name(t + 3),
            done@ == label_name(t + 4),
            j0@ == tmp_name(t + 5),
        ensures
            w@ == tmp_name(old(self).next as nat + 4),
            final(self).body@ == old(self).body@ + j_step_text(old(self).next as nat, t, j_ctr@, jw_hi@, tile_j),
            final(self).next == old(self).next + 5,
            final(self).allocas == old(self).allocas,
            final(self).heap_used == old(self).heap_used,
            final(self).same_setup(*old(self)),
    {
        let ghost u = old(self).next as nat;
        let ghost o = old(self).body@;
        let tj = num::u64_to_string(tile_j);
        let ghost tjs = num::dec_nat(tile_j as nat);
        let j0_next = self.emit_op("add", j0, tj.as_str());
        let ghost p1 = op_line(tmp_name(u), "add"@, j0@, tjs);
        self.emit_store("i64", j0_next.as_str(), j_ctr);
        let ghost p2 = store_line("i64"@, tmp_name(u), j_ctr@);
        proof {
            lemma_concat_associative(o, p1, p2);
        }
        self.jump(head);
        let ghost p3 = jump_line(head@);
        proof {
            lemma_concat_associative(o, p1 + p2, p3);
        }
        self.label_line(rem_check);
        let ghost p4 = label_text(rem_check@);
        proof {
            lemma_concat_associative(o, p1 + p2 + p3, p4);
        }
        let ghost w4 = p1 + p2 + p3 + p4;
        let rem_exists = self.emit_op("icmp ult", j0, jw_hi);
        let ghost p5 = op_line(tmp_name(u + 1), "icmp ult"@, j0@, jw_hi@);
        proof {
            lemma_concat_associative(o, w4, p5);
        }
        self.branch(rem_exists.as_str(), rem, done);
        let ghost p6 = branch_line(tmp_name(u + 1), rem@, done@);
        proof {
            lemma_concat_associative(o, w4 + p5, p6);
        }
        self.label_line(rem);
        let ghost p7 = label_text(rem@);
        proof {
            lemma_concat_associative(o, w4 + p5 + p6, p7);
        }
        let ghost w7 = w4 + p5 + p6 + p7;
        let remaining = self.emit_op("sub", jw_hi, j0);
        let ghost p8 = op_line(tmp_name(u + 2), "sub"@, jw_hi@, j0@);
        proof {
            lemma_concat_associative(o, w7, p8);
        }
        let partial = self.emit_op("icmp ult", remaining.as_str(), tj.as_str());
        let ghost p9 = op_line(tmp_name(u + 3), "icmp ult"@, tmp_name(u + 2), tjs);
        proof {
            lemma_concat_associative(o, w7 + p8, p9);
        }
        let width = self.emit_select(partial.as_str(), remaining.as_str(), tj.as_str());
        proof {
            lemma_concat_associative(o, w7 + p8 + p9, select_line(tmp_name(u + 4), tmp_name(u + 3), tmp_name(u + 2), tjs));
        }
        width
    }

    /// The fixed-width j loop over one row block: constant-width main tiles
    /// while `j0 + TJ <= jw_hi`, then one remainder tile at the runtime
    /// width, entered only while `j0 < jw_hi`.
    #[verifier::spinoff_prover]
    pub fn emit_tile_j_split(
        &mut self,
        site: &TileSite,
        ctx: &TileCtx,
        j_ctr: &str,
        jw_lo: &str,
        jw_hi: &str,
        row0: &str,
        a_rows: &[Option<String>],
        b_row: &Option<String>,
    )
        requires
            old(self).next + 140 + 100 * a_rows@.len() <= u32::MAX,
            trio_fits(*site, *ctx, a_rows@.len()),
        ensures
            ({
                let res = j_split_text(
                    old(self).next as nat,
                    *site,
                    *ctx,
                    j_ctr@,
                    jw_lo@,
                    jw_hi@,
                    row0@,
                    opt_texts(a_rows@),
                    opt_text(*b_row),
                );
                &&& final(self).next == res.0
                &&& final(self).body@ == old(self).body@ + res.1
            }),
            final(self).allocas == old(self).allocas,
            final(self).heap_used == old(self).heap_used,
            final(self).same_setup(*old(self)),
    {
        let ghost t = old(self).next as nat;
        let ghost o = old(self).body@;
        let ghost ar = opt_texts(a_rows@);
        let ghost tjs = num::dec_nat(ctx.tile_j as nat);
        let (head, main, rem_check, rem, done, j0) = self.emit_j_open(j_ctr, jw_lo, jw_hi, ctx.tile_j);
        let ghost w1 = j_open_text(t, j_ctr@, jw_lo@, jw_hi@, ctx.tile_j);
        let lane_full = num::u64_to_string(ctx.tile_j);
        proof {
            lemma_trio_width(t + 8, *site, *ctx, j0@, row0@, ar, opt_text(*b_row), tjs, true, None, None);
        }
        self.emit_tile_trio(site, ctx, j0.as_str(), row0, a_rows, b_row, lane_full.as_str(), true, None, None);
        let ghost full = trio_text(t + 8, *site, *ctx, j0@, row0@, ar, opt_text(*b_row), tjs, true, None, None);
        proof {
            lemma_concat_associative(o, w1, full.1);
        }
        let u = self.emit_j_step(
            j_ctr, jw_hi, ctx.tile_j, head.as_str(), rem_check.as_str(), rem.as_str(), done.as_str(), j0.as_str(),
            Ghost(t),
        );
        let ghost p3 = j_step_text(full.0, t, j_ctr@, jw_hi@, ctx.tile_j);
        proof {
            lemma_concat_associative(o, w1 + full.1, p3);
            lemma_trio_width(full.0 + 5, *site, *ctx, j0@, row0@, ar, opt_text(*b_row), tmp_name(full.0 + 4), false, None, None);
        }
        self.emit_tile_trio(site, ctx, j0.as_str(), row0, a_rows, b_row, u.as_str(), false, None, None);
        let ghost part = trio_text(full.0 + 5, *site, *ctx, j0@, row0@, ar, opt_text(*b_row), tmp_name(full.0 + 4), false, None, None);
        proof {
            lemma_concat_associative(o, w1 + full.1 + p3, part.1);
        }
        self.jump(done.as_str());
        proof {
            lemma_concat_associative(o, w1 + full.1 + p3 + part.1, jump_line(label_name(t + 4)));
        }
        self.label_line(done.as_str());
        proof {
            lemma_concat_associative(o, w1 + full.1 + p3 + part.1 + jump_line(label_name(t + 4)), label_text(label_name(t + 4)));
            reveal(j_split_text);
        }
    }

    /// A nonzero constant base's text, else none.
    pub(crate) fn base_option(b: u64) -> (r: Option<String>)
        ensures
            opt_text(r) == base_text(b),
    {
        if b != 0 {
            Some(num::u64_to_string(b))
        } else {
            None
        }
    }

    /// One `TI = 1` row body: the row's clipped column window (signed, as
    /// `lo - i*C` goes negative), the hoisted row bases, then the j split.
    #[verifier::spinoff_prover]
    pub fn emit_tile_row_split_j(&mut self, site: &TileSite, ctx: &TileCtx, j_ctr: &str, lo: &str, hi: &str, i: &str)
        requires
            old(self).next + 251 <= u32::MAX,
            trio_fits(*site, *ctx, 1),
        ensures
            ({
                let res = row_split_text(old(self).next as nat, *site, *ctx, j_ctr@, lo@, hi@, i@);
                &&& final(self).next == res.0
                &&& final(self).body@ == old(self).body@ + res.1
            }),
            final(self).allocas == old(self).allocas,
            final(self).heap_used == old(self).heap_used,
            final(self).same_setup(*old(self)),
    {
        let ghost t = old(self).next as nat;
        let ghost o = old(self).body@;
        let c = num::u64_to_string(site.c);
        let row0 = self.emit_op("mul", i, c.as_str());
        let ghost p1 = op_line(tmp_name(t), "mul"@, i@, num::dec_nat(site.c as nat));
        let (jw_lo, jw_hi) = self.emit_row_window(site, lo, hi, row0.as_str());
        let ghost p2 = row_window_text(t + 1, lo@, hi@, tmp_name(t), site.c);
        proof {
            lemma_concat_associative(o, p1, p2);
        }
        let ta = [(site.a.ci, i)];
        let ghost tva = seq![(site.a.ci, i@)];
        assert(term_views(ta@) =~= tva);
        proof {
            lemma_tile_index_counter(t + 7, base_text(site.a.base), tva, 1);
        }
        let a_row = self.emit_tile_index(Self::base_option(site.a.base), &ta);
        let ghost a = tile_index_upto(t + 7, base_text(site.a.base), tva, 1);
        proof {
            lemma_concat_associative(o, p1 + p2, a.2);
        }
        let tb = [(site.b.ci, i)];
        let ghost tvb = seq![(site.b.ci, i@)];
        assert(term_views(tb@) =~= tvb);
        proof {
            lemma_tile_index_counter(a.0, base_text(site.b.base), tvb, 1);
        }
        let b_row = self.emit_tile_index(Self::base_option(site.b.base), &tb);
        let ghost b = tile_index_upto(a.0, base_text(site.b.base), tvb, 1);
        proof {
            lemma_concat_associative(o, p1 + p2 + a.2, b.2);
        }
        let a_rows = [a_row];
        assert(opt_texts(a_rows@) =~= seq![a.1]);
        assert(opt_text(b_row) == b.1);
        self.emit_tile_j_split(site, ctx, j_ctr, jw_lo.as_str(), jw_hi.as_str(), row0.as_str(), &a_rows, &b_row);
        proof {
            lemma_concat_associative(
                o,
                p1 + p2 + a.2 + b.2,
                j_split_text(b.0, *site, *ctx, j_ctr@, tmp_name(t + 3), tmp_name(t + 6), tmp_name(t), seq![a.1], b.1).1,
            );
            reveal(row_split_text);
        }
    }

    /// The clip of a packed j-tile to a boundary row's window.
    pub(crate) fn emit_tile_clip(&mut self, jw_lo: &str, jw_hi: &str, j0: &str, bound: &str) -> (r: (String, String, String))
        requires
            old(self).next + 6 <= u32::MAX,
        ensures
            ({
                let t = old(self).next as nat;
                &&& r.0@ == tmp_name(t + 2)
                &&& r.1@ == tmp_name(t + 4)
                &&& r.2@ == tmp_name(t + 5)
                &&& final(self).body@ == old(self).body@ + tile_clip_text(t, jw_lo@, jw_hi@, j0@, bound@)
            }),
            final(self).next == old(self).next + 6,
            final(self).allocas == old(self).allocas,
            final(self).heap_used == old(self).heap_used,
            final(self).same_setup(*old(self)),
    {
        let ghost t = old(self).next as nat;
        let ghost o = old(self).body@;
        let tile_hi = self.emit_op("add", j0, bound);
        let ghost p1 = op_line(tmp_name(t), "add"@, j0@, bound@);
        let starts_before = self.emit_op("icmp ult", jw_lo, j0);
        let ghost p2 = op_line(tmp_name(t + 1), "icmp ult"@, jw_lo@, j0@);
        proof {
            lemma_concat_associative(o, p1, p2);
        }
        let tile_lo = self.emit_select(starts_before.as_str(), j0, jw_lo);
        let ghost p3 = select_line(tmp_name(t + 2), tmp_name(t + 1), j0@, jw_lo@);
        proof {
            lemma_concat_associative(o, p1 + p2, p3);
        }
        let ends_after = self.emit_op("icmp ugt", jw_hi, tile_hi.as_str());
        let ghost p4 = op_line(tmp_name(t + 3), "icmp ugt"@, jw_hi@, tmp_name(t));
        proof {
            lemma_concat_associative(o, p1 + p2 + p3, p4);
        }
        let clipped_hi = self.emit_select(ends_after.as_str(), tile_hi.as_str(), jw_hi);
        let ghost p5 = select_line(tmp_name(t + 4), tmp_name(t + 3), tmp_name(t), jw_hi@);
        proof {
            lemma_concat_associative(o, p1 + p2 + p3 + p4, p5);
        }
        let has_lanes = self.emit_op("icmp ult", tile_lo.as_str(), clipped_hi.as_str());
        proof {
            lemma_concat_associative(o, p1 + p2 + p3 + p4 + p5, op_line(tmp_name(t + 5), "icmp ult"@, tmp_name(t + 2), tmp_name(t + 4)));
        }
        (tile_lo, clipped_hi, has_lanes)
    }

    /// The head of a packed boundary row: `row0`, the window, the tile
    /// clip, the branch into the body when lanes are left, the lane count
    /// and the panel lane. Returns `row0`, `tile_lo`, `lanes`, the panel
    /// lane and the done label.
    #[verifier::spinoff_prover]
    fn emit_boundary_head(&mut self, site: &TileSite, lo: &str, hi: &str, i: &str, j0: &str, bound: &str) -> (r: (
        String,
        String,
        String,
        String,
        String,
    ))
        requires
            old(self).next + 17 <= u32::MAX,
        ensures
            ({
                let t = old(self).next as nat;
                &&& r.0@ == tmp_name(t)
                &&& r.1@ == tmp_name(t + 9)
                &&& r.2@ == tmp_name(t + 15)
                &&& r.3@ == tmp_name(t + 16)
                &&& r.4@ == label_name(t + 14)
                &&& final(self).body@ == old(self).body@ + boundary_head_text(t, *site, lo@, hi@, i@, j0@, bound@)
            }),
            final(self).next == old(self).next + 17,
            final(self).allocas == old(self).allocas,
            final(self).heap_used == old(self).heap_used,
            final(self).same_setup(*old(self)),
    {
        let ghost t = old(self).next as nat;
        let ghost o = old(self).body@;
        let c = num::u64_to_string(site.c);
        let row0 = self.emit_op("mul", i, c.as_str());
        let ghost p1 = op_line(tmp_name(t), "mul"@, i@, num::dec_nat(site.c as nat));
        let (jw_lo, jw_hi) = self.emit_row_window(site, lo, hi, row0.as_str());
        let ghost p2 = row_window_text(t + 1, lo@, hi@, tmp_name(t), site.c);
        proof {
            lemma_concat_associative(o, p1, p2);
        }
        let (tile_lo, clipped_hi, has_lanes) = self.emit_tile_clip(jw_lo.as_str(), jw_hi.as_str(), j0, bound);
        let ghost p3 = tile_clip_text(t + 7, tmp_name(t + 3), tmp_name(t + 6), j0@, bound@);
        proof {
            lemma_concat_associative(o, p1 + p2, p3);
        }
        let body = self.label();
        let done = self.label();
        self.branch(has_lanes.as_str(), body.as_str(), done.as_str());
        let ghost p4 = branch_line(tmp_name(t + 12), label_name(t + 13), label_name(t + 14));
        proof {
            lemma_concat_associative(o, p1 + p2 + p3, p4);
        }
        self.label_line(body.as_str());
        let ghost p5 = label_text(label_name(t + 13));
        proof {
            lemma_concat_associative(o, p1 + p2 + p3 + p4, p5);
        }
        let lanes = self.emit_op("sub", clipped_hi.as_str(), tile_lo.as_str());
        let ghost p6 = op_line(tmp_name(t + 15), "sub"@, tmp_name(t + 11), tmp_name(t + 9));
        proof {
            lemma_concat_associative(o, p1 + p2 + p3 + p4 + p5, p6);
        }
        let panel_lane0 = self.emit_op("sub", tile_lo.as_str(), j0);
        proof {
            lemma_concat_associative(o, p1 + p2 + p3 + p4 + p5 + p6, op_line(tmp_name(t + 16), "sub"@, tmp_name(t + 9), j0@));
        }
        (row0, tile_lo, lanes, panel_lane0, done)
    }

    /// One boundary row of the packed j-outer nest: clip the packed tile
    /// `[j0, j0 + bound)` to the row's window and, when lanes are left, run
    /// the single-subrow trio over them at the panel lane `tile_lo - j0`.
    #[verifier::spinoff_prover]
    pub fn emit_tile_packed_boundary_row(
        &mut self,
        site: &TileSite,
        ctx: &TileCtx,
        lo: &str,
        hi: &str,
        i: &str,
        j0: &str,
        bound: &str,
        main: bool,
        panel_base: &str,
    )
        requires
            old(self).next + 129 <= u32::MAX,
            trio_fits(*site, *ctx, 1),
        ensures
            ({
                let res = packed_boundary_row_text(old(self).next as nat, *site, *ctx, lo@, hi@, i@, j0@, bound@, main, panel_base@);
                &&& final(self).next == res.0
                &&& final(self).body@ == old(self).body@ + res.1
            }),
            final(self).allocas == old(self).allocas,
            final(self).heap_used == old(self).heap_used,
            final(self).same_setup(*old(self)),
    {
        let ghost t = old(self).next as nat;
        let ghost o = old(self).body@;
        let (row0, tile_lo, lanes, panel_lane0, done) = self.emit_boundary_head(site, lo, hi, i, j0, bound);
        let ghost w1 = boundary_head_text(t, *site, lo@, hi@, i@, j0@, bound@);
        let ta = [(site.a.ci, i)];
        let ghost tva = seq![(site.a.ci, i@)];
        assert(term_views(ta@) =~= tva);
        proof {
            lemma_tile_index_counter(t + 17, base_text(site.a.base), tva, 1);
        }
        let a_row = self.emit_tile_index(Self::base_option(site.a.base), &ta);
        let ghost a = tile_index_upto(t + 17, base_text(site.a.base), tva, 1);
        proof {
            lemma_concat_associative(o, w1, a.2);
        }
        let b_row = Self::base_option(site.b.base);
        let a_rows = [a_row];
        assert(opt_texts(a_rows@) =~= seq![a.1]);
        proof {
            lemma_trio_width(a.0, *site, *ctx, tmp_name(t + 9), tmp_name(t), seq![a.1], base_text(site.b.base), tmp_name(t + 15), main, Some(panel_base@), Some(tmp_name(t + 16)));
        }
        self.emit_tile_trio(
            site, ctx, tile_lo.as_str(), row0.as_str(), &a_rows, &b_row, lanes.as_str(), main, Some(panel_base),
            Some(panel_lane0.as_str()),
        );
        let ghost tr = trio_text(a.0, *site, *ctx, tmp_name(t + 9), tmp_name(t), seq![a.1], base_text(site.b.base), tmp_name(t + 15), main, Some(panel_base@), Some(tmp_name(t + 16)));
        proof {
            lemma_concat_associative(o, w1 + a.2, tr.1);
        }
        self.jump(done.as_str());
        proof {
            lemma_concat_associative(o, w1 + a.2 + tr.1, jump_line(label_name(t + 14)));
        }
        self.label_line(done.as_str());
        proof {
            lemma_concat_associative(o, w1 + a.2 + tr.1 + jump_line(label_name(t + 14)), label_text(label_name(t + 14)));
            reveal(packed_boundary_row_text);
        }
    }

    /// One `TI = 1` edge row at `i`: the packed boundary row of the given
    /// j-tile, or the row's own j split.
    fn emit_edge_row(
        &mut self,
        site: &TileSite,
        ctx: &TileCtx,
        j_ctr: &str,
        lo: &str,
        hi: &str,
        i: &str,
        j_tile: Option<(&str, &str, bool, &str)>,
    )
        requires
            old(self).next + 251 <= u32::MAX,
            trio_fits(*site, *ctx, 1),
        ensures
            ({
                let res = edge_row_text(old(self).next as nat, *site, *ctx, j_ctr@, lo@, hi@, i@, jt_view(j_tile));
                &&& final(self).next == res.0
                &&& final(self).body@ == old(self).body@ + res.1
            }),
            final(self).allocas == old(self).allocas,
            final(self).heap_used == old(self).heap_used,
            final(self).same_setup(*old(self)),
    {
        match j_tile {
            Some((j0, bound, main, panel_base)) => {
                self.emit_tile_packed_boundary_row(site, ctx, lo, hi, i, j0, bound, main, panel_base)
            },
            None => self.emit_tile_row_split_j(site, ctx, j_ctr, lo, hi, i),
        }
    }

    /// A `TI = 1` row loop: from `start` (when given) while `i < end`, one
    /// edge row per trip.
    #[verifier::spinoff_prover]
    fn emit_row_loop(
        &mut self,
        site: &TileSite,
        ctx: &TileCtx,
        i_ctr: &str,
        j_ctr: &str,
        lo: &str,
        hi: &str,
        start: Option<&str>,
        end: &str,
        j_tile: Option<(&str, &str, bool, &str)>,
    )
        requires
            old(self).next + 257 <= u32::MAX,
            trio_fits(*site, *ctx, 1),
        ensures
            ({
                let res = row_loop_text(
                    old(self).next as nat,
                    *site,
                    *ctx,
                    i_ctr@,
                    j_ctr@,
                    lo@,
                    hi@,
                    opt_str(start),
                    end@,
                    jt_view(j_tile),
                );
                &&& final(self).next == res.0
                &&& final(self).body@ == old(self).body@ + res.1
            }),
            final(self).allocas == old(self).allocas,
            final(self).heap_used == old(self).heap_used,
            final(self).same_setup(*old(self)),
    {
        let ghost t = old(self).next as nat;
        let ghost o = old(self).body@;
        let head = self.label();
        let body = self.label();
        let done = self.label();
        let ghost init = match opt_str(start) {
            Some(s) => store_line("i64"@, s, i_ctr@),
            None => Seq::<char>::empty(),
        };
        match start {
            Some(s) => self.emit_store("i64", s, i_ctr),
            None => {
                assert(o + Seq::<char>::empty() =~= o);
            },
        }
        self.jump(head.as_str());
        let ghost p2 = jump_line(label_name(t));
        proof {
            lemma_concat_associative(o, init, p2);
        }
        self.label_line(head.as_str());
        let ghost p3 = label_text(label_name(t));
        proof {
            lemma_concat_associative(o, init + p2, p3);
        }
        let i = self.emit_load("i64", i_ctr);
        let ghost p4 = load_line(tmp_name(t + 3), "i64"@, i_ctr@);
        proof {
            lemma_concat_associative(o, init + p2 + p3, p4);
        }
        let at_end = self.emit_op("icmp uge", i.as_str(), end);
        let ghost p5 = op_line(tmp_name(t + 4), "icmp uge"@, tmp_name(t + 3), end@);
        proof {
            lemma_concat_associative(o, init + p2 + p3 + p4, p5);
        }
        self.branch(at_end.as_str(), done.as_str(), body.as_str());
        let ghost p6 = branch_line(tmp_name(t + 4), label_name(t + 2), label_name(t + 1));
        proof {
            lemma_concat_associative(o, init + p2 + p3 + p4 + p5, p6);
        }
        self.label_line(body.as_str());
        let ghost p7 = label_text(label_name(t + 1));
        proof {
            lemma_concat_associative(o, init + p2 + p3 + p4 + p5 + p6, p7);
        }
        let ghost w7 = init + p2 + p3 + p4 + p5 + p6 + p7;
        proof {
            lemma_edge_row_width(t + 5, *site, *ctx, j_ctr@, lo@, hi@, tmp_name(t + 3), jt_view(j_tile));
        }
        self.emit_edge_row(site, ctx, j_ctr, lo, hi, i.as_str(), j_tile);
        let ghost row = edge_row_text(t + 5, *site, *ctx, j_ctr@, lo@, hi@, tmp_name(t + 3), jt_view(j_tile));
        proof {
            lemma_concat_associative(o, w7, row.1);
        }
        self.emit_loop_tail(i_ctr, i.as_str(), head.as_str(), done.as_str());
        proof {
            lemma_concat_associative(o, w7 + row.1, latch_text(tmp_name(row.0), tmp_name(t + 3), i_ctr@, label_name(t), label_name(t + 2)));
            reveal(row_loop_text);
        }
    }

    /// Every subrow's hoisted `a` row base at block row `i`.
    pub(crate) fn emit_tile_a_rows(&mut self, site: &TileSite, i: &str, n: u64) -> (v: Vec<Option<String>>)
        requires
            old(self).next + 2 * n <= u32::MAX,
            n > 0 ==> site.a.base + site.a.ci * (n - 1) <= u64::MAX,
        ensures
            ({
                let res = a_rows_text(old(self).next as nat, *site, i@, n as nat);
                &&& final(self).next == res.0
                &&& final(self).body@ == old(self).body@ + res.1
                &&& opt_texts(v@) == res.2
            }),
            final(self).allocas == old(self).allocas,
            final(self).heap_used == old(self).heap_used,
            final(self).same_setup(*old(self)),
    {
        let ghost t = old(self).next as nat;
        let ghost o = old(self).body@;
        let mut v: Vec<Option<String>> = Vec::new();
        let mut r: u64 = 0;
        while r < n
            invariant
                r <= n,
                t + 2 * n <= u32::MAX,
                n > 0 ==> site.a.base + site.a.ci * (n - 1) <= u64::MAX,
                ({
                    let res = a_rows_text(t, *site, i@, r as nat);
                    &&& self.next == res.0
                    &&& self.body@ == o + res.1
                    &&& opt_texts(v@) == res.2
                }),
                self.allocas == old(self).allocas,
                self.heap_used == old(self).heap_used,
                self.same_setup(*old(self)),
            decreases n - r,
        {
            let ghost prev = a_rows_text(t, *site, i@, r as nat);
            proof {
                lemma_a_rows_width(t, *site, i@, r as nat);
                vstd::arithmetic::mul::lemma_mul_inequality(r as int, (n - 1) as int, site.a.ci as int);
            }
            let base_r = site.a.base + site.a.ci * r;
            let terms = [(site.a.ci, i)];
            let ghost tv = seq![(site.a.ci, i@)];
            assert(term_views(terms@) =~= tv);
            proof {
                lemma_tile_index_counter(prev.0, base_text(base_r), tv, 1);
            }
            let a_row = self.emit_tile_index(Self::base_option(base_r), &terms);
            let ghost a = tile_index_upto(prev.0, base_text(base_r), tv, 1);
            proof {
                lemma_concat_associative(o, prev.1, a.2);
                assert((site.a.base + site.a.ci * (r as nat)) as u64 == base_r);
            }
            let ghost pv = opt_texts(v@);
            v.push(a_row);
            assert(opt_texts(v@) =~= pv.push(a.1));
            r += 1;
        }
        v
    }

    /// Open the blocked interior; returns the head and done labels, the
    /// block's first row, its end and `row0`.
    #[verifier::spinoff_prover]
    pub(crate) fn emit_block_open(&mut self, site: &TileSite, ctx: &TileCtx, i_ctr: &str, i_fw_lo: &str, i_fw_hi: &str) -> (r: (
        String,
        String,
        String,
        String,
        String,
    ))
        requires
            old(self).next + 7 <= u32::MAX,
        ensures
            ({
                let t = old(self).next as nat;
                &&& r.0@ == label_name(t)
                &&& r.1@ == label_name(t + 2)
                &&& r.2@ == tmp_name(t + 3)
                &&& r.3@ == tmp_name(t + 4)
                &&& r.4@ == tmp_name(t + 6)
                &&& final(self).body@ == old(self).body@ + block_open_text(t, *site, *ctx, i_ctr@, i_fw_lo@, i_fw_hi@)
            }),
            final(self).next == old(self).next + 7,
            final(self).allocas == old(self).allocas,
            final(self).heap_used == old(self).heap_used,
            final(self).same_setup(*old(self)),
    {
        let ghost t = old(self).next as nat;
        let ghost o = old(self).body@;
        let head = self.label();
        let body = self.label();
        let done = self.label();
        self.emit_store("i64", i_fw_lo, i_ctr);
        let ghost p1 = store_line("i64"@, i_fw_lo@, i_ctr@);
        self.jump(head.as_str());
        let ghost p2 = jump_line(label_name(t));
        proof {
            lemma_concat_associative(o, p1, p2);
        }
        self.label_line(head.as_str());
        let ghost p3 = label_text(label_name(t));
        proof {
            lemma_concat_associative(o, p1 + p2, p3);
        }
        let i_blk = self.emit_load("i64", i_ctr);
        let ghost p4 = load_line(tmp_name(t + 3), "i64"@, i_ctr@);
        proof {
            lemma_concat_associative(o, p1 + p2 + p3, p4);
        }
        let ti = num::u64_to_string(ctx.tile_i);
        let i_blk_end = self.emit_op("add", i_blk.as_str(), ti.as_str());
        let ghost p5 = op_line(tmp_name(t + 4), "add"@, tmp_name(t + 3), num::dec_nat(ctx.tile_i as nat));
        proof {
            lemma_concat_associative(o, p1 + p2 + p3 + p4, p5);
        }
        let fits = self.emit_op("icmp ule", i_blk_end.as_str(), i_fw_hi);
        let ghost p6 = op_line(tmp_name(t + 5), "icmp ule"@, tmp_name(t + 4), i_fw_hi@);
        proof {
            lemma_concat_associative(o, p1 + p2 + p3 + p4 + p5, p6);
        }
        let ghost w6 = p1 + p2 + p3 + p4 + p5 + p6;
        self.branch(fits.as_str(), body.as_str(), done.as_str());
        let ghost p7 = branch_line(tmp_name(t + 5), label_name(t + 1), label_name(t + 2));
        proof {
            lemma_concat_associative(o, w6, p7);
        }
        self.label_line(body.as_str());
        let ghost p8 = label_text(label_name(t + 1));
        proof {
            lemma_concat_associative(o, w6 + p7, p8);
        }
        let c = num::u64_to_string(site.c);
        let row0 = self.emit_op("mul", i_blk.as_str(), c.as_str());
        proof {
            lemma_concat_associative(o, w6 + p7 + p8, op_line(tmp_name(t + 6), "mul"@, tmp_name(t + 3), num::dec_nat(site.c as nat)));
        }
        (head, done, i_blk, i_blk_end, row0)
    }

    /// Close the blocked interior opened at `t`.
    pub(crate) fn emit_block_close(&mut self, i_ctr: &str, head: &str, done: &str, i_blk_end: &str, Ghost(t): Ghost<nat>)
        requires
            head@ == label_name(t),
            done@ == label_name(t + 2),
            i_blk_end@ == tmp_name(t + 4),
        ensures
            final(self).body@ == old(self).body@ + block_close_text(t, i_ctr@),
            final(self).next == old(self).next,
            final(self).allocas == old(self).allocas,
            final(self).heap_used == old(self).heap_used,
            final(self).same_setup(*old(self)),
    {
        let ghost o = old(self).body@;
        self.emit_store("i64", i_blk_end, i_ctr);
        let ghost q1 = store_line("i64"@, tmp_name(t + 4), i_ctr@);
        self.jump(head);
        let ghost q2 = jump_line(label_name(t));
        proof {
            lemma_concat_associative(o, q1, q2);
        }
        self.label_line(done);
        proof {
            lemma_concat_associative(o, q1 + q2, label_text(label_name(t + 2)));
        }
    }

    /// The `TI`-blocked interior: while a whole block fits below `i_fw_hi`,
    /// the block's `a` row bases, then the packed j-tile's trio or the
    /// block's j split over `[0, C)`.
    #[verifier::spinoff_prover]
    fn emit_block_region(
        &mut self,
        site: &TileSite,
        ctx: &TileCtx,
        i_ctr: &str,
        j_ctr: &str,
        i_fw_lo: &str,
        i_fw_hi: &str,
        j_tile: Option<(&str, &str, bool, &str)>,
    )
        requires
            old(self).next + 147 + 102 * ctx.tile_i <= u32::MAX,
            trio_fits(*site, *ctx, ctx.tile_i as nat),
            ctx.tile_i > 0 ==> site.a.base + site.a.ci * (ctx.tile_i - 1) <= u64::MAX,
        ensures
            ({
                let res = block_region_text(
                    old(self).next as nat,
                    *site,
                    *ctx,
                    i_ctr@,
                    j_ctr@,
                    i_fw_lo@,
                    i_fw_hi@,
                    jt_view(j_tile),
                );
                &&& final(self).next == res.0
                &&& final(self).body@ == old(self).body@ + res.1
            }),
            final(self).allocas == old(self).allocas,
            final(self).heap_used == old(self).heap_used,
            final(self).same_setup(*old(self)),
    {
        let ghost t = old(self).next as nat;
        let ghost o = old(self).body@;
        let (head, done, i_blk, i_blk_end, row0) = self.emit_block_open(site, ctx, i_ctr, i_fw_lo, i_fw_hi);
        let ghost w9 = block_open_text(t, *site, *ctx, i_ctr@, i_fw_lo@, i_fw_hi@);
        proof {
            lemma_a_rows_width(t + 7, *site, tmp_name(t + 3), ctx.tile_i as nat);
        }
        let a_rows = self.emit_tile_a_rows(site, i_blk.as_str(), ctx.tile_i);
        let ghost a = a_rows_text(t + 7, *site, tmp_name(t + 3), ctx.tile_i as nat);
        proof {
            lemma_concat_associative(o, w9, a.1);
        }
        let b_row = Self::base_option(site.b.base);
        let ghost inner = match jt_view(j_tile) {
            Some((j0, bound, main, pb)) => trio_text(a.0, *site, *ctx, j0, tmp_name(t + 6), a.2, base_text(site.b.base), bound, main, Some(pb), None),
            None => j_split_text(a.0, *site, *ctx, j_ctr@, "0"@, num::dec_nat(site.c as nat), tmp_name(t + 6), a.2, base_text(site.b.base)),
        };
        match j_tile {
            Some((j0, bound, main, panel_base)) => {
                proof {
                    lemma_trio_width(a.0, *site, *ctx, j0@, tmp_name(t + 6), a.2, base_text(site.b.base), bound@, main, Some(panel_base@), None);
                }
                self.emit_tile_trio(site, ctx, j0, row0.as_str(), a_rows.as_slice(), &b_row, bound, main, Some(panel_base), None);
            },
            None => {
                proof {
                    lemma_j_split_width(a.0, *site, *ctx, j_ctr@, "0"@, num::dec_nat(site.c as nat), tmp_name(t + 6), a.2, base_text(site.b.base));
                }
                let c = num::u64_to_string(site.c);
                self.emit_tile_j_split(site, ctx, j_ctr, "0", c.as_str(), row0.as_str(), a_rows.as_slice(), &b_row);
            },
        }
        proof {
            lemma_concat_associative(o, w9 + a.1, inner.1);
        }
        self.emit_block_close(i_ctr, head.as_str(), done.as_str(), i_blk_end.as_str(), Ghost(t));
        proof {
            lemma_concat_associative(o, w9 + a.1 + inner.1, block_close_text(t, i_ctr@));
            reveal(block_region_text);
        }
    }

    /// The i regions of a row range: the head boundary rows `[i_lo,
    /// i_fw_lo)`, the `TI`-blocked interior from `i_fw_lo` while whole
    /// blocks fit below `i_fw_hi`, then the rest up to `i_hi`, edge rows one
    /// at a time. With a packed j-tile, the rows run that tile; else each
    /// runs its own j split.
    #[verifier::spinoff_prover]
    pub fn emit_tile_i_regions(
        &mut self,
        site: &TileSite,
        ctx: &TileCtx,
        i_ctr: &str,
        j_ctr: &str,
        lo: &str,
        hi: &str,
        i_lo: &str,
        i_hi: &str,
        i_fw_lo: &str,
        i_fw_hi: &str,
        j_tile: Option<(&str, &str, bool, &str)>,
    )
        requires
            old(self).next + 661 + 102 * ctx.tile_i <= u32::MAX,
            trio_fits(*site, *ctx, 1),
            trio_fits(*site, *ctx, ctx.tile_i as nat),
            ctx.tile_i > 0 ==> site.a.base + site.a.ci * (ctx.tile_i - 1) <= u64::MAX,
        ensures
            ({
                let res = i_regions_text(
                    old(self).next as nat,
                    *site,
                    *ctx,
                    i_ctr@,
                    j_ctr@,
                    lo@,
                    hi@,
                    i_lo@,
                    i_hi@,
                    i_fw_lo@,
                    i_fw_hi@,
                    jt_view(j_tile),
                );
                &&& final(self).next == res.0
                &&& final(self).body@ == old(self).body@ + res.1
            }),
            final(self).allocas == old(self).allocas,
            final(self).heap_used == old(self).heap_used,
            final(self).same_setup(*old(self)),
    {
        reveal(i_regions_text);
        let ghost t = old(self).next as nat;
        let ghost o = old(self).body@;
        let ghost jt = jt_view(j_tile);
        proof {
            lemma_region_width(t, *site, *ctx, i_ctr@, j_ctr@, lo@, hi@, Some(i_lo@), i_fw_lo@, i_fw_lo@, i_fw_hi@, jt);
        }
        self.emit_row_loop(site, ctx, i_ctr, j_ctr, lo, hi, Some(i_lo), i_fw_lo, j_tile);
        let ghost head = row_loop_text(t, *site, *ctx, i_ctr@, j_ctr@, lo@, hi@, Some(i_lo@), i_fw_lo@, jt);
        proof {
            lemma_region_width(head.0, *site, *ctx, i_ctr@, j_ctr@, lo@, hi@, None, i_hi@, i_fw_lo@, i_fw_hi@, jt);
        }
        self.emit_block_region(site, ctx, i_ctr, j_ctr, i_fw_lo, i_fw_hi, j_tile);
        let ghost blk = block_region_text(head.0, *site, *ctx, i_ctr@, j_ctr@, i_fw_lo@, i_fw_hi@, jt);
        proof {
            lemma_concat_associative(o, head.1, blk.1);
            lemma_region_width(blk.0, *site, *ctx, i_ctr@, j_ctr@, lo@, hi@, None, i_hi@, i_fw_lo@, i_fw_hi@, jt);
        }
        self.emit_row_loop(site, ctx, i_ctr, j_ctr, lo, hi, None, i_hi, j_tile);
        proof {
            lemma_concat_associative(o, head.1 + blk.1, row_loop_text(blk.0, *site, *ctx, i_ctr@, j_ctr@, lo@, hi@, None, i_hi@, jt).1);
        }
    }

    /// The packed j-outer nest: the fixed-width j loop over `[0, C)`, each
    /// j-tile (main at `TJ`, then the remainder at `min(C - j0, TJ)`)
    /// running the i regions on its packed panel.
    #[verifier::spinoff_prover]
    pub fn emit_tile_packed_j_outer(
        &mut self,
        site: &TileSite,
        ctx: &TileCtx,
        i_ctr: &str,
        j_ctr: &str,
        lo: &str,
        hi: &str,
        i_lo: &str,
        i_hi: &str,
        i_fw_lo: &str,
        i_fw_hi: &str,
    )
        requires
            old(self).next + 1400 + 204 * ctx.tile_i <= u32::MAX,
            regions_fit(*site, *ctx),
            site.k * ctx.tile_j <= u64::MAX,
        ensures
            ({
                let res = packed_j_outer_text(
                    old(self).next as nat,
                    *site,
                    *ctx,
                    i_ctr@,
                    j_ctr@,
                    lo@,
                    hi@,
                    i_lo@,
                    i_hi@,
                    i_fw_lo@,
                    i_fw_hi@,
                );
                &&& final(self).next == res.0
                &&& final(self).body@ == old(self).body@ + res.1
            }),
            final(self).allocas == old(self).allocas,
            final(self).heap_used == old(self).heap_used,
            final(self).same_setup(*old(self)),
    {
        let ghost t = old(self).next as nat;
        let ghost o = old(self).body@;
        let c = num::u64_to_string(site.c);
        let ghost cs = num::dec_nat(site.c as nat);
        let (head, main, rem_check, rem, done, j0) = self.emit_j_open(j_ctr, "0", c.as_str(), ctx.tile_j);
        let ghost w1 = j_open_text(t, j_ctr@, "0"@, cs, ctx.tile_j);
        let panel_base = self.emit_tile_panel_base(site, ctx, j0.as_str());
        let ghost p2 = panel_base_text(t + 8, *site, *ctx, j0@);
        proof {
            lemma_concat_associative(
                o + w1,
                op_line(tmp_name(t + 8), "udiv"@, j0@, num::dec_nat(ctx.tile_j as nat)),
                op_line(tmp_name(t + 9), "mul"@, tmp_name(t + 8), num::dec_nat((site.k * ctx.tile_j) as nat)),
            );
            lemma_concat_associative(o, w1, p2);
        }
        let lane_full = num::u64_to_string(ctx.tile_j);
        let ghost jt1 = Some((j0@, lane_full@, true, tmp_name(t + 9)));
        proof {
            lemma_i_regions_width(t + 10, *site, *ctx, i_ctr@, j_ctr@, lo@, hi@, i_lo@, i_hi@, i_fw_lo@, i_fw_hi@, jt1);
        }
        self.emit_tile_i_regions(
            site, ctx, i_ctr, j_ctr, lo, hi, i_lo, i_hi, i_fw_lo, i_fw_hi,
            Some((j0.as_str(), lane_full.as_str(), true, panel_base.as_str())),
        );
        let ghost m = i_regions_text(t + 10, *site, *ctx, i_ctr@, j_ctr@, lo@, hi@, i_lo@, i_hi@, i_fw_lo@, i_fw_hi@, jt1);
        proof {
            lemma_concat_associative(o, w1 + p2, m.1);
        }
        let tj = self.emit_j_step(
            j_ctr, c.as_str(), ctx.tile_j, head.as_str(), rem_check.as_str(), rem.as_str(), done.as_str(), j0.as_str(),
            Ghost(t),
        );
        let ghost p4 = j_step_text(m.0, t, j_ctr@, cs, ctx.tile_j);
        proof {
            lemma_concat_associative(o, w1 + p2 + m.1, p4);
        }
        let panel_base2 = self.emit_tile_panel_base(site, ctx, j0.as_str());
        let ghost p5 = panel_base_text(m.0 + 5, *site, *ctx, j0@);
        proof {
            lemma_concat_associative(
                o + (w1 + p2 + m.1 + p4),
                op_line(tmp_name(m.0 + 5), "udiv"@, j0@, num::dec_nat(ctx.tile_j as nat)),
                op_line(tmp_name(m.0 + 6), "mul"@, tmp_name(m.0 + 5), num::dec_nat((site.k * ctx.tile_j) as nat)),
            );
            lemma_concat_associative(o, w1 + p2 + m.1 + p4, p5);
        }
        let ghost jt2 = Some((j0@, tmp_name(m.0 + 4), false, tmp_name(m.0 + 6)));
        proof {
            lemma_i_regions_width(m.0 + 7, *site, *ctx, i_ctr@, j_ctr@, lo@, hi@, i_lo@, i_hi@, i_fw_lo@, i_fw_hi@, jt2);
        }
        self.emit_tile_i_regions(
            site, ctx, i_ctr, j_ctr, lo, hi, i_lo, i_hi, i_fw_lo, i_fw_hi,
            Some((j0.as_str(), tj.as_str(), false, panel_base2.as_str())),
        );
        let ghost r = i_regions_text(m.0 + 7, *site, *ctx, i_ctr@, j_ctr@, lo@, hi@, i_lo@, i_hi@, i_fw_lo@, i_fw_hi@, jt2);
        proof {
            lemma_concat_associative(o, w1 + p2 + m.1 + p4 + p5, r.1);
        }
        self.jump(done.as_str());
        proof {
            lemma_concat_associative(o, w1 + p2 + m.1 + p4 + p5 + r.1, jump_line(label_name(t + 4)));
        }
        self.label_line(done.as_str());
        proof {
            lemma_concat_associative(o, w1 + p2 + m.1 + p4 + p5 + r.1 + jump_line(label_name(t + 4)), label_text(label_name(t + 4)));
            assert(lane_full@ == num::dec_nat(ctx.tile_j as nat));
            reveal(packed_j_outer_text);
        }
    }
}

} // verus!
