//! The conv nest's row drivers around the conv j-tile: the `TI = 1` row
//! range (each row's clipped window, its row bases, the fixed-width j
//! split) and the `TI`-blocked interior of a sliding read, whose blocks
//! share each tap row's `b` load across the rows that use it.
use vstd::prelude::*;
use vstd::seq_lib::lemma_concat_associative;
use crate::access::{latch_text, load_line, store_line};
use crate::arith::{branch_line, jump_line};
use crate::conv::{ConvTileCtx, conv_tile_text, conv_window_ok, lemma_conv_tile_width};
use crate::conv_block::{block_budget, block_tap_rows, conv_block_tile_text, kq_rows, lemma_conv_block_tile_width};
use crate::emit::{
    FnEmit, label_name, label_text, lemma_tile_index_counter, op_line, opt_text, row_window_text, term_views,
    tile_index_upto, tmp_name,
};
use crate::llt::align_ok;
use crate::nest::{base_text, j_open_text, j_step_text};
use crate::num;
use crate::site::TileSite;
use crate::trio::opt_texts;

verus! {

/// The conv j split of one row, ordinals from `t` (the j loop's labels
/// `t..t+4`, `j0` in `t+5`): main tiles at the literal width while
/// `j0 + TJ <= jw_hi`, then, only while `j0 < jw_hi`, one remainder tile at
/// `min(jw_hi - j0, TJ)`.
#[verifier::opaque]
pub open spec fn conv_j_split_text(
    t: nat,
    site: TileSite,
    ctx: ConvTileCtx,
    j_ctr: Seq<char>,
    jw_lo: Seq<char>,
    jw_hi: Seq<char>,
    row0: Seq<char>,
    a_row: Option<Seq<char>>,
    b_row: Option<Seq<char>>,
) -> (nat, Seq<char>) {
    let j0 = tmp_name(t + 5);
    let main = conv_tile_text(t + 8, site, ctx, j0, row0, a_row, b_row, num::dec_nat(ctx.tile_j as nat));
    let u = main.0;
    let rem = conv_tile_text(u + 5, site, ctx, j0, row0, a_row, b_row, tmp_name(u + 4));
    (
        rem.0,
        j_open_text(t, j_ctr, jw_lo, jw_hi, ctx.tile_j) + main.1 + j_step_text(u, t, j_ctr, jw_hi, ctx.tile_j) + rem.1
            + jump_line(label_name(t + 4)) + label_text(label_name(t + 4)),
    )
}

/// One conv row at `i`, ordinals from `t`: `row0 = i*C`, the row's clipped
/// window `[jw_lo, jw_hi)` (signed, in `t+3` and `t+6`), its `a` and `b`
/// row bases, then the row's j split.
#[verifier::opaque]
pub open spec fn conv_row_text(
    t: nat,
    site: TileSite,
    ctx: ConvTileCtx,
    j_ctr: Seq<char>,
    lo: Seq<char>,
    hi: Seq<char>,
    i: Seq<char>,
) -> (nat, Seq<char>) {
    let row0 = tmp_name(t);
    let a = tile_index_upto(t + 7, base_text(site.a.base), seq![(site.a.ci, i)], 1);
    let b = tile_index_upto(a.0, base_text(site.b.base), seq![(site.b.ci, i)], 1);
    let js = conv_j_split_text(b.0, site, ctx, j_ctr, tmp_name(t + 3), tmp_name(t + 6), row0, a.1, b.1);
    (
        js.0,
        op_line(row0, "mul"@, i, num::dec_nat(site.c as nat)) + row_window_text(t + 1, lo, hi, row0, site.c) + a.2 + b.2
            + js.1,
    )
}

/// The `TI = 1` conv row loop, ordinals from `t` (head `t`, body `t+1`,
/// done `t+2`, `i` in `t+3`): it resumes where the counter stands, runs
/// one conv row per trip while `i < to`, and leaves the counter at `to`.
#[verifier::opaque]
pub open spec fn conv_row_range_text(
    t: nat,
    site: TileSite,
    ctx: ConvTileCtx,
    i_ctr: Seq<char>,
    j_ctr: Seq<char>,
    to: Seq<char>,
    lo: Seq<char>,
    hi: Seq<char>,
) -> (nat, Seq<char>) {
    let i = tmp_name(t + 3);
    let open = jump_line(label_name(t)) + label_text(label_name(t)) + load_line(i, "i64"@, i_ctr) + op_line(
        tmp_name(t + 4),
        "icmp uge"@,
        i,
        to,
    ) + branch_line(tmp_name(t + 4), label_name(t + 2), label_name(t + 1)) + label_text(label_name(t + 1));
    let row = conv_row_text(t + 5, site, ctx, j_ctr, lo, hi, i);
    (row.0 + 1, open + row.1 + latch_text(tmp_name(row.0), i, i_ctr, label_name(t), label_name(t + 2)))
}

/// Block row `r`'s read base for the first `n` rows, ordinals from `w`:
/// the block's own base `block` when `coeff*r == 0`, else `block + coeff*r`
/// (`0 + coeff*r` without a base) minted into a fresh temporary.
/// `(next, text, bases)`.
pub open spec fn conv_shifted_rows(w: nat, block: Option<Seq<char>>, coeff: u64, n: nat) -> (
    nat,
    Seq<char>,
    Seq<Option<Seq<char>>>,
)
    decreases n,
{
    if n == 0 {
        (w, Seq::empty(), Seq::empty())
    } else {
        let prev = conv_shifted_rows(w, block, coeff, (n - 1) as nat);
        let off = coeff * (n - 1);
        if off == 0 {
            (prev.0, prev.1, prev.2.push(block))
        } else {
            let base = match block {
                Some(b) => b,
                None => "0"@,
            };
            (
                prev.0 + 1,
                prev.1 + op_line(tmp_name(prev.0), "add"@, base, num::dec_nat(off as nat)),
                prev.2.push(Some(tmp_name(prev.0))),
            )
        }
    }
}

/// The `ti` block rows' read bases of one operand at block row `i`,
/// ordinals from `u`: the block's base `base + coeff*i`, then each row's.
pub open spec fn conv_row_bases(u: nat, base: u64, coeff: u64, i: Seq<char>, ti: nat) -> (
    nat,
    Seq<char>,
    Seq<Option<Seq<char>>>,
) {
    let blk = tile_index_upto(u, base_text(base), seq![(coeff, i)], 1);
    let sh = conv_shifted_rows(blk.0, blk.1, coeff, ti);
    (sh.0, blk.2 + sh.1, sh.2)
}

/// The remainder lanes of the first `n` block rows, ordinals from `w`:
/// row `r` at `row0 + r*C` (minted unless `r == 0`), one memory-form conv
/// tile over `rem_len` lanes from `j_rem`.
pub open spec fn conv_rem_tiles(
    w: nat,
    site: TileSite,
    ctx: ConvTileCtx,
    j_rem: Seq<char>,
    row0: Seq<char>,
    a_rows: Seq<Option<Seq<char>>>,
    b_rows: Seq<Option<Seq<char>>>,
    rem_len: Seq<char>,
    n: nat,
) -> (nat, Seq<char>)
    decreases n,
{
    if n == 0 {
        (w, Seq::empty())
    } else {
        let prev = conv_rem_tiles(w, site, ctx, j_rem, row0, a_rows, b_rows, rem_len, (n - 1) as nat);
        let r = (n - 1) as nat;
        let start: (nat, Seq<char>, Seq<char>) = if r == 0 {
            (prev.0, Seq::empty(), row0)
        } else {
            (prev.0 + 1, op_line(tmp_name(prev.0), "add"@, row0, num::dec_nat((r * site.c) as nat)), tmp_name(prev.0))
        };
        let tile = conv_tile_text(start.0, site, ctx, j_rem, start.2, a_rows[r as int], b_rows[r as int], rem_len);
        (tile.0, prev.1 + start.1 + tile.1)
    }
}

/// The opening of the blocked interior, ordinals `t..t+7` (head `t`, body
/// `t+1`, done `t+2`, the block's first row in `t+3`, its end in `t+4`):
/// it resumes where the counter stands, enters the body while a whole
/// block of `ti` rows fits below `to`, and computes `row0 = i*C` in `t+6`.
pub open spec fn blocked_open_text(t: nat, site: TileSite, i_ctr: Seq<char>, to: Seq<char>, ti: nat) -> Seq<char> {
    let i = tmp_name(t + 3);
    jump_line(label_name(t)) + label_text(label_name(t)) + load_line(i, "i64"@, i_ctr) + op_line(
        tmp_name(t + 4),
        "add"@,
        i,
        num::dec_nat(ti),
    ) + op_line(tmp_name(t + 5), "icmp ule"@, tmp_name(t + 4), to) + branch_line(tmp_name(t + 5), label_name(t + 1), label_name(t + 2))
        + label_text(label_name(t + 1)) + op_line(tmp_name(t + 6), "mul"@, i, num::dec_nat(site.c as nat))
}

/// The opening of the blocks' j loop, ordinals `v..v+6` (head `v`, body
/// `v+1`, done `v+2`, `j0` in `v+3`): from 0 while `j0 + TJ <= C`.
pub open spec fn blocked_j_open_text(v: nat, site: TileSite, ctx: ConvTileCtx, j_ctr: Seq<char>) -> Seq<char> {
    let j0 = tmp_name(v + 3);
    store_line("i64"@, "0"@, j_ctr) + jump_line(label_name(v)) + label_text(label_name(v)) + load_line(j0, "i64"@, j_ctr)
        + op_line(tmp_name(v + 4), "add"@, j0, num::dec_nat(ctx.tile_j as nat)) + op_line(
        tmp_name(v + 5),
        "icmp ule"@,
        tmp_name(v + 4),
        num::dec_nat(site.c as nat),
    ) + branch_line(tmp_name(v + 5), label_name(v + 1), label_name(v + 2)) + label_text(label_name(v + 1))
}

/// After a block, ordinals from `x` (the j loop opened at `v`): `j += TJ`,
/// back to the head; then, past the loop, the remainder check (the
/// remainder's start in `x+1`, body `x+3`, done `x+4`) and its width
/// `C - j_rem` in `x+5`.
pub open spec fn blocked_j_close_text(x: nat, v: nat, site: TileSite, ctx: ConvTileCtx, j_ctr: Seq<char>) -> Seq<char> {
    let j0 = tmp_name(v + 3);
    let j_rem = tmp_name(x + 1);
    let cs = num::dec_nat(site.c as nat);
    op_line(tmp_name(x), "add"@, j0, num::dec_nat(ctx.tile_j as nat)) + store_line("i64"@, tmp_name(x), j_ctr) + jump_line(
        label_name(v),
    ) + label_text(label_name(v + 2)) + load_line(j_rem, "i64"@, j_ctr) + op_line(tmp_name(x + 2), "icmp ult"@, j_rem, cs)
        + branch_line(tmp_name(x + 2), label_name(x + 3), label_name(x + 4)) + label_text(label_name(x + 3)) + op_line(
        tmp_name(x + 5),
        "sub"@,
        cs,
        j_rem,
    )
}

/// The closing, after the remainder tiles (the remainder done label `x+4`,
/// the interior opened at `t`): the counter moves to the block's end, back
/// to the head, then the done label.
pub open spec fn blocked_close_text(x: nat, t: nat, i_ctr: Seq<char>) -> Seq<char> {
    jump_line(label_name(x + 4)) + label_text(label_name(x + 4)) + store_line("i64"@, tmp_name(t + 4), i_ctr) + jump_line(
        label_name(t),
    ) + label_text(label_name(t + 2))
}

/// The `ti`-blocked interior rows of a sliding conv read, ordinals from
/// `t`: while a whole block fits below `to`, `row0 = i*C`, the rows' `a`
/// and `b` bases, the constant-width j-tiles across `[0, C)` as conv
/// blocks, then the remaining `< TJ` lanes as `ti` separate memory-form
/// row tiles; the counter moves to the block's end.
#[verifier::opaque]
pub open spec fn conv_blocked_range_text(
    t: nat,
    site: TileSite,
    ctx: ConvTileCtx,
    i_ctr: Seq<char>,
    j_ctr: Seq<char>,
    to: Seq<char>,
    ti: nat,
    q: nat,
) -> (nat, Seq<char>) {
    let i = tmp_name(t + 3);
    let row0 = tmp_name(t + 6);
    let a = conv_row_bases(t + 7, site.a.base, site.a.ci, i, ti);
    let b = conv_row_bases(a.0, site.b.base, site.b.ci, i, ti);
    let v = b.0;
    let blk = conv_block_tile_text(v + 6, site, ctx, tmp_name(v + 3), row0, a.2, b.2[0], ti, q);
    let x = blk.0;
    let rem = conv_rem_tiles(x + 6, site, ctx, tmp_name(x + 1), row0, a.2, b.2, tmp_name(x + 5), ti);
    (
        rem.0,
        blocked_open_text(t, site, i_ctr, to, ti) + a.1 + b.1 + blocked_j_open_text(v, site, ctx, j_ctr) + blk.1
            + blocked_j_close_text(x, v, site, ctx, j_ctr) + rem.1 + blocked_close_text(x, t, i_ctr),
    )
}

/// What a blocked conv interior of `ti` rows with tap-row stride `q` needs
/// of a site: at least one row, every row's read offsets and output row
/// start, and every tap offset of the block's union fit a `u64`.
pub open spec fn conv_block_fits(site: TileSite, ti: nat, q: nat) -> bool {
    &&& ti > 0
    &&& (ti - 1) * q + kq_rows(site) <= u64::MAX
    &&& (ti - 1) * site.c <= u64::MAX
    &&& (ti - 1) * site.a.ci <= u64::MAX
    &&& (ti - 1) * site.b.ci <= u64::MAX
    &&& block_tap_rows(site, ti, q) > 0 ==> site.b.ksplit.unwrap().cq * (block_tap_rows(site, ti, q) - 1)
        + site.b.ksplit.unwrap().cr * (site.b.ksplit.unwrap().div - 1) <= u64::MAX
}

/// The ordinals a blocked conv interior may take.
pub open spec fn blocked_budget(site: TileSite, ti: nat, q: nat) -> nat {
    (23 + 2 * ti + block_budget(site, ti, q) + ti * (21 + 18 * site.k)) as nat
}

proof fn lemma_shifted_rows_width(w: nat, block: Option<Seq<char>>, coeff: u64, n: nat)
    ensures
        w <= conv_shifted_rows(w, block, coeff, n).0 <= w + n,
        conv_shifted_rows(w, block, coeff, n).2.len() == n,
    decreases n,
{
    if n > 0 {
        lemma_shifted_rows_width(w, block, coeff, (n - 1) as nat);
    }
}

proof fn lemma_row_bases_width(u: nat, base: u64, coeff: u64, i: Seq<char>, ti: nat)
    ensures
        u <= conv_row_bases(u, base, coeff, i, ti).0 <= u + 2 + ti,
        conv_row_bases(u, base, coeff, i, ti).2.len() == ti,
{
    lemma_tile_index_counter(u, base_text(base), seq![(coeff, i)], 1);
    let blk = tile_index_upto(u, base_text(base), seq![(coeff, i)], 1);
    lemma_shifted_rows_width(blk.0, blk.1, coeff, ti);
}

proof fn lemma_rem_tiles_width(
    w: nat,
    site: TileSite,
    ctx: ConvTileCtx,
    j_rem: Seq<char>,
    row0: Seq<char>,
    a_rows: Seq<Option<Seq<char>>>,
    b_rows: Seq<Option<Seq<char>>>,
    rem_len: Seq<char>,
    n: nat,
)
    ensures
        w <= conv_rem_tiles(w, site, ctx, j_rem, row0, a_rows, b_rows, rem_len, n).0 <= w + n * (21 + 18 * site.k),
    decreases n,
{
    if n > 0 {
        lemma_rem_tiles_width(w, site, ctx, j_rem, row0, a_rows, b_rows, rem_len, (n - 1) as nat);
        let prev = conv_rem_tiles(w, site, ctx, j_rem, row0, a_rows, b_rows, rem_len, (n - 1) as nat);
        let r = (n - 1) as nat;
        let s0 = if r == 0 { prev.0 } else { prev.0 + 1 };
        let row = if r == 0 { row0 } else { tmp_name(prev.0) };
        lemma_conv_tile_width(s0, site, ctx, j_rem, row, a_rows[r as int], b_rows[r as int], rem_len);
        assert((n - 1) * (21 + 18 * site.k) + (21 + 18 * site.k) == n * (21 + 18 * site.k)) by (nonlinear_arith);
    }
}

/// A blocked conv interior takes at most `blocked_budget` ordinals.
pub proof fn lemma_conv_blocked_range_width(
    t: nat,
    site: TileSite,
    ctx: ConvTileCtx,
    i_ctr: Seq<char>,
    j_ctr: Seq<char>,
    to: Seq<char>,
    ti: nat,
    q: nat,
)
    ensures
        t <= conv_blocked_range_text(t, site, ctx, i_ctr, j_ctr, to, ti, q).0 <= t + blocked_budget(site, ti, q),
{
    reveal(conv_blocked_range_text);
    let i = tmp_name(t + 3);
    lemma_row_bases_width(t + 7, site.a.base, site.a.ci, i, ti);
    let a = conv_row_bases(t + 7, site.a.base, site.a.ci, i, ti);
    lemma_row_bases_width(a.0, site.b.base, site.b.ci, i, ti);
    let b = conv_row_bases(a.0, site.b.base, site.b.ci, i, ti);
    let v = b.0;
    lemma_conv_block_tile_width(v + 6, site, ctx, tmp_name(v + 3), tmp_name(t + 6), a.2, b.2[0], ti, q);
    let blk = conv_block_tile_text(v + 6, site, ctx, tmp_name(v + 3), tmp_name(t + 6), a.2, b.2[0], ti, q);
    let x = blk.0;
    lemma_rem_tiles_width(x + 6, site, ctx, tmp_name(x + 1), tmp_name(t + 6), a.2, b.2, tmp_name(x + 5), ti);
}

proof fn lemma_conv_j_split_width(
    t: nat,
    site: TileSite,
    ctx: ConvTileCtx,
    j_ctr: Seq<char>,
    jw_lo: Seq<char>,
    jw_hi: Seq<char>,
    row0: Seq<char>,
    a_row: Option<Seq<char>>,
    b_row: Option<Seq<char>>,
)
    ensures
        t <= conv_j_split_text(t, site, ctx, j_ctr, jw_lo, jw_hi, row0, a_row, b_row).0 <= t + 53 + 36 * site.k,
{
    reveal(conv_j_split_text);
    let j0 = tmp_name(t + 5);
    let tjs = num::dec_nat(ctx.tile_j as nat);
    lemma_conv_tile_width(t + 8, site, ctx, j0, row0, a_row, b_row, tjs);
    let main = conv_tile_text(t + 8, site, ctx, j0, row0, a_row, b_row, tjs);
    lemma_conv_tile_width(main.0 + 5, site, ctx, j0, row0, a_row, b_row, tmp_name(main.0 + 4));
}

proof fn lemma_conv_row_width(
    t: nat,
    site: TileSite,
    ctx: ConvTileCtx,
    j_ctr: Seq<char>,
    lo: Seq<char>,
    hi: Seq<char>,
    i: Seq<char>,
)
    ensures
        t <= conv_row_text(t, site, ctx, j_ctr, lo, hi, i).0 <= t + 64 + 36 * site.k,
{
    reveal(conv_row_text);
    let tva = seq![(site.a.ci, i)];
    lemma_tile_index_counter(t + 7, base_text(site.a.base), tva, 1);
    let a = tile_index_upto(t + 7, base_text(site.a.base), tva, 1);
    let tvb = seq![(site.b.ci, i)];
    lemma_tile_index_counter(a.0, base_text(site.b.base), tvb, 1);
    let b = tile_index_upto(a.0, base_text(site.b.base), tvb, 1);
    lemma_conv_j_split_width(b.0, site, ctx, j_ctr, tmp_name(t + 3), tmp_name(t + 6), tmp_name(t), a.1, b.1);
}

/// A conv row range takes at most `70 + 36*K` ordinals.
pub proof fn lemma_conv_row_range_width(
    t: nat,
    site: TileSite,
    ctx: ConvTileCtx,
    i_ctr: Seq<char>,
    j_ctr: Seq<char>,
    to: Seq<char>,
    lo: Seq<char>,
    hi: Seq<char>,
)
    ensures
        t <= conv_row_range_text(t, site, ctx, i_ctr, j_ctr, to, lo, hi).0 <= t + 70 + 36 * site.k,
{
    reveal(conv_row_range_text);
    lemma_conv_row_width(t + 5, site, ctx, j_ctr, lo, hi, tmp_name(t + 3));
}

impl<'a> FnEmit<'a> {
    /// The conv j split of one row: constant-width main tiles while
    /// `j0 + TJ <= jw_hi`, then one remainder tile at the runtime width,
    /// entered only while `j0 < jw_hi`.
    #[verifier::spinoff_prover]
    pub fn emit_conv_j_split(
        &mut self,
        site: &TileSite,
        ctx: &ConvTileCtx,
        j_ctr: &str,
        jw_lo: &str,
        jw_hi: &str,
        row0: &str,
        a_row: &Option<String>,
        b_row: &Option<String>,
    )
        requires
            old(self).next + 53 + 36 * site.k <= u32::MAX,
            conv_window_ok(*site),
            align_ok(ctx.elem_llt@),
        ensures
            ({
                let res = conv_j_split_text(
                    old(self).next as nat,
                    *site,
                    *ctx,
                    j_ctr@,
                    jw_lo@,
                    jw_hi@,
                    row0@,
                    opt_text(*a_row),
                    opt_text(*b_row),
                );
                &&& final(self).next == res.0
                &&& final(self).body@ == old(self).body@ + res.1
            }),
            final(self).allocas == old(self).allocas,
            final(self).heap_used == old(self).heap_used,
            final(self).same_setup(*old(self)),
    {
        let ghost t = old(self).next as nat;
        let ghost o = old(self).body@;
        let ghost tjs = num::dec_nat(ctx.tile_j as nat);
        let ghost ar = opt_text(*a_row);
        let ghost br = opt_text(*b_row);
        let (head, main, rem_check, rem, done, j0) = self.emit_j_open(j_ctr, jw_lo, jw_hi, ctx.tile_j);
        let ghost w1 = j_open_text(t, j_ctr@, jw_lo@, jw_hi@, ctx.tile_j);
        let lane_full = num::u64_to_string(ctx.tile_j);
        proof {
            lemma_conv_tile_width(t + 8, *site, *ctx, j0@, row0@, ar, br, tjs);
        }
        self.emit_tile_conv_tile(site, ctx, j0.as_str(), row0, a_row, b_row, lane_full.as_str());
        let ghost m = conv_tile_text(t + 8, *site, *ctx, j0@, row0@, ar, br, tjs);
        proof {
            lemma_concat_associative(o, w1, m.1);
        }
        let w = self.emit_j_step(
            j_ctr, jw_hi, ctx.tile_j, head.as_str(), rem_check.as_str(), rem.as_str(), done.as_str(), j0.as_str(),
            Ghost(t),
        );
        let ghost p3 = j_step_text(m.0, t, j_ctr@, jw_hi@, ctx.tile_j);
        proof {
            lemma_concat_associative(o, w1 + m.1, p3);
            lemma_conv_tile_width(m.0 + 5, *site, *ctx, j0@, row0@, ar, br, tmp_name(m.0 + 4));
        }
        self.emit_tile_conv_tile(site, ctx, j0.as_str(), row0, a_row, b_row, w.as_str());
        let ghost r = conv_tile_text(m.0 + 5, *site, *ctx, j0@, row0@, ar, br, tmp_name(m.0 + 4));
        proof {
            lemma_concat_associative(o, w1 + m.1 + p3, r.1);
        }
        self.jump(done.as_str());
        proof {
            lemma_concat_associative(o, w1 + m.1 + p3 + r.1, jump_line(label_name(t + 4)));
        }
        self.label_line(done.as_str());
        proof {
            lemma_concat_associative(o, w1 + m.1 + p3 + r.1 + jump_line(label_name(t + 4)), label_text(label_name(t + 4)));
            assert(lane_full@ == tjs);
            reveal(conv_j_split_text);
        }
    }

    /// One conv row at `i`: the row's clipped window, its row bases, then
    /// its j split.
    #[verifier::spinoff_prover]
    fn emit_conv_row(&mut self, site: &TileSite, ctx: &ConvTileCtx, j_ctr: &str, lo: &str, hi: &str, i: &str)
        requires
            old(self).next + 64 + 36 * site.k <= u32::MAX,
            conv_window_ok(*site),
            align_ok(ctx.elem_llt@),
        ensures
            ({
                let res = conv_row_text(old(self).next as nat, *site, *ctx, j_ctr@, lo@, hi@, i@);
                &&& final(self).next == res.0
                &&& final(self).body@ == old(self).body@ + res.1
            }),
            final(self).allocas == old(self).allocas,
            final(self).heap_used == old(self).heap_used,
            final(self).same_setup(*old(self)),
    {
        let ghost t = old(self).next as nat;
        let ghost o = old(self).body@;
        let c = num::u64_to_string(site.c);
        let row0 = self.emit_op("mul", i, c.as_str());
        let ghost p1 = op_line(tmp_name(t), "mul"@, i@, num::dec_nat(site.c as nat));
        let (jw_lo, jw_hi) = self.emit_row_window(site, lo, hi, row0.as_str());
        let ghost p2 = row_window_text(t + 1, lo@, hi@, tmp_name(t), site.c);
        proof {
            lemma_concat_associative(o, p1, p2);
        }
        let ta = [(site.a.ci, i)];
        let ghost tva = seq![(site.a.ci, i@)];
        assert(term_views(ta@) =~= tva);
        proof {
            lemma_tile_index_counter(t + 7, base_text(site.a.base), tva, 1);
        }
        let a_row = self.emit_tile_index(Self::base_option(site.a.base), &ta);
        let ghost a = tile_index_upto(t + 7, base_text(site.a.base), tva, 1);
        proof {
            lemma_concat_associative(o, p1 + p2, a.2);
        }
        let tb = [(site.b.ci, i)];
        let ghost tvb = seq![(site.b.ci, i@)];
        assert(term_views(tb@) =~= tvb);
        proof {
            lemma_tile_index_counter(a.0, base_text(site.b.base), tvb, 1);
        }
        let b_row = self.emit_tile_index(Self::base_option(site.b.base), &tb);
        let ghost b = tile_index_upto(a.0, base_text(site.b.base), tvb, 1);
        proof {
            lemma_concat_associative(o, p1 + p2 + a.2, b.2);
            lemma_conv_j_split_width(b.0, *site, *ctx, j_ctr@, tmp_name(t + 3), tmp_name(t + 6), tmp_name(t), a.1, b.1);
        }
        self.emit_conv_j_split(site, ctx, j_ctr, jw_lo.as_str(), jw_hi.as_str(), row0.as_str(), &a_row, &b_row);
        proof {
            lemma_concat_associative(
                o,
                p1 + p2 + a.2 + b.2,
                conv_j_split_text(b.0, *site, *ctx, j_ctr@, tmp_name(t + 3), tmp_name(t + 6), tmp_name(t), a.1, b.1).1,
            );
            reveal(conv_row_text);
        }
    }

    /// The `TI = 1` conv row loop over `[*i_ctr, to)`: each row's signed
    /// window clip, its row bases, and its j split; the counter is left at
    /// the first row not taken.
    #[verifier::spinoff_prover]
    pub fn emit_conv_row_range(
        &mut self,
        site: &TileSite,
        ctx: &ConvTileCtx,
        i_ctr: &str,
        j_ctr: &str,
        to: &str,
        lo: &str,
        hi: &str,
    )
        requires
            old(self).next + 70 + 36 * site.k <= u32::MAX,
            conv_window_ok(*site),
            align_ok(ctx.elem_llt@),
        ensures
            ({
                let res = conv_row_range_text(old(self).next as nat, *site, *ctx, i_ctr@, j_ctr@, to@, lo@, hi@);
                &&& final(self).next == res.0
                &&& final(self).body@ == old(self).body@ + res.1
            }),
            final(self).allocas == old(self).allocas,
            final(self).heap_used == old(self).heap_used,
            final(self).same_setup(*old(self)),
    {
        let ghost t = old(self).next as nat;
        let ghost o = old(self).body@;
        let head = self.label();
        let body = self.label();
        let done = self.label();
        self.jump(head.as_str());
        let ghost p1 = jump_line(label_name(t));
        self.label_line(head.as_str());
        let ghost p2 = label_text(label_name(t));
        proof {
            lemma_concat_associative(o, p1, p2);
        }
        let i = self.emit_load("i64", i_ctr);
        let ghost p3 = load_line(tmp_name(t + 3), "i64"@, i_ctr@);
        proof {
            lemma_concat_associative(o, p1 + p2, p3);
        }
        let rows_done = self.emit_op("icmp uge", i.as_str(), to);
        let ghost p4 = op_line(tmp_name(t + 4), "icmp uge"@, tmp_name(t + 3), to@);
        proof {
            lemma_concat_associative(o, p1 + p2 + p3, p4);
        }
        self.branch(rows_done.as_str(), done.as_str(), body.as_str());
        let ghost p5 = branch_line(tmp_name(t + 4), label_name(t + 2), label_name(t + 1));
        proof {
            lemma_concat_associative(o, p1 + p2 + p3 + p4, p5);
        }
        self.label_line(body.as_str());
        let ghost p6 = label_text(label_name(t + 1));
        proof {
            lemma_concat_associative(o, p1 + p2 + p3 + p4 + p5, p6);
        }
        let ghost w6 = p1 + p2 + p3 + p4 + p5 + p6;
        proof {
            lemma_conv_row_width(t + 5, *site, *ctx, j_ctr@, lo@, hi@, tmp_name(t + 3));
        }
        self.emit_conv_row(site, ctx, j_ctr, lo, hi, i.as_str());
        let ghost row = conv_row_text(t + 5, *site, *ctx, j_ctr@, lo@, hi@, tmp_name(t + 3));
        proof {
            lemma_concat_associative(o, w6, row.1);
        }
        self.emit_loop_tail(i_ctr, i.as_str(), head.as_str(), done.as_str());
        proof {
            lemma_concat_associative(o, w6 + row.1, latch_text(tmp_name(row.0), tmp_name(t + 3), i_ctr@, label_name(t), label_name(t + 2)));
            reveal(conv_row_range_text);
        }
    }

    /// The `ti` block rows' read bases of one operand at block row `i`.
    fn emit_conv_row_bases(&mut self, base: u64, coeff: u64, i: &str, ti: u64) -> (v: Vec<Option<String>>)
        requires
            old(self).next + 2 + ti <= u32::MAX,
            ti > 0 ==> (ti - 1) * coeff <= u64::MAX,
        ensures
            ({
                let res = conv_row_bases(old(self).next as nat, base, coeff, i@, ti as nat);
                &&& final(self).next == res.0
                &&& final(self).body@ == old(self).body@ + res.1
                &&& opt_texts(v@) == res.2
            }),
            v@.len() == ti,
            final(self).allocas == old(self).allocas,
            final(self).heap_used == old(self).heap_used,
            final(self).same_setup(*old(self)),
    {
        let ghost t = old(self).next as nat;
        let ghost o = old(self).body@;
        let terms = [(coeff, i)];
        let ghost tv = seq![(coeff, i@)];
        assert(term_views(terms@) =~= tv);
        proof {
            lemma_tile_index_counter(t, base_text(base), tv, 1);
        }
        let block = self.emit_tile_index(Self::base_option(base), &terms);
        let ghost blk = tile_index_upto(t, base_text(base), tv, 1);
        let ghost w = blk.0;
        let ghost o2 = self.body@;
        let mut v: Vec<Option<String>> = Vec::new();
        let mut r: u64 = 0;
        while r < ti
            invariant
                r <= ti,
                w <= t + 2,
                t + 2 + ti <= u32::MAX,
                ti > 0 ==> (ti - 1) * coeff <= u64::MAX,
                opt_text(block) == blk.1,
                o2 == o + blk.2,
                v@.len() == r,
                ({
                    let res = conv_shifted_rows(w, blk.1, coeff, r as nat);
                    &&& self.next == res.0
                    &&& self.body@ == o2 + res.1
                    &&& opt_texts(v@) == res.2
                }),
                self.allocas == old(self).allocas,
                self.heap_used == old(self).heap_used,
                self.same_setup(*old(self)),
            decreases ti - r,
        {
            proof {
                lemma_shifted_rows_width(w, blk.1, coeff, r as nat);
                assert(coeff * r <= (ti - 1) * coeff) by (nonlinear_arith)
                    requires
                        r < ti,
                ;
            }
            let ghost prev = conv_shifted_rows(w, blk.1, coeff, r as nat);
            let ghost before = v@;
            let off = coeff * r;
            if off == 0 {
                let same = match &block {
                    Some(b) => Some(b.clone()),
                    None => None,
                };
                v.push(same);
                assert(opt_texts(v@) =~= opt_texts(before).push(blk.1));
            } else {
                let prev_base = match &block {
                    Some(b) => b.clone(),
                    None => String::from_str("0"),
                };
                let off_text = num::u64_to_string(off);
                let shifted = self.emit_op("add", prev_base.as_str(), off_text.as_str());
                proof {
                    lemma_concat_associative(o2, prev.1, op_line(tmp_name(prev.0), "add"@, prev_base@, num::dec_nat(off as nat)));
                }
                v.push(Some(shifted));
                assert(opt_texts(v@) =~= opt_texts(before).push(Some(tmp_name(prev.0))));
            }
            r += 1;
        }
        proof {
            lemma_concat_associative(o, blk.2, conv_shifted_rows(w, blk.1, coeff, ti as nat).1);
        }
        v
    }

    /// The remainder lanes of every block row as memory-form row tiles.
    #[verifier::spinoff_prover]
    fn emit_conv_rem_tiles(
        &mut self,
        site: &TileSite,
        ctx: &ConvTileCtx,
        j_rem: &str,
        row0: &str,
        a_rows: &[Option<String>],
        b_rows: &[Option<String>],
        rem_len: &str,
        ti: u64,
    )
        requires
            old(self).next + ti * (21 + 18 * site.k) <= u32::MAX,
            a_rows@.len() == ti,
            b_rows@.len() == ti,
            ti > 0 ==> (ti - 1) * site.c <= u64::MAX,
            conv_window_ok(*site),
            align_ok(ctx.elem_llt@),
        ensures
            ({
                let res = conv_rem_tiles(
                    old(self).next as nat,
                    *site,
                    *ctx,
                    j_rem@,
                    row0@,
                    opt_texts(a_rows@),
                    opt_texts(b_rows@),
                    rem_len@,
                    ti as nat,
                );
                &&& final(self).next == res.0
                &&& final(self).body@ == old(self).body@ + res.1
            }),
            final(self).allocas == old(self).allocas,
            final(self).heap_used == old(self).heap_used,
            final(self).same_setup(*old(self)),
    {
        let ghost t = old(self).next as nat;
        let ghost o = old(self).body@;
        let ghost ar = opt_texts(a_rows@);
        let ghost br = opt_texts(b_rows@);
        let ghost per = (21 + 18 * site.k) as nat;
        let mut r: u64 = 0;
        while r < ti
            invariant
                r <= ti,
                t == old(self).next,
                per == 21 + 18 * site.k,
                t + ti * per <= u32::MAX,
                a_rows@.len() == ti,
                b_rows@.len() == ti,
                ar == opt_texts(a_rows@),
                br == opt_texts(b_rows@),
                ti > 0 ==> (ti - 1) * site.c <= u64::MAX,
                conv_window_ok(*site),
                align_ok(ctx.elem_llt@),
                ({
                    let res = conv_rem_tiles(t, *site, *ctx, j_rem@, row0@, ar, br, rem_len@, r as nat);
                    &&& self.next == res.0
                    &&& self.body@ == o + res.1
                }),
                self.allocas == old(self).allocas,
                self.heap_used == old(self).heap_used,
                self.same_setup(*old(self)),
            decreases ti - r,
        {
            let ghost prev = conv_rem_tiles(t, *site, *ctx, j_rem@, row0@, ar, br, rem_len@, r as nat);
            proof {
                lemma_rem_tiles_width(t, *site, *ctx, j_rem@, row0@, ar, br, rem_len@, r as nat);
                assert(r * per + per <= ti * per) by (nonlinear_arith)
                    requires
                        r < ti,
                ;
                assert(r * site.c <= (ti - 1) * site.c) by (nonlinear_arith)
                    requires
                        r < ti,
                ;
            }
            let row0_r = if r == 0 {
                String::from_str(row0)
            } else {
                let off = num::u64_to_string(r * site.c);
                self.emit_op("add", row0, off.as_str())
            };
            let ghost start: (nat, Seq<char>, Seq<char>) = if r == 0 {
                (prev.0, Seq::empty(), row0@)
            } else {
                (prev.0 + 1, op_line(tmp_name(prev.0), "add"@, row0@, num::dec_nat((r * site.c) as nat)), tmp_name(prev.0))
            };
            assert(self.body@ == o + (prev.1 + start.1)) by {
                if r == 0 {
                    assert(prev.1 + start.1 =~= prev.1);
                } else {
                    lemma_concat_associative(o, prev.1, start.1);
                }
            }
            proof {
                lemma_conv_tile_width(start.0, *site, *ctx, j_rem@, start.2, ar[r as int], br[r as int], rem_len@);
            }
            self.emit_tile_conv_tile(site, ctx, j_rem, row0_r.as_str(), &a_rows[r as usize], &b_rows[r as usize], rem_len);
            proof {
                let tile = conv_tile_text(start.0, *site, *ctx, j_rem@, start.2, ar[r as int], br[r as int], rem_len@);
                lemma_concat_associative(o, prev.1 + start.1, tile.1);
            }
            r += 1;
        }
    }

    /// Open the blocked interior; returns the head and done labels, the
    /// block's first row, its end and `row0`.
    #[verifier::spinoff_prover]
    fn emit_conv_blocked_open(&mut self, site: &TileSite, i_ctr: &str, to: &str, ti: u64) -> (r: (
        String,
        String,
        String,
        String,
        String,
    ))
        requires
            old(self).next + 7 <= u32::MAX,
        ensures
            ({
                let t = old(self).next as nat;
                &&& r.0@ == label_name(t)
                &&& r.1@ == label_name(t + 2)
                &&& r.2@ == tmp_name(t + 3)
                &&& r.3@ == tmp_name(t + 4)
                &&& r.4@ == tmp_name(t + 6)
                &&& final(self).body@ == old(self).body@ + blocked_open_text(t, *site, i_ctr@, to@, ti as nat)
            }),
            final(self).next == old(self).next + 7,
            final(self).allocas == old(self).allocas,
            final(self).heap_used == old(self).heap_used,
            final(self).same_setup(*old(self)),
    {
        let ghost t = old(self).next as nat;
        let ghost o = old(self).body@;
        let head = self.label();
        let body = self.label();
        let done = self.label();
        self.jump(head.as_str());
        let ghost p1 = jump_line(label_name(t));
        self.label_line(head.as_str());
        let ghost p2 = label_text(label_name(t));
        proof {
            lemma_concat_associative(o, p1, p2);
        }
        let i = self.emit_load("i64", i_ctr);
        let ghost p3 = load_line(tmp_name(t + 3), "i64"@, i_ctr@);
        proof {
            lemma_concat_associative(o, p1 + p2, p3);
        }
        let ti_text = num::u64_to_string(ti);
        let i_end = self.emit_op("add", i.as_str(), ti_text.as_str());
        let ghost p4 = op_line(tmp_name(t + 4), "add"@, tmp_name(t + 3), num::dec_nat(ti as nat));
        proof {
            lemma_concat_associative(o, p1 + p2 + p3, p4);
        }
        let fits = self.emit_op("icmp ule", i_end.as_str(), to);
        let ghost p5 = op_line(tmp_name(t + 5), "icmp ule"@, tmp_name(t + 4), to@);
        proof {
            lemma_concat_associative(o, p1 + p2 + p3 + p4, p5);
        }
        let ghost w5 = p1 + p2 + p3 + p4 + p5;
        self.branch(fits.as_str(), body.as_str(), done.as_str());
        let ghost p6 = branch_line(tmp_name(t + 5), label_name(t + 1), label_name(t + 2));
        proof {
            lemma_concat_associative(o, w5, p6);
        }
        self.label_line(body.as_str());
        let ghost p7 = label_text(label_name(t + 1));
        proof {
            lemma_concat_associative(o, w5 + p6, p7);
        }
        let c = num::u64_to_string(site.c);
        let row0 = self.emit_op("mul", i.as_str(), c.as_str());
        proof {
            lemma_concat_associative(o, w5 + p6 + p7, op_line(tmp_name(t + 6), "mul"@, tmp_name(t + 3), num::dec_nat(site.c as nat)));
        }
        (head, done, i, i_end, row0)
    }

    /// Open the blocks' j loop from 0; returns the head and done labels
    /// and `j0`.
    #[verifier::spinoff_prover]
    fn emit_blocked_j_open(&mut self, site: &TileSite, ctx: &ConvTileCtx, j_ctr: &str) -> (r: (String, String, String))
        requires
            old(self).next + 6 <= u32::MAX,
        ensures
            ({
                let v = old(self).next as nat;
                &&& r.0@ == label_name(v)
                &&& r.1@ == label_name(v + 2)
                &&& r.2@ == tmp_name(v + 3)
                &&& final(self).body@ == old(self).body@ + blocked_j_open_text(v, *site, *ctx, j_ctr@)
            }),
            final(self).next == old(self).next + 6,
            final(self).allocas == old(self).allocas,
            final(self).heap_used == old(self).heap_used,
            final(self).same_setup(*old(self)),
    {
        let ghost v = old(self).next as nat;
        let ghost o = old(self).body@;
        let head = self.label();
        let body = self.label();
        let done = self.label();
        self.emit_store("i64", "0", j_ctr);
        let ghost p1 = store_line("i64"@, "0"@, j_ctr@);
        self.jump(head.as_str());
        let ghost p2 = jump_line(label_name(v));
        proof {
            lemma_concat_associative(o, p1, p2);
        }
        self.label_line(head.as_str());
        let ghost p3 = label_text(label_name(v));
        proof {
            lemma_concat_associative(o, p1 + p2, p3);
        }
        let j0 = self.emit_load("i64", j_ctr);
        let ghost p4 = load_line(tmp_name(v + 3), "i64"@, j_ctr@);
        proof {
            lemma_concat_associative(o, p1 + p2 + p3, p4);
        }
        let tj = num::u64_to_string(ctx.tile_j);
        let j0_full = self.emit_op("add", j0.as_str(), tj.as_str());
        let ghost p5 = op_line(tmp_name(v + 4), "add"@, tmp_name(v + 3), num::dec_nat(ctx.tile_j as nat));
        proof {
            lemma_concat_associative(o, p1 + p2 + p3 + p4, p5);
        }
        let ghost w5 = p1 + p2 + p3 + p4 + p5;
        let c = num::u64_to_string(site.c);
        let full = self.emit_op("icmp ule", j0_full.as_str(), c.as_str());
        let ghost p6 = op_line(tmp_name(v + 5), "icmp ule"@, tmp_name(v + 4), num::dec_nat(site.c as nat));
        proof {
            lemma_concat_associative(o, w5, p6);
        }
        self.branch(full.as_str(), body.as_str(), done.as_str());
        let ghost p7 = branch_line(tmp_name(v + 5), label_name(v + 1), label_name(v + 2));
        proof {
            lemma_concat_associative(o, w5 + p6, p7);
        }
        self.label_line(body.as_str());
        proof {
            lemma_concat_associative(o, w5 + p6 + p7, label_text(label_name(v + 1)));
        }
        (head, done, j0)
    }

    /// Close the blocks' j loop and open the remainder; returns its start,
    /// its done label and its width.
    #[verifier::spinoff_prover]
    fn emit_blocked_j_close(
        &mut self,
        site: &TileSite,
        ctx: &ConvTileCtx,
        j_ctr: &str,
        head: &str,
        done: &str,
        j0: &str,
        Ghost(v): Ghost<nat>,
    ) -> (r: (String, String, String))
        requires
            old(self).next + 6 <= u32::MAX,
            head@ == label_name(v),
            done@ == label_name(v + 2),
            j0@ == tmp_name(v + 3),
        ensures
            ({
                let x = old(self).next as nat;
                &&& r.0@ == tmp_name(x + 1)
                &&& r.1@ == label_name(x + 4)
                &&& r.2@ == tmp_name(x + 5)
                &&& final(self).body@ == old(self).body@ + blocked_j_close_text(x, v, *site, *ctx, j_ctr@)
            }),
            final(self).next == old(self).next + 6,
            final(self).allocas == old(self).allocas,
            final(self).heap_used == old(self).heap_used,
            final(self).same_setup(*old(self)),
    {
        let ghost x = old(self).next as nat;
        let ghost o = old(self).body@;
        let ghost cs = num::dec_nat(site.c as nat);
        let tj = num::u64_to_string(ctx.tile_j);
        let j0_next = self.emit_op("add", j0, tj.as_str());
        let ghost p1 = op_line(tmp_name(x), "add"@, tmp_name(v + 3), num::dec_nat(ctx.tile_j as nat));
        self.emit_store("i64", j0_next.as_str(), j_ctr);
        let ghost p2 = store_line("i64"@, tmp_name(x), j_ctr@);
        proof {
            lemma_concat_associative(o, p1, p2);
        }
        self.jump(head);
        let ghost p3 = jump_line(label_name(v));
        proof {
            lemma_concat_associative(o, p1 + p2, p3);
        }
        self.label_line(done);
        let ghost p4 = label_text(label_name(v + 2));
        proof {
            lemma_concat_associative(o, p1 + p2 + p3, p4);
        }
        let ghost w4 = p1 + p2 + p3 + p4;
        let j_rem = self.emit_load("i64", j_ctr);
        let ghost p5 = load_line(tmp_name(x + 1), "i64"@, j_ctr@);
        proof {
            lemma_concat_associative(o, w4, p5);
        }
        let c = num::u64_to_string(site.c);
        let has_rem = self.emit_op("icmp ult", j_rem.as_str(), c.as_str());
        let ghost p6 = op_line(tmp_name(x + 2), "icmp ult"@, tmp_name(x + 1), cs);
        proof {
            lemma_concat_associative(o, w4 + p5, p6);
        }
        let rem_body = self.label();
        let rem_done = self.label();
        self.branch(has_rem.as_str(), rem_body.as_str(), rem_done.as_str());
        let ghost p7 = branch_line(tmp_name(x + 2), label_name(x + 3), label_name(x + 4));
        proof {
            lemma_concat_associative(o, w4 + p5 + p6, p7);
        }
        self.label_line(rem_body.as_str());
        let ghost p8 = label_text(label_name(x + 3));
        proof {
            lemma_concat_associative(o, w4 + p5 + p6 + p7, p8);
        }
        let rem_len = self.emit_op("sub", c.as_str(), j_rem.as_str());
        proof {
            lemma_concat_associative(o, w4 + p5 + p6 + p7 + p8, op_line(tmp_name(x + 5), "sub"@, cs, tmp_name(x + 1)));
        }
        (j_rem, rem_done, rem_len)
    }

    /// Close the blocked interior after the remainder tiles.
    fn emit_blocked_close(
        &mut self,
        i_ctr: &str,
        rem_done: &str,
        head: &str,
        done: &str,
        i_end: &str,
        Ghost(x): Ghost<nat>,
        Ghost(t): Ghost<nat>,
    )
        requires
            rem_done@ == label_name(x + 4),
            head@ == label_name(t),
            done@ == label_name(t + 2),
            i_end@ == tmp_name(t + 4),
        ensures
            final(self).body@ == old(self).body@ + blocked_close_text(x, t, i_ctr@),
            final(self).next == old(self).next,
            final(self).allocas == old(self).allocas,
            final(self).heap_used == old(self).heap_used,
            final(self).same_setup(*old(self)),
    {
        let ghost o = old(self).body@;
        self.jump(rem_done);
        let ghost p1 = jump_line(label_name(x + 4));
        self.label_line(rem_done);
        let ghost p2 = label_text(label_name(x + 4));
        proof {
            lemma_concat_associative(o, p1, p2);
        }
        self.emit_store("i64", i_end, i_ctr);
        let ghost p3 = store_line("i64"@, tmp_name(t + 4), i_ctr@);
        proof {
            lemma_concat_associative(o, p1 + p2, p3);
        }
        self.jump(head);
        let ghost p4 = jump_line(label_name(t));
        proof {
            lemma_concat_associative(o, p1 + p2 + p3, p4);
        }
        self.label_line(done);
        proof {
            lemma_concat_associative(o, p1 + p2 + p3 + p4, label_text(label_name(t + 2)));
        }
    }

    /// The `ti`-blocked interior rows of a sliding conv read, resuming where
    /// the counter stands: while a whole block of `ti` rows fits below `to`,
    /// the rows' read bases, the constant-width j-tiles across `[0, C)` as
    /// conv blocks sharing each tap row's `b` load, then the remaining
    /// lanes as `ti` memory-form row tiles; the counter is left at the first
    /// row not taken.
    #[verifier::spinoff_prover]
    pub fn emit_conv_blocked_range(
        &mut self,
        site: &TileSite,
        ctx: &ConvTileCtx,
        i_ctr: &str,
        j_ctr: &str,
        to: &str,
        ti: u64,
        q: u64,
    )
        requires
            old(self).next + blocked_budget(*site, ti as nat, q as nat) <= u32::MAX,
            conv_window_ok(*site),
            align_ok(ctx.elem_llt@),
            conv_block_fits(*site, ti as nat, q as nat),
        ensures
            ({
                let res = conv_blocked_range_text(old(self).next as nat, *site, *ctx, i_ctr@, j_ctr@, to@, ti as nat, q as nat);
                &&& final(self).next == res.0
                &&& final(self).body@ == old(self).body@ + res.1
            }),
            final(self).allocas == old(self).allocas,
            final(self).heap_used == old(self).heap_used,
            final(self).same_setup(*old(self)),
    {
        reveal(conv_blocked_range_text);
        let ghost t = old(self).next as nat;
        let ghost o = old(self).body@;
        let (head, done, i, i_end, row0) = self.emit_conv_blocked_open(site, i_ctr, to, ti);
        let ghost w1 = blocked_open_text(t, *site, i_ctr@, to@, ti as nat);
        proof {
            lemma_row_bases_width(t + 7, site.a.base, site.a.ci, i@, ti as nat);
        }
        let a_rows = self.emit_conv_row_bases(site.a.base, site.a.ci, i.as_str(), ti);
        let ghost a = conv_row_bases(t + 7, site.a.base, site.a.ci, i@, ti as nat);
        proof {
            lemma_concat_associative(o, w1, a.1);
            lemma_row_bases_width(a.0, site.b.base, site.b.ci, i@, ti as nat);
        }
        let b_rows = self.emit_conv_row_bases(site.b.base, site.b.ci, i.as_str(), ti);
        let ghost b = conv_row_bases(a.0, site.b.base, site.b.ci, i@, ti as nat);
        let ghost v = b.0;
        proof {
            lemma_concat_associative(o, w1 + a.1, b.1);
        }
        let (j_head, j_done, j0) = self.emit_blocked_j_open(site, ctx, j_ctr);
        let ghost w4 = w1 + a.1 + b.1 + blocked_j_open_text(v, *site, *ctx, j_ctr@);
        proof {
            lemma_concat_associative(o, w1 + a.1 + b.1, blocked_j_open_text(v, *site, *ctx, j_ctr@));
            lemma_conv_block_tile_width(v + 6, *site, *ctx, tmp_name(v + 3), tmp_name(t + 6), a.2, b.2[0], ti as nat, q as nat);
        }
        self.emit_conv_block_tile(site, ctx, j0.as_str(), row0.as_str(), a_rows.as_slice(), &b_rows[0], ti, q);
        let ghost blk = conv_block_tile_text(v + 6, *site, *ctx, tmp_name(v + 3), tmp_name(t + 6), a.2, b.2[0], ti as nat, q as nat);
        let ghost x = blk.0;
        proof {
            lemma_concat_associative(o, w4, blk.1);
        }
        let (j_rem, rem_done, rem_len) = self.emit_blocked_j_close(
            site, ctx, j_ctr, j_head.as_str(), j_done.as_str(), j0.as_str(), Ghost(v),
        );
        let ghost w6 = w4 + blk.1 + blocked_j_close_text(x, v, *site, *ctx, j_ctr@);
        proof {
            lemma_concat_associative(o, w4 + blk.1, blocked_j_close_text(x, v, *site, *ctx, j_ctr@));
            lemma_rem_tiles_width(x + 6, *site, *ctx, tmp_name(x + 1), tmp_name(t + 6), a.2, b.2, tmp_name(x + 5), ti as nat);
        }
        self.emit_conv_rem_tiles(
            site, ctx, j_rem.as_str(), row0.as_str(), a_rows.as_slice(), b_rows.as_slice(), rem_len.as_str(), ti,
        );
        let ghost rem = conv_rem_tiles(x + 6, *site, *ctx, tmp_name(x + 1), tmp_name(t + 6), a.2, b.2, tmp_name(x + 5), ti as nat);
        proof {
            lemma_concat_associative(o, w6, rem.1);
        }
        self.emit_blocked_close(i_ctr, rem_done.as_str(), head.as_str(), done.as_str(), i_end.as_str(), Ghost(x), Ghost(t));
        proof {
            lemma_concat_associative(o, w6 + rem.1, blocked_close_text(x, t, i_ctr@));
        }
    }
}

} // verus!
