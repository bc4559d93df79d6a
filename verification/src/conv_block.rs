//! One `TI x TJ` block of the conv nest on a sliding read: `TI` vector
//! accumulators, and each tap row's `b` vector loaded once per block and
//! consumed by every block row whose own tap row it is. Row `r` of the
//! block uses tap row `kqp` as its `kqp - q*r`; its chain still walks its
//! taps in ascending `k`, with the source's operand orders.
use vstd::prelude::*;
use vstd::seq_lib::lemma_concat_associative;
use crate::access::gep_line;
use crate::conv::{
    ConvTileCtx, aligned_load_line, aligned_store_line, conv_a_read, conv_b_start, conv_product, conv_sum, conv_window_ok,
    lemma_tap_split,
};
use crate::emit::{FnEmit, op_line, opt_text, splat_text, tile_index_upto, tmp_name, vec_text, lemma_tile_index_counter};
use crate::llt::{align_ok, llt_algn};
use crate::trio::{opt_texts, texts};
use crate::num;
use crate::site::TileSite;

verus! {

/// Block row `r` uses tap row `kqp` when its own tap row `kqp - q*r` lies
/// in `[0, kq_rows)`.
pub open spec fn block_user(kqp: nat, r: nat, q: nat, kq_rows: nat) -> bool {
    kqp >= q * r && kqp - q * r < kq_rows
}

/// Whether any of the first `n` block rows uses tap row `kqp`.
pub open spec fn block_any_user(kqp: nat, q: nat, kq_rows: nat, n: nat) -> bool
    decreases n,
{
    n > 0 && (block_any_user(kqp, q, kq_rows, (n - 1) as nat) || block_user(kqp, (n - 1) as nat, q, kq_rows))
}

/// The tap rows of one output row: `K / div`.
pub open spec fn kq_rows(site: TileSite) -> nat {
    (site.k / site.b.ksplit.unwrap().div) as nat
}

/// The number of tap rows a block of `ti` rows touches: `(ti-1)*q + K/div`.
pub open spec fn block_tap_rows(site: TileSite, ti: nat, q: nat) -> nat {
    ((ti - 1) * q + kq_rows(site)) as nat
}

/// Row `r`'s own `k` at tap `(kqp, kr)`: `(kqp - q*r)*div + kr`.
pub open spec fn block_k_tap(site: TileSite, kqp: nat, kr: nat, q: nat, r: nat) -> nat {
    ((kqp - q * r) * site.b.ksplit.unwrap().div + kr) as nat
}

/// One row's FMA at one tap, ordinals from `t`: `a[a_row + a.ck*k_tap]`,
/// splatted, times the tap's `b` vector, added to the row's accumulator in
/// the source's orders. `(next, text, new accumulator)`.
pub open spec fn block_fma(
    t: nat,
    site: TileSite,
    ctx: ConvTileCtx,
    a_row: Option<Seq<char>>,
    k_tap: nat,
    b_vec: Seq<char>,
    acc: Seq<char>,
) -> (nat, Seq<char>, Seq<char>) {
    let a = conv_a_read(t, site, ctx, a_row, k_tap);
    let s = a.0;
    let vllt = vec_text(ctx.elem_llt@, ctx.tile_j);
    (
        s + 4,
        a.1 + splat_text(s, ctx.elem_llt@, ctx.tile_j, a.2) + conv_product(tmp_name(s + 2), site, ctx, vllt, tmp_name(s + 1), b_vec)
            + conv_sum(tmp_name(s + 3), site, ctx, vllt, acc, tmp_name(s + 2)),
        tmp_name(s + 3),
    )
}

/// The FMAs of the first `n` block rows at tap `(kqp, kr)`, ordinals from
/// `t`, each user row on its own accumulator, rows ascending.
pub open spec fn block_rows_fma(
    t: nat,
    site: TileSite,
    ctx: ConvTileCtx,
    a_rows: Seq<Option<Seq<char>>>,
    kqp: nat,
    kr: nat,
    q: nat,
    b_vec: Seq<char>,
    accs: Seq<Seq<char>>,
    n: nat,
) -> (nat, Seq<char>, Seq<Seq<char>>)
    decreases n,
{
    if n == 0 {
        (t, Seq::empty(), accs)
    } else {
        let prev = block_rows_fma(t, site, ctx, a_rows, kqp, kr, q, b_vec, accs, (n - 1) as nat);
        let r = (n - 1) as nat;
        if block_user(kqp, r, q, kq_rows(site)) {
            let f = block_fma(prev.0, site, ctx, a_rows[r as int], block_k_tap(site, kqp, kr, q, r), b_vec, prev.2[r as int]);
            (f.0, prev.1 + f.1, prev.2.update(r as int, f.2))
        } else {
            prev
        }
    }
}

/// Tap `(kqp, kr)` of a `ti`-row block, ordinals from `t`: nothing when no
/// row uses tap row `kqp`; else the tap's `b` start `b_tile + cq*kqp +
/// cr*kr`, one `TJ`-lane vector load of `b` (at the element's alignment),
/// then every user row's FMA.
pub open spec fn block_tap(
    t: nat,
    site: TileSite,
    ctx: ConvTileCtx,
    a_rows: Seq<Option<Seq<char>>>,
    b_tile: Seq<char>,
    kqp: nat,
    kr: nat,
    q: nat,
    ti: nat,
    accs: Seq<Seq<char>>,
) -> (nat, Seq<char>, Seq<Seq<char>>) {
    let ks = site.b.ksplit.unwrap();
    if !block_any_user(kqp, q, kq_rows(site), ti) {
        (t, Seq::empty(), accs)
    } else {
        let b = conv_b_start(t, b_tile, (ks.cq * kqp + ks.cr * kr) as nat);
        let w = b.0;
        let vllt = vec_text(ctx.elem_llt@, ctx.tile_j);
        let rows = block_rows_fma(w + 2, site, ctx, a_rows, kqp, kr, q, tmp_name(w + 1), accs, ti);
        (
            rows.0,
            b.1 + gep_line(tmp_name(w), ctx.b_llt@, ctx.b_ptr@, b.2) + aligned_load_line(
                tmp_name(w + 1),
                vllt,
                tmp_name(w),
                llt_algn(ctx.elem_llt@),
            ) + rows.1,
            rows.2,
        )
    }
}

/// The block's first `n` taps in order, tap `i` being `(i / div, i % div)`
/// (tap rows outer, `kr` inner), ordinals from `t`.
pub open spec fn block_taps(
    t: nat,
    site: TileSite,
    ctx: ConvTileCtx,
    a_rows: Seq<Option<Seq<char>>>,
    b_tile: Seq<char>,
    q: nat,
    ti: nat,
    accs: Seq<Seq<char>>,
    n: nat,
) -> (nat, Seq<char>, Seq<Seq<char>>)
    decreases n,
{
    if n == 0 {
        (t, Seq::empty(), accs)
    } else {
        let prev = block_taps(t, site, ctx, a_rows, b_tile, q, ti, accs, (n - 1) as nat);
        let div = site.b.ksplit.unwrap().div as nat;
        let i = (n - 1) as nat;
        let tap = block_tap(prev.0, site, ctx, a_rows, b_tile, i / div, i % div, q, ti, prev.2);
        (tap.0, prev.1 + tap.1, tap.2)
    }
}

/// The first `n` rows' accumulators, each a splat of the seed, ordinals
/// from `t`. `(next, text, accumulators)`.
pub open spec fn block_seeds(t: nat, ctx: ConvTileCtx, n: nat) -> (nat, Seq<char>, Seq<Seq<char>>)
    decreases n,
{
    if n == 0 {
        (t, Seq::empty(), Seq::empty())
    } else {
        let prev = block_seeds(t, ctx, (n - 1) as nat);
        (prev.0 + 2, prev.1 + splat_text(prev.0, ctx.elem_llt@, ctx.tile_j, ctx.seed@), prev.2.push(tmp_name(prev.0 + 1)))
    }
}

/// The first `n` rows' vector stores, ordinals from `t`: row `r`'s
/// accumulator to `out[row0 + r*C + j0 ..]` at the element's alignment.
pub open spec fn block_stores(
    t: nat,
    site: TileSite,
    ctx: ConvTileCtx,
    j0: Seq<char>,
    row0: Seq<char>,
    accs: Seq<Seq<char>>,
    n: nat,
) -> (nat, Seq<char>)
    decreases n,
{
    if n == 0 {
        (t, Seq::empty())
    } else {
        let prev = block_stores(t, site, ctx, j0, row0, accs, (n - 1) as nat);
        let r = (n - 1) as nat;
        let u = prev.0;
        (
            u + 3,
            prev.1 + op_line(tmp_name(u), "add"@, row0, num::dec_nat((r * site.c) as nat)) + op_line(tmp_name(u + 1), "add"@, tmp_name(u), j0)
                + gep_line(tmp_name(u + 2), ctx.out_llt@, ctx.out_ptr@, tmp_name(u + 1)) + aligned_store_line(
                vec_text(ctx.elem_llt@, ctx.tile_j),
                accs[r as int],
                tmp_name(u + 2),
                llt_algn(ctx.elem_llt@),
            ),
        )
    }
}

/// One `ti x TJ` conv block at `(row0, j0)`, ordinals from `t`: the `b`
/// tile start `b_row + j0`, `ti` seeded accumulators, the block's taps
/// (every tap row `0..(ti-1)*q + K/div`, every `kr`), then `ti` vector
/// stores.
#[verifier::opaque]
pub open spec fn conv_block_tile_text(
    t: nat,
    site: TileSite,
    ctx: ConvTileCtx,
    j0: Seq<char>,
    row0: Seq<char>,
    a_rows: Seq<Option<Seq<char>>>,
    b_row: Option<Seq<char>>,
    ti: nat,
    q: nat,
) -> (nat, Seq<char>) {
    let b = tile_index_upto(t, b_row, seq![(1u64, j0)], 1);
    let seeds = block_seeds(b.0, ctx, ti);
    let n_taps = (block_tap_rows(site, ti, q) * site.b.ksplit.unwrap().div) as nat;
    let taps = block_taps(seeds.0, site, ctx, a_rows, b.1.unwrap(), q, ti, seeds.2, n_taps);
    let st = block_stores(taps.0, site, ctx, j0, row0, taps.2, ti);
    (st.0, b.2 + seeds.1 + taps.1 + st.1)
}

/// The ordinals a block may take: the `b` start, `ti` seeds and stores,
/// and per tap a `b` load and one FMA per row.
pub open spec fn block_budget(site: TileSite, ti: nat, q: nat) -> nat {
    (1 + 5 * ti + block_tap_rows(site, ti, q) * site.b.ksplit.unwrap().div * (3 + 8 * ti)) as nat
}

proof fn lemma_block_fma_width(
    t: nat,
    site: TileSite,
    ctx: ConvTileCtx,
    a_row: Option<Seq<char>>,
    k_tap: nat,
    b_vec: Seq<char>,
    acc: Seq<char>,
)
    ensures
        t <= block_fma(t, site, ctx, a_row, k_tap, b_vec, acc).0 <= t + 8,
{
    lemma_tile_index_counter(t, a_row, seq![(site.a.ck, num::dec_nat(k_tap))], 1);
}

proof fn lemma_block_rows_width(
    t: nat,
    site: TileSite,
    ctx: ConvTileCtx,
    a_rows: Seq<Option<Seq<char>>>,
    kqp: nat,
    kr: nat,
    q: nat,
    b_vec: Seq<char>,
    accs: Seq<Seq<char>>,
    n: nat,
)
    requires
        n <= accs.len(),
    ensures
        t <= block_rows_fma(t, site, ctx, a_rows, kqp, kr, q, b_vec, accs, n).0 <= t + 8 * n,
        block_rows_fma(t, site, ctx, a_rows, kqp, kr, q, b_vec, accs, n).2.len() == accs.len(),
    decreases n,
{
    if n > 0 {
        lemma_block_rows_width(t, site, ctx, a_rows, kqp, kr, q, b_vec, accs, (n - 1) as nat);
        let prev = block_rows_fma(t, site, ctx, a_rows, kqp, kr, q, b_vec, accs, (n - 1) as nat);
        let r = (n - 1) as nat;
        lemma_block_fma_width(prev.0, site, ctx, a_rows[r as int], block_k_tap(site, kqp, kr, q, r), b_vec, prev.2[r as int]);
    }
}

proof fn lemma_block_tap_width(
    t: nat,
    site: TileSite,
    ctx: ConvTileCtx,
    a_rows: Seq<Option<Seq<char>>>,
    b_tile: Seq<char>,
    kqp: nat,
    kr: nat,
    q: nat,
    ti: nat,
    accs: Seq<Seq<char>>,
)
    requires
        ti <= accs.len(),
    ensures
        t <= block_tap(t, site, ctx, a_rows, b_tile, kqp, kr, q, ti, accs).0 <= t + 3 + 8 * ti,
        block_tap(t, site, ctx, a_rows, b_tile, kqp, kr, q, ti, accs).2.len() == accs.len(),
{
    let ks = site.b.ksplit.unwrap();
    let b = conv_b_start(t, b_tile, (ks.cq * kqp + ks.cr * kr) as nat);
    lemma_block_rows_width(b.0 + 2, site, ctx, a_rows, kqp, kr, q, tmp_name(b.0 + 1), accs, ti);
}

proof fn lemma_block_taps_width(
    t: nat,
    site: TileSite,
    ctx: ConvTileCtx,
    a_rows: Seq<Option<Seq<char>>>,
    b_tile: Seq<char>,
    q: nat,
    ti: nat,
    accs: Seq<Seq<char>>,
    n: nat,
)
    requires
        ti <= accs.len(),
    ensures
        t <= block_taps(t, site, ctx, a_rows, b_tile, q, ti, accs, n).0 <= t + n * (3 + 8 * ti),
        block_taps(t, site, ctx, a_rows, b_tile, q, ti, accs, n).2.len() == accs.len(),
    decreases n,
{
    if n > 0 {
        lemma_block_taps_width(t, site, ctx, a_rows, b_tile, q, ti, accs, (n - 1) as nat);
        let prev = block_taps(t, site, ctx, a_rows, b_tile, q, ti, accs, (n - 1) as nat);
        let div = site.b.ksplit.unwrap().div as nat;
        let i = (n - 1) as nat;
        lemma_block_tap_width(prev.0, site, ctx, a_rows, b_tile, i / div, i % div, q, ti, prev.2);
        assert((n - 1) * (3 + 8 * ti) + (3 + 8 * ti) == n * (3 + 8 * ti)) by (nonlinear_arith);
    }
}

proof fn lemma_block_seeds_width(t: nat, ctx: ConvTileCtx, n: nat)
    ensures
        block_seeds(t, ctx, n).0 == t + 2 * n,
        block_seeds(t, ctx, n).2.len() == n,
    decreases n,
{
    if n > 0 {
        lemma_block_seeds_width(t, ctx, (n - 1) as nat);
    }
}

proof fn lemma_block_stores_width(
    t: nat,
    site: TileSite,
    ctx: ConvTileCtx,
    j0: Seq<char>,
    row0: Seq<char>,
    accs: Seq<Seq<char>>,
    n: nat,
)
    ensures
        block_stores(t, site, ctx, j0, row0, accs, n).0 == t + 3 * n,
    decreases n,
{
    if n > 0 {
        lemma_block_stores_width(t, site, ctx, j0, row0, accs, (n - 1) as nat);
    }
}

/// The taps block row `r` receives among a block's first `n` taps, in
/// emission order (tap `i` being `(i / div, i % div)`), each as the row's
/// own `k`.
pub open spec fn block_row_taps(site: TileSite, q: nat, r: nat, n: nat) -> Seq<nat>
    decreases n,
{
    if n == 0 {
        Seq::empty()
    } else {
        let prev = block_row_taps(site, q, r, (n - 1) as nat);
        let div = site.b.ksplit.unwrap().div as nat;
        let i = (n - 1) as nat;
        if block_user(i / div, r, q, kq_rows(site)) {
            prev.push(block_k_tap(site, i / div, i % div, q, r))
        } else {
            prev
        }
    }
}

/// After the first `n` taps, row `r` has received `k = 0, 1, ..` up to
/// the taps of its window `[q*r*div, q*r*div + K)` seen so far.
proof fn lemma_block_row_taps_prefix(site: TileSite, q: nat, r: nat, n: nat)
    requires
        conv_window_ok(site),
    ensures
        ({
            let lo = q * r * site.b.ksplit.unwrap().div;
            let len = if n <= lo {
                0
            } else if n >= lo + site.k {
                site.k as int
            } else {
                n - lo
            };
            block_row_taps(site, q, r, n) == Seq::new(len as nat, |j: int| j as nat)
        }),
    decreases n,
{
    let div = site.b.ksplit.unwrap().div as nat;
    let kq = kq_rows(site);
    let lo = q * r * div;
    let k = site.k as int;
    vstd::arithmetic::div_mod::lemma_fundamental_div_mod(site.k as int, div as int);
    assert(k == kq * div) by (nonlinear_arith)
        requires
            k == div * (site.k as int / div as int) + site.k as int % div as int,
            site.k as int % div as int == 0,
            kq == site.k as int / div as int,
    ;
    if n > 0 {
        lemma_block_row_taps_prefix(site, q, r, (n - 1) as nat);
        let i = (n - 1) as nat;
        let kqp = i / div;
        let kr = i % div;
        vstd::arithmetic::div_mod::lemma_fundamental_div_mod(i as int, div as int);
        assert(i == kqp * div + kr && 0 <= kr < div) by (nonlinear_arith)
            requires
                i == div * (i as int / div as int) + i as int % div as int,
                kqp == i as int / div as int,
                kr == i as int % div as int,
                div > 0,
        ;
        assert(block_user(kqp, r, q, kq) <==> lo <= i && i < lo + k) by (nonlinear_arith)
            requires
                i == kqp * div + kr,
                0 <= kr < div,
                lo == q * r * div,
                k == kq * div,
        ;
        if block_user(kqp, r, q, kq) {
            assert(block_k_tap(site, kqp, kr, q, r) == i - lo) by (nonlinear_arith)
                requires
                    i == kqp * div + kr,
                    lo == q * r * div,
                    kqp >= q * r,
                    block_k_tap(site, kqp, kr, q, r) == (kqp - q * r) * div + kr,
            ;
        }
        let len = if n <= lo { 0 } else if n >= lo + k { k } else { n - lo };
        assert(block_row_taps(site, q, r, n) =~= Seq::new(len as nat, |j: int| j as nat));
    }
}

/// Every row of a conv block receives every tap `0..K` exactly once, in
/// ascending `k`: sharing each tap row's `b` load across the block's rows
/// leaves every output cell's chain k-ascending, as in the unblocked tile.
pub proof fn lemma_block_rows_take_taps_in_order(site: TileSite, ti: nat, q: nat, r: nat)
    requires
        conv_window_ok(site),
        r < ti,
    ensures
        block_row_taps(site, q, r, (block_tap_rows(site, ti, q) * site.b.ksplit.unwrap().div) as nat) == Seq::new(
            site.k as nat,
            |j: int| j as nat,
        ),
{
    let div = site.b.ksplit.unwrap().div as nat;
    let n = (block_tap_rows(site, ti, q) * div) as nat;
    lemma_block_row_taps_prefix(site, q, r, n);
    let kq = kq_rows(site);
    vstd::arithmetic::div_mod::lemma_fundamental_div_mod(site.k as int, div as int);
    assert(site.k == kq * div) by (nonlinear_arith)
        requires
            site.k == div * (site.k as int / div as int) + site.k as int % div as int,
            site.k as int % div as int == 0,
            kq == site.k as int / div as int,
    ;
    assert(n >= q * r * div + site.k) by (nonlinear_arith)
        requires
            n == ((ti - 1) * q + kq) * div,
            r < ti,
            site.k == kq * div,
            div > 0,
    ;
}

/// A conv block takes at most `block_budget` ordinals.
pub proof fn lemma_conv_block_tile_width(
    t: nat,
    site: TileSite,
    ctx: ConvTileCtx,
    j0: Seq<char>,
    row0: Seq<char>,
    a_rows: Seq<Option<Seq<char>>>,
    b_row: Option<Seq<char>>,
    ti: nat,
    q: nat,
)
    ensures
        t <= conv_block_tile_text(t, site, ctx, j0, row0, a_rows, b_row, ti, q).0 <= t + block_budget(site, ti, q),
{
    reveal(conv_block_tile_text);
    crate::conv::lemma_b_tile_some(t, b_row, j0);
    let b = tile_index_upto(t, b_row, seq![(1u64, j0)], 1);
    lemma_block_seeds_width(b.0, ctx, ti);
    let seeds = block_seeds(b.0, ctx, ti);
    let n_taps = (block_tap_rows(site, ti, q) * site.b.ksplit.unwrap().div) as nat;
    lemma_block_taps_width(seeds.0, site, ctx, a_rows, b.1.unwrap(), q, ti, seeds.2, n_taps);
    let taps = block_taps(seeds.0, site, ctx, a_rows, b.1.unwrap(), q, ti, seeds.2, n_taps);
    lemma_block_stores_width(taps.0, site, ctx, j0, row0, taps.2, ti);
}

impl<'a> FnEmit<'a> {
    /// One row's FMA at one tap: `a[a_row + a.ck*k_tap]` splatted, times
    /// `b_vec`, added to `acc`; returns the new accumulator.
    #[verifier::spinoff_prover]
    fn emit_block_fma(
        &mut self,
        site: &TileSite,
        ctx: &ConvTileCtx,
        vllt: &str,
        a_row: &Option<String>,
        k_tap: u64,
        b_vec: &str,
        acc: &str,
    ) -> (v: String)
        requires
            old(self).next + 8 <= u32::MAX,
            vllt@ == vec_text(ctx.elem_llt@, ctx.tile_j),
        ensures
            ({
                let res = block_fma(old(self).next as nat, *site, *ctx, opt_text(*a_row), k_tap as nat, b_vec@, acc@);
                &&& final(self).next == res.0
                &&& final(self).body@ == old(self).body@ + res.1
                &&& v@ == res.2
            }),
            final(self).allocas == old(self).allocas,
            final(self).heap_used == old(self).heap_used,
            final(self).same_setup(*old(self)),
    {
        let ghost t = old(self).next as nat;
        let ghost o = old(self).body@;
        proof {
            lemma_tile_index_counter(t, opt_text(*a_row), seq![(site.a.ck, num::dec_nat(k_tap as nat))], 1);
        }
        let a_value = self.emit_conv_a_read(site, ctx, a_row, k_tap);
        let ghost a = conv_a_read(t, *site, *ctx, opt_text(*a_row), k_tap as nat);
        let ghost s = a.0;
        let a_vec = self.emit_splat(ctx.elem_llt.as_str(), ctx.tile_j, a_value.as_str());
        let ghost p2 = splat_text(s, ctx.elem_llt@, ctx.tile_j, a.2);
        proof {
            lemma_concat_associative(o, a.1, p2);
        }
        let product = if site.mul_a_first {
            self.emit_flagged(ctx.mul_op, ctx.contract_flag, vllt, a_vec.as_str(), b_vec)
        } else {
            self.emit_flagged(ctx.mul_op, ctx.contract_flag, vllt, b_vec, a_vec.as_str())
        };
        let ghost p3 = conv_product(tmp_name(s + 2), *site, *ctx, vllt@, tmp_name(s + 1), b_vec@);
        proof {
            lemma_concat_associative(o, a.1 + p2, p3);
        }
        let sum = if site.add_acc_first {
            self.emit_flagged(ctx.add_op, ctx.contract_flag, vllt, acc, product.as_str())
        } else {
            self.emit_flagged(ctx.add_op, ctx.contract_flag, vllt, product.as_str(), acc)
        };
        proof {
            lemma_concat_associative(o, a.1 + p2 + p3, conv_sum(tmp_name(s + 3), *site, *ctx, vllt@, acc@, tmp_name(s + 2)));
        }
        sum
    }

    /// Every user row's FMA at tap `(kqp, kr)`, rows ascending, each on
    /// its own accumulator.
    #[verifier::spinoff_prover]
    fn emit_block_rows(
        &mut self,
        site: &TileSite,
        ctx: &ConvTileCtx,
        vllt: &str,
        a_rows: &[Option<String>],
        kqp: u64,
        kr: u64,
        q: u64,
        div: u64,
        b_vec: &str,
        accs: &mut Vec<String>,
        ti: u64,
    )
        requires
            old(self).next + 8 * ti <= u32::MAX,
            conv_window_ok(*site),
            div == site.b.ksplit.unwrap().div,
            kr < div,
            a_rows@.len() == ti,
            old(accs)@.len() == ti,
            ti > 0 ==> q * (ti - 1) <= u64::MAX,
            vllt@ == vec_text(ctx.elem_llt@, ctx.tile_j),
        ensures
            ({
                let res = block_rows_fma(
                    old(self).next as nat,
                    *site,
                    *ctx,
                    opt_texts(a_rows@),
                    kqp as nat,
                    kr as nat,
                    q as nat,
                    b_vec@,
                    texts(old(accs)@),
                    ti as nat,
                );
                &&& final(self).next == res.0
                &&& final(self).body@ == old(self).body@ + res.1
                &&& texts(final(accs)@) == res.2
            }),
            final(accs)@.len() == ti,
            final(self).allocas == old(self).allocas,
            final(self).heap_used == old(self).heap_used,
            final(self).same_setup(*old(self)),
    {
        let ghost t = old(self).next as nat;
        let ghost a0 = texts(old(accs)@);
        let ghost ar = opt_texts(a_rows@);
        let kq_rows = site.k / div;
        let mut r: u64 = 0;
        while r < ti
            invariant
                r <= ti,
                t == old(self).next,
                t + 8 * ti <= u32::MAX,
                conv_window_ok(*site),
                div == site.b.ksplit.unwrap().div,
                kq_rows == site.k / div,
                kr < div,
                a_rows@.len() == ti,
                accs@.len() == ti,
                ti > 0 ==> q * (ti - 1) <= u64::MAX,
                vllt@ == vec_text(ctx.elem_llt@, ctx.tile_j),
                a0 == texts(old(accs)@),
                a0.len() == ti,
                ar == opt_texts(a_rows@),
                ({
                    let res = block_rows_fma(t, *site, *ctx, ar, kqp as nat, kr as nat, q as nat, b_vec@, a0, r as nat);
                    &&& self.next == res.0
                    &&& self.body@ == old(self).body@ + res.1
                    &&& texts(accs@) == res.2
                }),
                self.allocas == old(self).allocas,
                self.heap_used == old(self).heap_used,
                self.same_setup(*old(self)),
            decreases ti - r,
        {
            let ghost prev = block_rows_fma(t, *site, *ctx, ar, kqp as nat, kr as nat, q as nat, b_vec@, a0, r as nat);
            proof {
                lemma_block_rows_width(t, *site, *ctx, ar, kqp as nat, kr as nat, q as nat, b_vec@, a0, r as nat);
                assert(q * r <= q * (ti - 1)) by (nonlinear_arith)
                    requires
                        r < ti,
                ;
            }
            let qr = q * r;
            if kqp >= qr && kqp - qr < kq_rows {
                let kq = kqp - qr;
                proof {
                    lemma_tap_split(*site, kq, kr);
                }
                let k_tap = kq * div + kr;
                let sum = self.emit_block_fma(site, ctx, vllt, &a_rows[r as usize], k_tap, b_vec, accs[r as usize].as_str());
                proof {
                    let f = block_fma(prev.0, *site, *ctx, ar[r as int], k_tap as nat, b_vec@, prev.2[r as int]);
                    lemma_concat_associative(old(self).body@, prev.1, f.1);
                }
                let ghost before = accs@;
                accs.set(r as usize, sum);
                proof {
                    assert(texts(accs@) =~= texts(before).update(r as int, accs@[r as int]@));
                }
            }
            r += 1;
        }
    }

    /// Tap `(kqp, kr)` of a `ti`-row block: when some row uses tap row
    /// `kqp`, one vector load of `b` at the tap's offset, then every user
    /// row's FMA.
    #[verifier::spinoff_prover]
    fn emit_block_tap(
        &mut self,
        site: &TileSite,
        ctx: &ConvTileCtx,
        vllt: &str,
        align: u64,
        a_rows: &[Option<String>],
        b_tile: &str,
        kqp: u64,
        kr: u64,
        q: u64,
        ti: u64,
        accs: &mut Vec<String>,
    )
        requires
            old(self).next + 3 + 8 * ti <= u32::MAX,
            conv_window_ok(*site),
            kr < site.b.ksplit.unwrap().div,
            site.b.ksplit.unwrap().cq * kqp + site.b.ksplit.unwrap().cr * kr <= u64::MAX,
            a_rows@.len() == ti,
            old(accs)@.len() == ti,
            ti > 0 ==> q * (ti - 1) <= u64::MAX,
            vllt@ == vec_text(ctx.elem_llt@, ctx.tile_j),
            align == llt_algn(ctx.elem_llt@),
        ensures
            ({
                let res = block_tap(
                    old(self).next as nat,
                    *site,
                    *ctx,
                    opt_texts(a_rows@),
                    b_tile@,
                    kqp as nat,
                    kr as nat,
                    q as nat,
                    ti as nat,
                    texts(old(accs)@),
                );
                &&& final(self).next == res.0
                &&& final(self).body@ == old(self).body@ + res.1
                &&& texts(final(accs)@) == res.2
            }),
            final(accs)@.len() == ti,
            final(self).allocas == old(self).allocas,
            final(self).heap_used == old(self).heap_used,
            final(self).same_setup(*old(self)),
    {
        let ghost t = old(self).next as nat;
        let ghost o = old(self).body@;
        let ghost ks = site.b.ksplit.unwrap();
        let (div, cq, cr) = match &site.b.ksplit {
            Some(k) => (k.div, k.cq, k.cr),
            None => (1, 0, 0),
        };
        assert(div == ks.div && cq == ks.cq && cr == ks.cr);
        let rows_per_tap = site.k / div;
        let mut any = false;
        let mut r: u64 = 0;
        while r < ti
            invariant
                r <= ti,
                rows_per_tap == kq_rows(*site),
                ti > 0 ==> q * (ti - 1) <= u64::MAX,
                any == block_any_user(kqp as nat, q as nat, kq_rows(*site), r as nat),
            decreases ti - r,
        {
            proof {
                assert(q * r <= q * (ti - 1)) by (nonlinear_arith)
                    requires
                        r < ti,
                ;
            }
            let qr = q * r;
            if kqp >= qr && kqp - qr < rows_per_tap {
                any = true;
            }
            r += 1;
        }
        if !any {
            assert(o + Seq::<char>::empty() =~= o);
            return ;
        }
        let off = cq * kqp + cr * kr;
        let b_start = self.emit_conv_b_start(b_tile, off);
        let ghost b = conv_b_start(t, b_tile@, off as nat);
        let ghost w = b.0;
        let b_ptr = self.emit_gep(ctx.b_llt.as_str(), ctx.b_ptr.as_str(), b_start.as_str());
        let ghost p2 = gep_line(tmp_name(w), ctx.b_llt@, ctx.b_ptr@, b.2);
        proof {
            lemma_concat_associative(o, b.1, p2);
        }
        let b_vec = self.emit_aligned_load(vllt, b_ptr.as_str(), align);
        let ghost p3 = aligned_load_line(tmp_name(w + 1), vllt@, tmp_name(w), align as nat);
        proof {
            lemma_concat_associative(o, b.1 + p2, p3);
        }
        self.emit_block_rows(site, ctx, vllt, a_rows, kqp, kr, q, div, b_vec.as_str(), accs, ti);
        proof {
            let rows = block_rows_fma(
                w + 2,
                *site,
                *ctx,
                opt_texts(a_rows@),
                kqp as nat,
                kr as nat,
                q as nat,
                tmp_name(w + 1),
                texts(old(accs)@),
                ti as nat,
            );
            lemma_concat_associative(o, b.1 + p2 + p3, rows.1);
        }
    }

    /// `ti` accumulators, each a splat of the seed.
    fn emit_block_seeds(&mut self, ctx: &ConvTileCtx, ti: u64) -> (v: Vec<String>)
        requires
            old(self).next + 2 * ti <= u32::MAX,
        ensures
            ({
                let res = block_seeds(old(self).next as nat, *ctx, ti as nat);
                &&& final(self).next == res.0
                &&& final(self).body@ == old(self).body@ + res.1
                &&& texts(v@) == res.2
            }),
            v@.len() == ti,
            final(self).allocas == old(self).allocas,
            final(self).heap_used == old(self).heap_used,
            final(self).same_setup(*old(self)),
    {
        let ghost t = old(self).next as nat;
        let mut v: Vec<String> = Vec::new();
        let mut r: u64 = 0;
        while r < ti
            invariant
                r <= ti,
                t == old(self).next,
                t + 2 * ti <= u32::MAX,
                v@.len() == r,
                ({
                    let res = block_seeds(t, *ctx, r as nat);
                    &&& self.next == res.0
                    &&& self.body@ == old(self).body@ + res.1
                    &&& texts(v@) == res.2
                }),
                self.allocas == old(self).allocas,
                self.heap_used == old(self).heap_used,
                self.same_setup(*old(self)),
            decreases ti - r,
        {
            proof {
                lemma_block_seeds_width(t, *ctx, r as nat);
            }
            let ghost prev = block_seeds(t, *ctx, r as nat);
            let acc = self.emit_splat(ctx.elem_llt.as_str(), ctx.tile_j, ctx.seed.as_str());
            proof {
                lemma_concat_associative(old(self).body@, prev.1, splat_text(prev.0, ctx.elem_llt@, ctx.tile_j, ctx.seed@));
            }
            let ghost before = v@;
            v.push(acc);
            assert(texts(v@) =~= texts(before).push(tmp_name(prev.0 + 1)));
            r += 1;
        }
        v
    }

    /// Row `r`'s accumulator to `out[row0 + r*C + j0 ..]` for every row.
    fn emit_block_stores(
        &mut self,
        site: &TileSite,
        ctx: &ConvTileCtx,
        vllt: &str,
        align: u64,
        j0: &str,
        row0: &str,
        accs: &Vec<String>,
        ti: u64,
    )
        requires
            old(self).next + 3 * ti <= u32::MAX,
            accs@.len() == ti,
            ti > 0 ==> (ti - 1) * site.c <= u64::MAX,
            vllt@ == vec_text(ctx.elem_llt@, ctx.tile_j),
            align == llt_algn(ctx.elem_llt@),
        ensures
            ({
                let res = block_stores(old(self).next as nat, *site, *ctx, j0@, row0@, texts(accs@), ti as nat);
                &&& final(self).next == res.0
                &&& final(self).body@ == old(self).body@ + res.1
            }),
            final(self).allocas == old(self).allocas,
            final(self).heap_used == old(self).heap_used,
            final(self).same_setup(*old(self)),
    {
        let ghost t = old(self).next as nat;
        let ghost o = old(self).body@;
        let ghost av = texts(accs@);
        let mut r: u64 = 0;
        while r < ti
            invariant
                r <= ti,
                t == old(self).next,
                t + 3 * ti <= u32::MAX,
                accs@.len() == ti,
                av == texts(accs@),
                ti > 0 ==> (ti - 1) * site.c <= u64::MAX,
                vllt@ == vec_text(ctx.elem_llt@, ctx.tile_j),
                align == llt_algn(ctx.elem_llt@),
                ({
                    let res = block_stores(t, *site, *ctx, j0@, row0@, av, r as nat);
                    &&& self.next == res.0
                    &&& self.body@ == o + res.1
                }),
                self.allocas == old(self).allocas,
                self.heap_used == old(self).heap_used,
                self.same_setup(*old(self)),
            decreases ti - r,
        {
            proof {
                lemma_block_stores_width(t, *site, *ctx, j0@, row0@, av, r as nat);
                assert(r * site.c <= (ti - 1) * site.c) by (nonlinear_arith)
                    requires
                        r < ti,
                ;
            }
            let ghost prev = block_stores(t, *site, *ctx, j0@, row0@, av, r as nat);
            let ghost u = prev.0;
            let off = num::u64_to_string(r * site.c);
            let out_start = self.emit_op("add", row0, off.as_str());
            let ghost p1 = op_line(tmp_name(u), "add"@, row0@, num::dec_nat((r * site.c) as nat));
            proof {
                lemma_concat_associative(o, prev.1, p1);
            }
            let out_index = self.emit_op("add", out_start.as_str(), j0);
            let ghost p2 = op_line(tmp_name(u + 1), "add"@, tmp_name(u), j0@);
            proof {
                lemma_concat_associative(o, prev.1 + p1, p2);
            }
            let out_ptr = self.emit_gep(ctx.out_llt.as_str(), ctx.out_ptr.as_str(), out_index.as_str());
            let ghost p3 = gep_line(tmp_name(u + 2), ctx.out_llt@, ctx.out_ptr@, tmp_name(u + 1));
            proof {
                lemma_concat_associative(o, prev.1 + p1 + p2, p3);
            }
            self.emit_aligned_store(vllt, accs[r as usize].as_str(), out_ptr.as_str(), align);
            proof {
                lemma_concat_associative(o, prev.1 + p1 + p2 + p3, aligned_store_line(vllt@, av[r as int], tmp_name(u + 2), align as nat));
            }
            r += 1;
        }
    }

    /// One `ti x TJ` block of a sliding conv read at `(row0, j0)`: `ti`
    /// seeded vector accumulators; for every tap row `kqp` of the block's
    /// union and every `kr`, when some row uses it, one vector load of `b`
    /// shared by those rows, each row adding `a[a_row + a.ck*k_tap] * b`
    /// with `k_tap = (kqp - q*r)*div + kr`; then one vector store per row.
    #[verifier::spinoff_prover]
    pub fn emit_conv_block_tile(
        &mut self,
        site: &TileSite,
        ctx: &ConvTileCtx,
        j0: &str,
        row0: &str,
        a_rows: &[Option<String>],
        b_row: &Option<String>,
        ti: u64,
        q: u64,
    )
        requires
            old(self).next + block_budget(*site, ti as nat, q as nat) <= u32::MAX,
            conv_window_ok(*site),
            align_ok(ctx.elem_llt@),
            ti > 0,
            a_rows@.len() == ti,
            (ti - 1) * q + kq_rows(*site) <= u64::MAX,
            (ti - 1) * site.c <= u64::MAX,
            block_tap_rows(*site, ti as nat, q as nat) > 0 ==> site.b.ksplit.unwrap().cq * (block_tap_rows(
                *site,
                ti as nat,
                q as nat,
            ) - 1) + site.b.ksplit.unwrap().cr * (site.b.ksplit.unwrap().div - 1) <= u64::MAX,
        ensures
            ({
                let res = conv_block_tile_text(
                    old(self).next as nat,
                    *site,
                    *ctx,
                    j0@,
                    row0@,
                    opt_texts(a_rows@),
                    opt_text(*b_row),
                    ti as nat,
                    q as nat,
                );
                &&& final(self).next == res.0
                &&& final(self).body@ == old(self).body@ + res.1
            }),
            final(self).allocas == old(self).allocas,
            final(self).heap_used == old(self).heap_used,
            final(self).same_setup(*old(self)),
    {
        reveal(conv_block_tile_text);
        let ghost t = old(self).next as nat;
        let ghost o = old(self).body@;
        let ghost ks = site.b.ksplit.unwrap();
        let ghost ar = opt_texts(a_rows@);
        let (div, cq, cr) = match &site.b.ksplit {
            Some(k) => (k.div, k.cq, k.cr),
            None => (1, 0, 0),
        };
        assert(div == ks.div && cq == ks.cq && cr == ks.cr);
        let vllt = crate::llt::vec_llt(ctx.elem_llt.as_str(), ctx.tile_j);
        proof {
            reveal_strlit("<");
            reveal_strlit(" x ");
            reveal_strlit(">");
            assert(vllt@ =~= vec_text(ctx.elem_llt@, ctx.tile_j));
        }
        let align = crate::llt::llt_align(ctx.elem_llt.as_str());
        let ghost tap_rows = block_tap_rows(*site, ti as nat, q as nat);
        let ghost n_taps = (tap_rows * div) as nat;
        let ghost per = (3 + 8 * ti) as nat;
        proof {
            crate::conv::lemma_b_tile_some(t, opt_text(*b_row), j0@);
            assert(q * (ti - 1) <= u64::MAX) by (nonlinear_arith)
                requires
                    (ti - 1) * q + kq_rows(*site) <= u64::MAX,
            ;
            assert(n_taps * per <= block_budget(*site, ti as nat, q as nat) - 1 - 5 * ti) by (nonlinear_arith)
                requires
                    block_budget(*site, ti as nat, q as nat) == 1 + 5 * ti + tap_rows * div * per,
                    n_taps == tap_rows * div,
            ;
        }
        let b_tile = self.emit_conv_b_tile(b_row, j0);
        let ghost b = tile_index_upto(t, opt_text(*b_row), seq![(1u64, j0@)], 1);
        proof {
            lemma_block_seeds_width(b.0, *ctx, ti as nat);
        }
        let mut accs = self.emit_block_seeds(ctx, ti);
        let ghost seeds = block_seeds(b.0, *ctx, ti as nat);
        let ghost s0 = seeds.0;
        let ghost w2 = b.2 + seeds.1;
        proof {
            lemma_concat_associative(o, b.2, seeds.1);
        }
        let total = (ti - 1) * q + site.k / div;
        assert(total == tap_rows);
        assert(o + w2 + Seq::<char>::empty() =~= o + w2);
        assert(block_taps(s0, *site, *ctx, ar, b_tile@, q as nat, ti as nat, seeds.2, (0 * div) as nat) == (s0, Seq::<char>::empty(), seeds.2));
        let mut kqp: u64 = 0;
        while kqp < total
            invariant
                kqp <= total,
                total == tap_rows,
                tap_rows == block_tap_rows(*site, ti as nat, q as nat),
                n_taps == tap_rows * div,
                per == 3 + 8 * ti,
                s0 + n_taps * per + 3 * ti <= u32::MAX,
                div == ks.div && cq == ks.cq && cr == ks.cr,
                ks == site.b.ksplit.unwrap(),
                conv_window_ok(*site),
                a_rows@.len() == ti,
                accs@.len() == ti,
                seeds.2.len() == ti,
                ti > 0,
                q * (ti - 1) <= u64::MAX,
                tap_rows > 0 ==> cq * (tap_rows - 1) + cr * (div - 1) <= u64::MAX,
                vllt@ == vec_text(ctx.elem_llt@, ctx.tile_j),
                align == llt_algn(ctx.elem_llt@),
                ar == opt_texts(a_rows@),
                ({
                    let res = block_taps(s0, *site, *ctx, ar, b_tile@, q as nat, ti as nat, seeds.2, (kqp * div) as nat);
                    &&& self.next == res.0
                    &&& self.body@ == o + w2 + res.1
                    &&& texts(accs@) == res.2
                }),
                self.allocas == old(self).allocas,
                self.heap_used == old(self).heap_used,
                self.same_setup(*old(self)),
            decreases total - kqp,
        {
            let mut kr: u64 = 0;
            while kr < div
                invariant
                    kqp < total,
                    kr <= div,
                    total == tap_rows,
                    tap_rows == block_tap_rows(*site, ti as nat, q as nat),
                    n_taps == tap_rows * div,
                    per == 3 + 8 * ti,
                    s0 + n_taps * per + 3 * ti <= u32::MAX,
                    div == ks.div && cq == ks.cq && cr == ks.cr,
                    ks == site.b.ksplit.unwrap(),
                    conv_window_ok(*site),
                    a_rows@.len() == ti,
                    accs@.len() == ti,
                    seeds.2.len() == ti,
                    ti > 0,
                    q * (ti - 1) <= u64::MAX,
                    tap_rows > 0 ==> cq * (tap_rows - 1) + cr * (div - 1) <= u64::MAX,
                    vllt@ == vec_text(ctx.elem_llt@, ctx.tile_j),
                    align == llt_algn(ctx.elem_llt@),
                    ar == opt_texts(a_rows@),
                    ({
                        let res = block_taps(s0, *site, *ctx, ar, b_tile@, q as nat, ti as nat, seeds.2, (kqp * div + kr) as nat);
                        &&& self.next == res.0
                        &&& self.body@ == o + w2 + res.1
                        &&& texts(accs@) == res.2
                    }),
                    self.allocas == old(self).allocas,
                    self.heap_used == old(self).heap_used,
                    self.same_setup(*old(self)),
                decreases div - kr,
            {
                let ghost i = (kqp * div + kr) as nat;
                let ghost prev = block_taps(s0, *site, *ctx, ar, b_tile@, q as nat, ti as nat, seeds.2, i);
                proof {
                    lemma_block_taps_width(s0, *site, *ctx, ar, b_tile@, q as nat, ti as nat, seeds.2, i);
                    assert(i + 1 <= n_taps) by (nonlinear_arith)
                        requires
                            i == kqp * div + kr,
                            kqp < tap_rows,
                            kr < div,
                            n_taps == tap_rows * div,
                    ;
                    assert(i * per + per <= n_taps * per) by (nonlinear_arith)
                        requires
                            i + 1 <= n_taps,
                    ;
                    assert(cq * kqp + cr * kr <= u64::MAX) by (nonlinear_arith)
                        requires
                            kqp < tap_rows,
                            kr < div,
                            cq * (tap_rows - 1) + cr * (div - 1) <= u64::MAX,
                    ;
                    vstd::arithmetic::div_mod::lemma_fundamental_div_mod_converse(i as int, div as int, kqp as int, kr as int);
                }
                self.emit_block_tap(site, ctx, vllt.as_str(), align, a_rows, b_tile.as_str(), kqp, kr, q, ti, &mut accs);
                proof {
                    let tap = block_tap(prev.0, *site, *ctx, ar, b_tile@, kqp as nat, kr as nat, q as nat, ti as nat, prev.2);
                    lemma_concat_associative(o + w2, prev.1, tap.1);
                    assert(((kqp * div + kr) + 1) as nat == (kqp * div + (kr + 1)) as nat);
                }
                kr += 1;
            }
            proof {
                crate::conv::lemma_group_step(kqp, div);
            }
            kqp += 1;
        }
        let ghost taps = block_taps(s0, *site, *ctx, ar, b_tile@, q as nat, ti as nat, seeds.2, n_taps);
        proof {
            lemma_block_taps_width(s0, *site, *ctx, ar, b_tile@, q as nat, ti as nat, seeds.2, n_taps);
        }
        self.emit_block_stores(site, ctx, vllt.as_str(), align, j0, row0, &accs, ti);
        proof {
            let st = block_stores(taps.0, *site, *ctx, j0@, row0@, taps.2, ti as nat);
            lemma_concat_associative(o + w2, taps.1, st.1);
            lemma_concat_associative(o, w2, taps.1 + st.1);
            lemma_concat_associative(o, b.2 + seeds.1, taps.1);
            lemma_concat_associative(o, b.2 + seeds.1 + taps.1, st.1);
        }
    }
}

} // verus!
