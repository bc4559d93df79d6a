//! The plain tiled nest, for sites that neither slide, nor window, nor
//! share `b` across rows: per row its clipped window, per j-tile (width
//! `min(jw_hi - j0, TJ)`) a memory accumulator seeded by a lane loop, a k
//! loop whose lane loop multiplies `a[.., k]` into `b[.., k, j0 + lane]` (or
//! its packed panel slot), then a lane loop storing the tile.
use vstd::prelude::*;
use vstd::seq_lib::lemma_concat_associative;
use crate::access::{gep_line, latch_text, load_line, store_line};
use crate::arith::{branch_line, jump_line};
use crate::emit::{
    FnEmit, TileCtx, label_name, label_text, lemma_tile_index_counter, op_line, opt_text, row_window_text, select_line,
    term_views, tile_index_upto, tmp_name,
};
use crate::nest::base_text;
use crate::num;
use crate::site::TileSite;
use crate::tile::{product_line, sum_line};

verus! {

/// The row range of the task slice `[lo, hi)`, ordinals `t..t+3`:
/// `i_lo = lo / C`, `i_hi = (hi + C - 1) / C` (in `t+2`); the counter starts
/// at `i_lo`.
pub open spec fn plain_prologue_text(t: nat, site: TileSite, lo: Seq<char>, hi: Seq<char>, i_ctr: Seq<char>) -> Seq<char> {
    let cs = num::dec_nat(site.c as nat);
    op_line(tmp_name(t), "udiv"@, lo, cs) + op_line(tmp_name(t + 1), "add"@, hi, num::dec_nat((site.c - 1) as nat)) + op_line(
        tmp_name(t + 2),
        "udiv"@,
        tmp_name(t + 1),
        cs,
    ) + store_line("i64"@, tmp_name(t), i_ctr)
}

/// The row's `a` and `b` bases at row `i`, ordinals from `t+30`:
/// `(next, text, a_row, b_row)`.
pub open spec fn plain_row_bases(t: nat, site: TileSite) -> (nat, Seq<char>, Option<Seq<char>>, Option<Seq<char>>) {
    let i = tmp_name(t + 21);
    let a = tile_index_upto(t + 30, base_text(site.a.base), seq![(site.a.ci, i)], 1);
    let b = tile_index_upto(a.0, base_text(site.b.base), seq![(site.b.ci, i)], 1);
    (b.0, a.2 + b.2, a.1, b.1)
}

/// The row loop's opening (labels `t+3..t+20` allocated up front; `i` in
/// `t+21`, `row0` in `t+23`, the window `[jw_lo, jw_hi)` in `t+26`, `t+29`),
/// the row bases, then `j = jw_lo`.
pub open spec fn plain_i_open_text(
    t: nat,
    site: TileSite,
    lo: Seq<char>,
    hi: Seq<char>,
    i_ctr: Seq<char>,
    j_ctr: Seq<char>,
) -> Seq<char> {
    let i = tmp_name(t + 21);
    let row0 = tmp_name(t + 23);
    jump_line(label_name(t + 3)) + label_text(label_name(t + 3)) + load_line(i, "i64"@, i_ctr) + op_line(
        tmp_name(t + 22),
        "icmp uge"@,
        i,
        tmp_name(t + 2),
    ) + branch_line(tmp_name(t + 22), label_name(t + 5), label_name(t + 4)) + label_text(label_name(t + 4)) + op_line(
        row0,
        "mul"@,
        i,
        num::dec_nat(site.c as nat),
    ) + row_window_text(t + 24, lo, hi, row0, site.c) + plain_row_bases(t, site).1 + store_line(
        "i64"@,
        tmp_name(t + 26),
        j_ctr,
    ) + jump_line(label_name(t + 6))
}

/// The j loop's opening and the seed loop, ordinals from `v`: `j0` in `v`
/// while `j0 < jw_hi`; the tile's width `min(jw_hi - j0, TJ)` in `v+4`;
/// `acc[lane] = seed` over it (lane in `v+5`); then `k = 0`.
pub open spec fn plain_j_open_text(t: nat, v: nat, ctx: TileCtx, j_ctr: Seq<char>) -> Seq<char> {
    let j0 = tmp_name(v);
    let jw_hi = tmp_name(t + 29);
    let tjs = num::dec_nat(ctx.tile_j as nat);
    let lane = tmp_name(v + 5);
    label_text(label_name(t + 6)) + load_line(j0, "i64"@, j_ctr) + op_line(tmp_name(v + 1), "icmp uge"@, j0, jw_hi)
        + branch_line(tmp_name(v + 1), label_name(t + 8), label_name(t + 7)) + label_text(label_name(t + 7)) + op_line(
        tmp_name(v + 2),
        "sub"@,
        jw_hi,
        j0,
    ) + op_line(tmp_name(v + 3), "icmp ult"@, tmp_name(v + 2), tjs) + select_line(tmp_name(v + 4), tmp_name(v + 3), tmp_name(v + 2), tjs)
        + store_line("i64"@, "0"@, ctx.lane_ctr@) + jump_line(label_name(t + 9)) + label_text(label_name(t + 9)) + load_line(
        lane,
        "i64"@,
        ctx.lane_ctr@,
    ) + op_line(tmp_name(v + 6), "icmp uge"@, lane, tmp_name(v + 4)) + branch_line(
        tmp_name(v + 6),
        label_name(t + 11),
        label_name(t + 10),
    ) + label_text(label_name(t + 10)) + gep_line(tmp_name(v + 7), ctx.acc_llt@, ctx.acc@, lane) + store_line(
        ctx.elem_llt@,
        ctx.seed@,
        tmp_name(v + 7),
    ) + latch_text(tmp_name(v + 8), lane, ctx.lane_ctr@, label_name(t + 9), label_name(t + 11)) + store_line(
        "i64"@,
        "0"@,
        ctx.k_ctr@,
    ) + jump_line(label_name(t + 12))
}

/// The k step's `a` read, ordinals from `v+11`: `a[a_row + a.ck*k]` (or
/// `a[0]`). `(next, text)`, the value in `tmp(next - 1)`.
pub open spec fn plain_a_read(v: nat, site: TileSite, ctx: TileCtx, a_row: Option<Seq<char>>) -> (nat, Seq<char>) {
    let a = tile_index_upto(v + 11, a_row, seq![(site.a.ck, tmp_name(v + 9))], 1);
    let ix = match a.1 {
        Some(s) => s,
        None => "0"@,
    };
    (a.0 + 2, a.2 + gep_line(tmp_name(a.0), ctx.a_llt@, ctx.a_ptr@, ix) + load_line(tmp_name(a.0 + 1), ctx.elem_llt@, tmp_name(a.0)))
}

/// Without a packed panel, the k step's `b` start `b_row + b.ck*k + j0`,
/// ordinals from `w`. `(next, text, start)`.
pub open spec fn plain_b_start(w: nat, v: nat, site: TileSite, ctx: TileCtx, b_row: Option<Seq<char>>) -> (
    nat,
    Seq<char>,
    Option<Seq<char>>,
) {
    match ctx.packed {
        Some(_) => (w, Seq::empty(), None),
        None => {
            let b = tile_index_upto(w, b_row, seq![(site.b.ck, tmp_name(v + 9)), (1u64, tmp_name(v))], 2);
            (b.0, b.2, b.1)
        },
    }
}

/// The k loop's opening, ordinals from `v+9` (`k` there): while `k < K`,
/// the `a` read, the `b` start, then `lane = 0`. `(next, text)`.
pub open spec fn plain_k_open_text(
    t: nat,
    v: nat,
    site: TileSite,
    ctx: TileCtx,
    a_row: Option<Seq<char>>,
    b_row: Option<Seq<char>>,
) -> (nat, Seq<char>) {
    let kk = tmp_name(v + 9);
    let a = plain_a_read(v, site, ctx, a_row);
    let b = plain_b_start(a.0, v, site, ctx, b_row);
    (
        b.0,
        label_text(label_name(t + 12)) + load_line(kk, "i64"@, ctx.k_ctr@) + op_line(
            tmp_name(v + 10),
            "icmp uge"@,
            kk,
            num::dec_nat(site.k as nat),
        ) + branch_line(tmp_name(v + 10), label_name(t + 14), label_name(t + 13)) + label_text(label_name(t + 13)) + a.1
            + b.1 + store_line("i64"@, "0"@, ctx.lane_ctr@) + jump_line(label_name(t + 15)),
    )
}

/// The lane's `b` index, ordinals from `y+2` (lane in `y`): the packed
/// panel slot `(j / TJ)*K*TJ + k*TJ + j % TJ` of `j = j0 + lane`, or
/// `b_start + lane`. `(next, text, array type, base, index)`.
pub open spec fn plain_b_index(y: nat, v: nat, site: TileSite, ctx: TileCtx, b_start: Option<Seq<char>>) -> (
    nat,
    Seq<char>,
    Seq<char>,
    Seq<char>,
    Seq<char>,
) {
    let lane = tmp_name(y);
    let tjs = num::dec_nat(ctx.tile_j as nat);
    match ctx.packed {
        Some(p) => (
            y + 9,
            op_line(tmp_name(y + 2), "add"@, tmp_name(v), lane) + op_line(tmp_name(y + 3), "udiv"@, tmp_name(y + 2), tjs)
                + op_line(tmp_name(y + 4), "urem"@, tmp_name(y + 2), tjs) + op_line(
                tmp_name(y + 5),
                "mul"@,
                tmp_name(y + 3),
                num::dec_nat((site.k * ctx.tile_j) as nat),
            ) + op_line(tmp_name(y + 6), "mul"@, tmp_name(v + 9), tjs) + op_line(
                tmp_name(y + 7),
                "add"@,
                tmp_name(y + 5),
                tmp_name(y + 6),
            ) + op_line(tmp_name(y + 8), "add"@, tmp_name(y + 7), tmp_name(y + 4)),
            p.llt@,
            p.ptr@,
            tmp_name(y + 8),
        ),
        None => (
            y + 3,
            op_line(tmp_name(y + 2), "add"@, b_start.unwrap(), lane),
            ctx.b_llt@,
            ctx.b_ptr@,
            tmp_name(y + 2),
        ),
    }
}

/// One lane's multiply-add, ordinals from `z` (lane in `y`): `b` at the
/// given address, times `a`, added into `acc[lane]` in the source's orders.
pub open spec fn plain_fma_text(
    z: nat,
    y: nat,
    site: TileSite,
    ctx: TileCtx,
    a_value: Seq<char>,
    b_arr: Seq<char>,
    b_base: Seq<char>,
    b_index: Seq<char>,
) -> Seq<char> {
    let elem = ctx.elem_llt@;
    gep_line(tmp_name(z), b_arr, b_base, b_index) + load_line(tmp_name(z + 1), elem, tmp_name(z)) + product_line(
        tmp_name(z + 2),
        site,
        ctx,
        a_value,
        tmp_name(z + 1),
    ) + gep_line(tmp_name(z + 3), ctx.acc_llt@, ctx.acc@, tmp_name(y)) + load_line(tmp_name(z + 4), elem, tmp_name(z + 3))
        + sum_line(tmp_name(z + 5), site, ctx, tmp_name(z + 4), tmp_name(z + 2)) + store_line(
        elem,
        tmp_name(z + 5),
        tmp_name(z + 3),
    )
}

/// The inner lane loop and the k latch, ordinals from `y` (lane there):
/// `acc[lane] += a * b[..]` in the source's orders over the tile's width.
pub open spec fn plain_inner_text(
    t: nat,
    v: nat,
    y: nat,
    site: TileSite,
    ctx: TileCtx,
    a_value: Seq<char>,
    b_start: Option<Seq<char>>,
) -> (nat, Seq<char>) {
    let lane = tmp_name(y);
    let b = plain_b_index(y, v, site, ctx, b_start);
    let z = b.0;
    (
        z + 8,
        label_text(label_name(t + 15)) + load_line(lane, "i64"@, ctx.lane_ctr@) + op_line(
            tmp_name(y + 1),
            "icmp uge"@,
            lane,
            tmp_name(v + 4),
        ) + branch_line(tmp_name(y + 1), label_name(t + 17), label_name(t + 16)) + label_text(label_name(t + 16)) + b.1
            + plain_fma_text(z, y, site, ctx, a_value, b.2, b.3, b.4) + latch_text(
            tmp_name(z + 6),
            lane,
            ctx.lane_ctr@,
            label_name(t + 15),
            label_name(t + 17),
        ) + latch_text(tmp_name(z + 7), tmp_name(v + 9), ctx.k_ctr@, label_name(t + 12), label_name(t + 14)),
    )
}

/// The store loop and the j and i latches, ordinals from `s`:
/// `out[row0 + j0 + lane] = acc[lane]` over the tile's width, `j0 += TJ`,
/// `i += 1`.
pub open spec fn plain_store_text(t: nat, v: nat, s: nat, ctx: TileCtx, i_ctr: Seq<char>, j_ctr: Seq<char>) -> Seq<char> {
    let lane = tmp_name(s + 1);
    let elem = ctx.elem_llt@;
    op_line(tmp_name(s), "add"@, tmp_name(t + 23), tmp_name(v)) + store_line("i64"@, "0"@, ctx.lane_ctr@) + jump_line(
        label_name(t + 18),
    ) + label_text(label_name(t + 18)) + load_line(lane, "i64"@, ctx.lane_ctr@) + op_line(
        tmp_name(s + 2),
        "icmp uge"@,
        lane,
        tmp_name(v + 4),
    ) + branch_line(tmp_name(s + 2), label_name(t + 20), label_name(t + 19)) + label_text(label_name(t + 19)) + gep_line(
        tmp_name(s + 3),
        ctx.acc_llt@,
        ctx.acc@,
        lane,
    ) + load_line(tmp_name(s + 4), elem, tmp_name(s + 3)) + op_line(tmp_name(s + 5), "add"@, tmp_name(s), lane) + gep_line(
        tmp_name(s + 6),
        ctx.out_llt@,
        ctx.out_ptr@,
        tmp_name(s + 5),
    ) + store_line(elem, tmp_name(s + 4), tmp_name(s + 6)) + latch_text(
        tmp_name(s + 7),
        lane,
        ctx.lane_ctr@,
        label_name(t + 18),
        label_name(t + 20),
    ) + op_line(tmp_name(s + 8), "add"@, tmp_name(v), num::dec_nat(ctx.tile_j as nat)) + store_line(
        "i64"@,
        tmp_name(s + 8),
        j_ctr,
    ) + jump_line(label_name(t + 6)) + label_text(label_name(t + 8)) + latch_text(
        tmp_name(s + 9),
        tmp_name(t + 21),
        i_ctr,
        label_name(t + 3),
        label_name(t + 5),
    )
}

/// The row loop of the plain nest, ordinals from `t+21` (its labels
/// `t+3..t+20`, `i_hi` in `t+2`).
pub open spec fn plain_rows_text(
    t: nat,
    site: TileSite,
    ctx: TileCtx,
    i_ctr: Seq<char>,
    j_ctr: Seq<char>,
    lo: Seq<char>,
    hi: Seq<char>,
) -> (nat, Seq<char>) {
    let rb = plain_row_bases(t, site);
    let v = rb.0;
    let k = plain_k_open_text(t, v, site, ctx, rb.2, rb.3);
    let a = plain_a_read(v, site, ctx, rb.2);
    let b = plain_b_start(a.0, v, site, ctx, rb.3);
    let inner = plain_inner_text(t, v, k.0, site, ctx, tmp_name((a.0 - 1) as nat), b.2);
    let s = inner.0;
    (
        s + 10,
        plain_i_open_text(t, site, lo, hi, i_ctr, j_ctr) + plain_j_open_text(t, v, ctx, j_ctr) + k.1 + inner.1
            + plain_store_text(t, v, s, ctx, i_ctr, j_ctr),
    )
}

/// The plain tiled nest over the task slice `[lo, hi)`, ordinals from `t`:
/// the row range, then the row loop.
#[verifier::opaque]
pub open spec fn plain_nest_text(
    t: nat,
    site: TileSite,
    ctx: TileCtx,
    i_ctr: Seq<char>,
    j_ctr: Seq<char>,
    lo: Seq<char>,
    hi: Seq<char>,
) -> (nat, Seq<char>) {
    let rows = plain_rows_text(t, site, ctx, i_ctr, j_ctr, lo, hi);
    (rows.0, plain_prologue_text(t, site, lo, hi, i_ctr) + rows.1)
}

/// The nest's labels, allocated up front: label `k` is `bb<t+3+k>`.
pub open spec fn plain_labels_ok(labels: Seq<String>, t: nat) -> bool {
    &&& labels.len() == 18
    &&& forall|k: int| 0 <= k < 18 ==> #[trigger] labels[k]@ == label_name((t + 3 + k) as nat)
}

impl<'a> FnEmit<'a> {
    /// The row range of the task slice; returns `i_hi`.
    fn emit_plain_prologue(&mut self, site: &TileSite, lo: &str, hi: &str, i_ctr: &str) -> (r: String)
        requires
            old(self).next + 3 <= u32::MAX,
            site.c > 0,
        ensures
            r@ == tmp_name(old(self).next as nat + 2),
            final(self).body@ == old(self).body@ + plain_prologue_text(old(self).next as nat, *site, lo@, hi@, i_ctr@),
            final(self).next == old(self).next + 3,
            final(self).allocas == old(self).allocas,
            final(self).heap_used == old(self).heap_used,
            final(self).same_setup(*old(self)),
    {
        let ghost t = old(self).next as nat;
        let ghost o = old(self).body@;
        let c = num::u64_to_string(site.c);
        let c1 = num::u64_to_string(site.c - 1);
        let i_lo = self.emit_op("udiv", lo, c.as_str());
        let ghost p1 = op_line(tmp_name(t), "udiv"@, lo@, num::dec_nat(site.c as nat));
        let hi_biased = self.emit_op("add", hi, c1.as_str());
        let ghost p2 = op_line(tmp_name(t + 1), "add"@, hi@, num::dec_nat((site.c - 1) as nat));
        proof {
            lemma_concat_associative(o, p1, p2);
        }
        let i_hi = self.emit_op("udiv", hi_biased.as_str(), c.as_str());
        let ghost p3 = op_line(tmp_name(t + 2), "udiv"@, tmp_name(t + 1), num::dec_nat(site.c as nat));
        proof {
            lemma_concat_associative(o, p1 + p2, p3);
        }
        self.emit_store("i64", i_lo.as_str(), i_ctr);
        proof {
            lemma_concat_associative(o, p1 + p2 + p3, store_line("i64"@, tmp_name(t), i_ctr@));
        }
        i_hi
    }

    /// The row loop's opening through `j = jw_lo`; returns `i`, `row0`,
    /// `jw_hi` and the row bases.
    #[verifier::spinoff_prover]
    fn emit_plain_i_open(
        &mut self,
        site: &TileSite,
        lo: &str,
        hi: &str,
        i_ctr: &str,
        j_ctr: &str,
        i_hi: &str,
        labels: &Vec<String>,
        Ghost(t): Ghost<nat>,
    ) -> (r: (String, String, String, Option<String>, Option<String>))
        requires
            old(self).next == t + 21,
            old(self).next + 13 <= u32::MAX,
            plain_labels_ok(labels@, t),
            i_hi@ == tmp_name(t + 2),
        ensures
            r.0@ == tmp_name(t + 21),
            r.1@ == tmp_name(t + 23),
            r.2@ == tmp_name(t + 29),
            opt_text(r.3) == plain_row_bases(t, *site).2,
            opt_text(r.4) == plain_row_bases(t, *site).3,
            final(self).body@ == old(self).body@ + plain_i_open_text(t, *site, lo@, hi@, i_ctr@, j_ctr@),
            final(self).next == plain_row_bases(t, *site).0,
            final(self).allocas == old(self).allocas,
            final(self).heap_used == old(self).heap_used,
            final(self).same_setup(*old(self)),
    {
        let ghost o = old(self).body@;
        assert(labels@[0]@ == label_name(t + 3));
        assert(labels@[1]@ == label_name(t + 4));
        assert(labels@[2]@ == label_name(t + 5));
        assert(labels@[3]@ == label_name(t + 6));
        self.jump(labels[0].as_str());
        let ghost p1 = jump_line(label_name(t + 3));
        self.label_line(labels[0].as_str());
        let ghost p2 = label_text(label_name(t + 3));
        proof {
            lemma_concat_associative(o, p1, p2);
        }
        let i = self.emit_load("i64", i_ctr);
        let ghost p3 = load_line(tmp_name(t + 21), "i64"@, i_ctr@);
        proof {
            lemma_concat_associative(o, p1 + p2, p3);
        }
        let done = self.emit_op("icmp uge", i.as_str(), i_hi);
        let ghost p4 = op_line(tmp_name(t + 22), "icmp uge"@, tmp_name(t + 21), tmp_name(t + 2));
        proof {
            lemma_concat_associative(o, p1 + p2 + p3, p4);
        }
        self.branch(done.as_str(), labels[2].as_str(), labels[1].as_str());
        let ghost p5 = branch_line(tmp_name(t + 22), label_name(t + 5), label_name(t + 4));
        proof {
            lemma_concat_associative(o, p1 + p2 + p3 + p4, p5);
        }
        let ghost w5 = p1 + p2 + p3 + p4 + p5;
        self.label_line(labels[1].as_str());
        let ghost p6 = label_text(label_name(t + 4));
        proof {
            lemma_concat_associative(o, w5, p6);
        }
        let c = num::u64_to_string(site.c);
        let row0 = self.emit_op("mul", i.as_str(), c.as_str());
        let ghost p7 = op_line(tmp_name(t + 23), "mul"@, tmp_name(t + 21), num::dec_nat(site.c as nat));
        proof {
            lemma_concat_associative(o, w5 + p6, p7);
        }
        let (jw_lo, jw_hi) = self.emit_row_window(site, lo, hi, row0.as_str());
        let ghost p8 = row_window_text(t + 24, lo@, hi@, tmp_name(t + 23), site.c);
        proof {
            lemma_concat_associative(o, w5 + p6 + p7, p8);
        }
        let ghost w8 = w5 + p6 + p7 + p8;
        let ta = [(site.a.ci, i.as_str())];
        let ghost tva = seq![(site.a.ci, tmp_name(t + 21))];
        assert(term_views(ta@) =~= tva);
        proof {
            lemma_tile_index_counter(t + 30, base_text(site.a.base), tva, 1);
        }
        let a_row = self.emit_tile_index(Self::base_option(site.a.base), &ta);
        let ghost a = tile_index_upto(t + 30, base_text(site.a.base), tva, 1);
        let tb = [(site.b.ci, i.as_str())];
        let ghost tvb = seq![(site.b.ci, tmp_name(t + 21))];
        assert(term_views(tb@) =~= tvb);
        proof {
            lemma_tile_index_counter(a.0, base_text(site.b.base), tvb, 1);
        }
        let b_row = self.emit_tile_index(Self::base_option(site.b.base), &tb);
        let ghost b = tile_index_upto(a.0, base_text(site.b.base), tvb, 1);
        proof {
            lemma_concat_associative(o + w8, a.2, b.2);
            lemma_concat_associative(o, w8, a.2 + b.2);
        }
        let ghost w9 = w8 + plain_row_bases(t, *site).1;
        self.emit_store("i64", jw_lo.as_str(), j_ctr);
        let ghost p10 = store_line("i64"@, tmp_name(t + 26), j_ctr@);
        proof {
            lemma_concat_associative(o, w9, p10);
        }
        self.jump(labels[3].as_str());
        proof {
            lemma_concat_associative(o, w9 + p10, jump_line(label_name(t + 6)));
        }
        (i, row0, jw_hi, a_row, b_row)
    }

    /// The j loop's opening and the seed loop; returns `j0` and the tile's
    /// width.
    #[verifier::spinoff_prover]
    fn emit_plain_j_open(
        &mut self,
        ctx: &TileCtx,
        j_ctr: &str,
        jw_hi: &str,
        labels: &Vec<String>,
        Ghost(t): Ghost<nat>,
    ) -> (r: (String, String))
        requires
            old(self).next + 9 <= u32::MAX,
            plain_labels_ok(labels@, t),
            jw_hi@ == tmp_name(t + 29),
        ensures
            r.0@ == tmp_name(old(self).next as nat),
            r.1@ == tmp_name(old(self).next as nat + 4),
            final(self).body@ == old(self).body@ + plain_j_open_text(t, old(self).next as nat, *ctx, j_ctr@),
            final(self).next == old(self).next + 9,
            final(self).allocas == old(self).allocas,
            final(self).heap_used == old(self).heap_used,
            final(self).same_setup(*old(self)),
    {
        let ghost v = old(self).next as nat;
        let ghost o = old(self).body@;
        let ghost tjs = num::dec_nat(ctx.tile_j as nat);
        assert(labels@[3]@ == label_name(t + 6));
        assert(labels@[4]@ == label_name(t + 7));
        assert(labels@[5]@ == label_name(t + 8));
        assert(labels@[6]@ == label_name(t + 9));
        assert(labels@[7]@ == label_name(t + 10));
        assert(labels@[8]@ == label_name(t + 11));
        assert(labels@[9]@ == label_name(t + 12));
        self.label_line(labels[3].as_str());
        let ghost p1 = label_text(label_name(t + 6));
        let j0 = self.emit_load("i64", j_ctr);
        let ghost p2 = load_line(tmp_name(v), "i64"@, j_ctr@);
        proof {
            lemma_concat_associative(o, p1, p2);
        }
        let done = self.emit_op("icmp uge", j0.as_str(), jw_hi);
        let ghost p3 = op_line(tmp_name(v + 1), "icmp uge"@, tmp_name(v), tmp_name(t + 29));
        proof {
            lemma_concat_associative(o, p1 + p2, p3);
        }
        self.branch(done.as_str(), labels[5].as_str(), labels[4].as_str());
        let ghost p4 = branch_line(tmp_name(v + 1), label_name(t + 8), label_name(t + 7));
        proof {
            lemma_concat_associative(o, p1 + p2 + p3, p4);
        }
        self.label_line(labels[4].as_str());
        let ghost p5 = label_text(label_name(t + 7));
        proof {
            lemma_concat_associative(o, p1 + p2 + p3 + p4, p5);
        }
        let ghost w5 = p1 + p2 + p3 + p4 + p5;
        let remaining = self.emit_op("sub", jw_hi, j0.as_str());
        let ghost p6 = op_line(tmp_name(v + 2), "sub"@, tmp_name(t + 29), tmp_name(v));
        proof {
            lemma_concat_associative(o, w5, p6);
        }
        let tj_text = num::u64_to_string(ctx.tile_j);
        let partial = self.emit_op("icmp ult", remaining.as_str(), tj_text.as_str());
        let ghost p7 = op_line(tmp_name(v + 3), "icmp ult"@, tmp_name(v + 2), tjs);
        proof {
            lemma_concat_associative(o, w5 + p6, p7);
        }
        let tj = self.emit_select(partial.as_str(), remaining.as_str(), tj_text.as_str());
        let ghost p8 = select_line(tmp_name(v + 4), tmp_name(v + 3), tmp_name(v + 2), tjs);
        proof {
            lemma_concat_associative(o, w5 + p6 + p7, p8);
        }
        let ghost w8 = w5 + p6 + p7 + p8;
        self.emit_store("i64", "0", ctx.lane_ctr.as_str());
        let ghost p9 = store_line("i64"@, "0"@, ctx.lane_ctr@);
        proof {
            lemma_concat_associative(o, w8, p9);
        }
        self.jump(labels[6].as_str());
        let ghost p10 = jump_line(label_name(t + 9));
        proof {
            lemma_concat_associative(o, w8 + p9, p10);
        }
        self.label_line(labels[6].as_str());
        let ghost p11 = label_text(label_name(t + 9));
        proof {
            lemma_concat_associative(o, w8 + p9 + p10, p11);
        }
        let ghost w11 = w8 + p9 + p10 + p11;
        let lane = self.emit_load("i64", ctx.lane_ctr.as_str());
        let ghost p12 = load_line(tmp_name(v + 5), "i64"@, ctx.lane_ctr@);
        proof {
            lemma_concat_associative(o, w11, p12);
        }
        let seeded = self.emit_op("icmp uge", lane.as_str(), tj.as_str());
        let ghost p13 = op_line(tmp_name(v + 6), "icmp uge"@, tmp_name(v + 5), tmp_name(v + 4));
        proof {
            lemma_concat_associative(o, w11 + p12, p13);
        }
        self.branch(seeded.as_str(), labels[8].as_str(), labels[7].as_str());
        let ghost p14 = branch_line(tmp_name(v + 6), label_name(t + 11), label_name(t + 10));
        proof {
            lemma_concat_associative(o, w11 + p12 + p13, p14);
        }
        self.label_line(labels[7].as_str());
        let ghost p15 = label_text(label_name(t + 10));
        proof {
            lemma_concat_associative(o, w11 + p12 + p13 + p14, p15);
        }
        let ghost w15 = w11 + p12 + p13 + p14 + p15;
        let seed_ptr = self.emit_gep(ctx.acc_llt.as_str(), ctx.acc.as_str(), lane.as_str());
        let ghost p16 = gep_line(tmp_name(v + 7), ctx.acc_llt@, ctx.acc@, tmp_name(v + 5));
        proof {
            lemma_concat_associative(o, w15, p16);
        }
        self.emit_store(ctx.elem_llt.as_str(), ctx.seed.as_str(), seed_ptr.as_str());
        let ghost p17 = store_line(ctx.elem_llt@, ctx.seed@, tmp_name(v + 7));
        proof {
            lemma_concat_associative(o, w15 + p16, p17);
        }
        self.emit_loop_tail(ctx.lane_ctr.as_str(), lane.as_str(), labels[6].as_str(), labels[8].as_str());
        let ghost p18 = latch_text(tmp_name(v + 8), tmp_name(v + 5), ctx.lane_ctr@, label_name(t + 9), label_name(t + 11));
        proof {
            lemma_concat_associative(o, w15 + p16 + p17, p18);
        }
        let ghost w18 = w15 + p16 + p17 + p18;
        self.emit_store("i64", "0", ctx.k_ctr.as_str());
        let ghost p19 = store_line("i64"@, "0"@, ctx.k_ctr@);
        proof {
            lemma_concat_associative(o, w18, p19);
        }
        self.jump(labels[9].as_str());
        proof {
            lemma_concat_associative(o, w18 + p19, jump_line(label_name(t + 12)));
        }
        (j0, tj)
    }

    /// The k step's `a` read; returns the value.
    fn emit_plain_a_read(&mut self, site: &TileSite, ctx: &TileCtx, a_row: &Option<String>, kk: &str, Ghost(v): Ghost<nat>) -> (r: String)
        requires
            old(self).next == v + 11,
            old(self).next + 4 <= u32::MAX,
            kk@ == tmp_name(v + 9),
        ensures
            ({
                let a = plain_a_read(v, *site, *ctx, opt_text(*a_row));
                &&& final(self).next == a.0
                &&& final(self).body@ == old(self).body@ + a.1
                &&& r@ == tmp_name((a.0 - 1) as nat)
            }),
            final(self).allocas == old(self).allocas,
            final(self).heap_used == old(self).heap_used,
            final(self).same_setup(*old(self)),
    {
        let ghost o = old(self).body@;
        let base = match a_row {
            Some(b) => Some(b.clone()),
            None => None,
        };
        let ta = [(site.a.ck, kk)];
        let ghost tva = seq![(site.a.ck, tmp_name(v + 9))];
        assert(term_views(ta@) =~= tva);
        proof {
            lemma_tile_index_counter(v + 11, opt_text(*a_row), tva, 1);
        }
        let a_index = match self.emit_tile_index(base, &ta) {
            Some(s) => s,
            None => String::from_str("0"),
        };
        let ghost ai = tile_index_upto(v + 11, opt_text(*a_row), tva, 1);
        let ghost ix = match ai.1 {
            Some(s) => s,
            None => "0"@,
        };
        let a_ptr = self.emit_gep(ctx.a_llt.as_str(), ctx.a_ptr.as_str(), a_index.as_str());
        let ghost p2 = gep_line(tmp_name(ai.0), ctx.a_llt@, ctx.a_ptr@, ix);
        proof {
            lemma_concat_associative(o, ai.2, p2);
        }
        let a_value = self.emit_load(ctx.elem_llt.as_str(), a_ptr.as_str());
        proof {
            lemma_concat_associative(o, ai.2 + p2, load_line(tmp_name(ai.0 + 1), ctx.elem_llt@, tmp_name(ai.0)));
        }
        a_value
    }

    /// Without a packed panel, the k step's `b` start.
    fn emit_plain_b_start(
        &mut self,
        site: &TileSite,
        ctx: &TileCtx,
        b_row: &Option<String>,
        kk: &str,
        j0: &str,
        Ghost(v): Ghost<nat>,
    ) -> (r: Option<String>)
        requires
            old(self).next + 4 <= u32::MAX,
            kk@ == tmp_name(v + 9),
            j0@ == tmp_name(v),
        ensures
            ({
                let b = plain_b_start(old(self).next as nat, v, *site, *ctx, opt_text(*b_row));
                &&& final(self).next == b.0
                &&& final(self).body@ == old(self).body@ + b.1
                &&& opt_text(r) == b.2
            }),
            final(self).allocas == old(self).allocas,
            final(self).heap_used == old(self).heap_used,
            final(self).same_setup(*old(self)),
    {
        match &ctx.packed {
            Some(_) => {
                assert(old(self).body@ + Seq::<char>::empty() =~= old(self).body@);
                None
            },
            None => {
                let bbase = match b_row {
                    Some(x) => Some(x.clone()),
                    None => None,
                };
                let tb = [(site.b.ck, kk), (1u64, j0)];
                let ghost tvb = seq![(site.b.ck, tmp_name(v + 9)), (1u64, tmp_name(v))];
                assert(term_views(tb@) =~= tvb);
                proof {
                    lemma_tile_index_counter(old(self).next as nat, opt_text(*b_row), tvb, 2);
                }
                self.emit_tile_index(bbase, &tb)
            },
        }
    }

    /// The k loop's opening: the `a` read and, without a packed panel, the
    /// `b` start; returns `k`, the `a` value and the `b` start.
    #[verifier::spinoff_prover]
    fn emit_plain_k_open(
        &mut self,
        site: &TileSite,
        ctx: &TileCtx,
        a_row: &Option<String>,
        b_row: &Option<String>,
        j0: &str,
        labels: &Vec<String>,
        Ghost(t): Ghost<nat>,
        Ghost(v): Ghost<nat>,
    ) -> (r: (String, String, Option<String>))
        requires
            old(self).next == v + 9,
            old(self).next + 14 <= u32::MAX,
            plain_labels_ok(labels@, t),
            j0@ == tmp_name(v),
        ensures
            ({
                let res = plain_k_open_text(t, v, *site, *ctx, opt_text(*a_row), opt_text(*b_row));
                let a = plain_a_read(v, *site, *ctx, opt_text(*a_row));
                &&& final(self).next == res.0
                &&& final(self).body@ == old(self).body@ + res.1
                &&& r.0@ == tmp_name(v + 9)
                &&& r.1@ == tmp_name((a.0 - 1) as nat)
                &&& opt_text(r.2) == plain_b_start(a.0, v, *site, *ctx, opt_text(*b_row)).2
            }),
            final(self).allocas == old(self).allocas,
            final(self).heap_used == old(self).heap_used,
            final(self).same_setup(*old(self)),
    {
        let ghost o = old(self).body@;
        assert(labels@[9]@ == label_name(t + 12));
        assert(labels@[10]@ == label_name(t + 13));
        assert(labels@[11]@ == label_name(t + 14));
        assert(labels@[12]@ == label_name(t + 15));
        self.label_line(labels[9].as_str());
        let ghost p1 = label_text(label_name(t + 12));
        let kk = self.emit_load("i64", ctx.k_ctr.as_str());
        let ghost p2 = load_line(tmp_name(v + 9), "i64"@, ctx.k_ctr@);
        proof {
            lemma_concat_associative(o, p1, p2);
        }
        let k = num::u64_to_string(site.k);
        let done = self.emit_op("icmp uge", kk.as_str(), k.as_str());
        let ghost p3 = op_line(tmp_name(v + 10), "icmp uge"@, tmp_name(v + 9), num::dec_nat(site.k as nat));
        proof {
            lemma_concat_associative(o, p1 + p2, p3);
        }
        self.branch(done.as_str(), labels[11].as_str(), labels[10].as_str());
        let ghost p4 = branch_line(tmp_name(v + 10), label_name(t + 14), label_name(t + 13));
        proof {
            lemma_concat_associative(o, p1 + p2 + p3, p4);
        }
        self.label_line(labels[10].as_str());
        let ghost p5 = label_text(label_name(t + 13));
        proof {
            lemma_concat_associative(o, p1 + p2 + p3 + p4, p5);
        }
        let ghost w5 = p1 + p2 + p3 + p4 + p5;
        let a_value = self.emit_plain_a_read(site, ctx, a_row, kk.as_str(), Ghost(v));
        let ghost a = plain_a_read(v, *site, *ctx, opt_text(*a_row));
        proof {
            lemma_concat_associative(o, w5, a.1);
            lemma_tile_index_counter(v + 11, opt_text(*a_row), seq![(site.a.ck, tmp_name(v + 9))], 1);
        }
        let b_start = self.emit_plain_b_start(site, ctx, b_row, kk.as_str(), j0, Ghost(v));
        let ghost b = plain_b_start(a.0, v, *site, *ctx, opt_text(*b_row));
        proof {
            lemma_concat_associative(o, w5 + a.1, b.1);
        }
        let ghost w7 = w5 + a.1 + b.1;
        self.emit_store("i64", "0", ctx.lane_ctr.as_str());
        let ghost p8 = store_line("i64"@, "0"@, ctx.lane_ctr@);
        proof {
            lemma_concat_associative(o, w7, p8);
        }
        self.jump(labels[12].as_str());
        proof {
            lemma_concat_associative(o, w7 + p8, jump_line(label_name(t + 15)));
        }
        (kk, a_value, b_start)
    }

    /// The lane's `b` address parts; returns the array type, base and
    /// index.
    #[verifier::spinoff_prover]
    fn emit_plain_b_index(
        &mut self,
        site: &TileSite,
        ctx: &TileCtx,
        lane: &str,
        j0: &str,
        kk: &str,
        b_start: &Option<String>,
        Ghost(y): Ghost<nat>,
        Ghost(v): Ghost<nat>,
    ) -> (r: (String, String, String))
        requires
            old(self).next == y + 2,
            old(self).next + 7 <= u32::MAX,
            lane@ == tmp_name(y),
            j0@ == tmp_name(v),
            kk@ == tmp_name(v + 9),
            ctx.packed is None ==> b_start is Some,
            ctx.packed is Some ==> site.k * ctx.tile_j <= u64::MAX,
        ensures
            ({
                let b = plain_b_index(y, v, *site, *ctx, opt_text(*b_start));
                &&& final(self).next == b.0
                &&& final(self).body@ == old(self).body@ + b.1
                &&& r.0@ == b.2
                &&& r.1@ == b.3
                &&& r.2@ == b.4
            }),
            final(self).allocas == old(self).allocas,
            final(self).heap_used == old(self).heap_used,
            final(self).same_setup(*old(self)),
    {
        let ghost o = old(self).body@;
        let tj = num::u64_to_string(ctx.tile_j);
        let ghost tjs = num::dec_nat(ctx.tile_j as nat);
        match &ctx.packed {
            Some(p) => {
                let j = self.emit_op("add", j0, lane);
                let ghost p1 = op_line(tmp_name(y + 2), "add"@, tmp_name(v), tmp_name(y));
                let jt = self.emit_op("udiv", j.as_str(), tj.as_str());
                let ghost p2 = op_line(tmp_name(y + 3), "udiv"@, tmp_name(y + 2), tjs);
                proof {
                    lemma_concat_associative(o, p1, p2);
                }
                let panel_lane = self.emit_op("urem", j.as_str(), tj.as_str());
                let ghost p3 = op_line(tmp_name(y + 4), "urem"@, tmp_name(y + 2), tjs);
                proof {
                    lemma_concat_associative(o, p1 + p2, p3);
                }
                let panel = num::u64_to_string(site.k * ctx.tile_j);
                let panel_base = self.emit_op("mul", jt.as_str(), panel.as_str());
                let ghost p4 = op_line(tmp_name(y + 5), "mul"@, tmp_name(y + 3), num::dec_nat((site.k * ctx.tile_j) as nat));
                proof {
                    lemma_concat_associative(o, p1 + p2 + p3, p4);
                }
                let ghost w4 = p1 + p2 + p3 + p4;
                let k_base = self.emit_op("mul", kk, tj.as_str());
                let ghost p5 = op_line(tmp_name(y + 6), "mul"@, tmp_name(v + 9), tjs);
                proof {
                    lemma_concat_associative(o, w4, p5);
                }
                let row = self.emit_op("add", panel_base.as_str(), k_base.as_str());
                let ghost p6 = op_line(tmp_name(y + 7), "add"@, tmp_name(y + 5), tmp_name(y + 6));
                proof {
                    lemma_concat_associative(o, w4 + p5, p6);
                }
                let index = self.emit_op("add", row.as_str(), panel_lane.as_str());
                proof {
                    lemma_concat_associative(o, w4 + p5 + p6, op_line(tmp_name(y + 8), "add"@, tmp_name(y + 7), tmp_name(y + 4)));
                }
                (p.llt.clone(), p.ptr.clone(), index)
            },
            None => {
                let start = match b_start {
                    Some(x) => x.clone(),
                    None => String::from_str("0"),
                };
                let index = self.emit_op("add", start.as_str(), lane);
                (ctx.b_llt.clone(), ctx.b_ptr.clone(), index)
            },
        }
    }

    /// One lane's multiply-add into `acc[lane]`.
    #[verifier::spinoff_prover]
    fn emit_plain_fma(
        &mut self,
        site: &TileSite,
        ctx: &TileCtx,
        lane: &str,
        a_value: &str,
        b_arr: &str,
        b_base: &str,
        b_index: &str,
        Ghost(y): Ghost<nat>,
    )
        requires
            old(self).next + 6 <= u32::MAX,
            lane@ == tmp_name(y),
        ensures
            final(self).body@ == old(self).body@ + plain_fma_text(
                old(self).next as nat,
                y,
                *site,
                *ctx,
                a_value@,
                b_arr@,
                b_base@,
                b_index@,
            ),
            final(self).next == old(self).next + 6,
            final(self).allocas == old(self).allocas,
            final(self).heap_used == old(self).heap_used,
            final(self).same_setup(*old(self)),
    {
        let ghost z = old(self).next as nat;
        let ghost o = old(self).body@;
        let b_ptr = self.emit_gep(b_arr, b_base, b_index);
        let ghost p7 = gep_line(tmp_name(z), b_arr@, b_base@, b_index@);
        let b_value = self.emit_load(ctx.elem_llt.as_str(), b_ptr.as_str());
        let ghost p8 = load_line(tmp_name(z + 1), ctx.elem_llt@, tmp_name(z));
        proof {
            lemma_concat_associative(o, p7, p8);
        }
        let ghost w8 = p7 + p8;
        let product = if site.mul_a_first {
            self.emit_flagged(ctx.mul_op, ctx.contract_flag, ctx.elem_llt.as_str(), a_value, b_value.as_str())
        } else {
            self.emit_flagged(ctx.mul_op, ctx.contract_flag, ctx.elem_llt.as_str(), b_value.as_str(), a_value)
        };
        let ghost p9 = product_line(tmp_name(z + 2), *site, *ctx, a_value@, tmp_name(z + 1));
        proof {
            lemma_concat_associative(o, w8, p9);
        }
        let acc_ptr = self.emit_gep(ctx.acc_llt.as_str(), ctx.acc.as_str(), lane);
        let ghost p10 = gep_line(tmp_name(z + 3), ctx.acc_llt@, ctx.acc@, tmp_name(y));
        proof {
            lemma_concat_associative(o, w8 + p9, p10);
        }
        let acc_value = self.emit_load(ctx.elem_llt.as_str(), acc_ptr.as_str());
        let ghost p11 = load_line(tmp_name(z + 4), ctx.elem_llt@, tmp_name(z + 3));
        proof {
            lemma_concat_associative(o, w8 + p9 + p10, p11);
        }
        let ghost w11 = w8 + p9 + p10 + p11;
        let sum = if site.add_acc_first {
            self.emit_flagged(ctx.add_op, ctx.contract_flag, ctx.elem_llt.as_str(), acc_value.as_str(), product.as_str())
        } else {
            self.emit_flagged(ctx.add_op, ctx.contract_flag, ctx.elem_llt.as_str(), product.as_str(), acc_value.as_str())
        };
        let ghost p12 = sum_line(tmp_name(z + 5), *site, *ctx, tmp_name(z + 4), tmp_name(z + 2));
        proof {
            lemma_concat_associative(o, w11, p12);
        }
        self.emit_store(ctx.elem_llt.as_str(), sum.as_str(), acc_ptr.as_str());
        proof {
            lemma_concat_associative(o, w11 + p12, store_line(ctx.elem_llt@, tmp_name(z + 5), tmp_name(z + 3)));
        }
    }

    /// The inner lane loop (`acc[lane] += a * b[..]`) and the k latch.
    #[verifier::spinoff_prover]
    fn emit_plain_inner(
        &mut self,
        site: &TileSite,
        ctx: &TileCtx,
        kk: &str,
        a_value: &str,
        b_start: &Option<String>,
        j0: &str,
        tj: &str,
        labels: &Vec<String>,
        Ghost(t): Ghost<nat>,
        Ghost(v): Ghost<nat>,
    )
        requires
            old(self).next + 17 <= u32::MAX,
            plain_labels_ok(labels@, t),
            kk@ == tmp_name(v + 9),
            j0@ == tmp_name(v),
            tj@ == tmp_name(v + 4),
            ctx.packed is None ==> b_start is Some,
            ctx.packed is Some ==> site.k * ctx.tile_j <= u64::MAX,
        ensures
            ({
                let res = plain_inner_text(t, v, old(self).next as nat, *site, *ctx, a_value@, opt_text(*b_start));
                &&& final(self).next == res.0
                &&& final(self).body@ == old(self).body@ + res.1
            }),
            final(self).allocas == old(self).allocas,
            final(self).heap_used == old(self).heap_used,
            final(self).same_setup(*old(self)),
    {
        let ghost y = old(self).next as nat;
        let ghost o = old(self).body@;
        assert(labels@[9]@ == label_name(t + 12));
        assert(labels@[11]@ == label_name(t + 14));
        assert(labels@[12]@ == label_name(t + 15));
        assert(labels@[13]@ == label_name(t + 16));
        assert(labels@[14]@ == label_name(t + 17));
        self.label_line(labels[12].as_str());
        let ghost p1 = label_text(label_name(t + 15));
        let lane = self.emit_load("i64", ctx.lane_ctr.as_str());
        let ghost p2 = load_line(tmp_name(y), "i64"@, ctx.lane_ctr@);
        proof {
            lemma_concat_associative(o, p1, p2);
        }
        let done = self.emit_op("icmp uge", lane.as_str(), tj);
        let ghost p3 = op_line(tmp_name(y + 1), "icmp uge"@, tmp_name(y), tmp_name(v + 4));
        proof {
            lemma_concat_associative(o, p1 + p2, p3);
        }
        self.branch(done.as_str(), labels[14].as_str(), labels[13].as_str());
        let ghost p4 = branch_line(tmp_name(y + 1), label_name(t + 17), label_name(t + 16));
        proof {
            lemma_concat_associative(o, p1 + p2 + p3, p4);
        }
        self.label_line(labels[13].as_str());
        let ghost p5 = label_text(label_name(t + 16));
        proof {
            lemma_concat_associative(o, p1 + p2 + p3 + p4, p5);
        }
        let ghost w5 = p1 + p2 + p3 + p4 + p5;
        let (b_arr, b_base, b_index) = self.emit_plain_b_index(site, ctx, lane.as_str(), j0, kk, b_start, Ghost(y), Ghost(v));
        let ghost b = plain_b_index(y, v, *site, *ctx, opt_text(*b_start));
        let ghost z = b.0;
        proof {
            lemma_concat_associative(o, w5, b.1);
        }
        self.emit_plain_fma(site, ctx, lane.as_str(), a_value, b_arr.as_str(), b_base.as_str(), b_index.as_str(), Ghost(y));
        let ghost f = plain_fma_text(z, y, *site, *ctx, a_value@, b.2, b.3, b.4);
        proof {
            lemma_concat_associative(o, w5 + b.1, f);
        }
        let ghost w11 = w5 + b.1;
        let ghost p13 = f;
        self.emit_loop_tail(ctx.lane_ctr.as_str(), lane.as_str(), labels[12].as_str(), labels[14].as_str());
        let ghost p14 = latch_text(tmp_name(z + 6), tmp_name(y), ctx.lane_ctr@, label_name(t + 15), label_name(t + 17));
        proof {
            lemma_concat_associative(o, w11 + p13, p14);
        }
        self.emit_loop_tail(ctx.k_ctr.as_str(), kk, labels[9].as_str(), labels[11].as_str());
        proof {
            lemma_concat_associative(
                o,
                w11 + p13 + p14,
                latch_text(tmp_name(z + 7), tmp_name(v + 9), ctx.k_ctr@, label_name(t + 12), label_name(t + 14)),
            );
        }
    }

    /// The store loop, then the j and i latches.
    #[verifier::spinoff_prover]
    fn emit_plain_store(
        &mut self,
        ctx: &TileCtx,
        i_ctr: &str,
        j_ctr: &str,
        i: &str,
        row0: &str,
        j0: &str,
        tj: &str,
        labels: &Vec<String>,
        Ghost(t): Ghost<nat>,
        Ghost(v): Ghost<nat>,
    )
        requires
            old(self).next + 10 <= u32::MAX,
            plain_labels_ok(labels@, t),
            i@ == tmp_name(t + 21),
            row0@ == tmp_name(t + 23),
            j0@ == tmp_name(v),
            tj@ == tmp_name(v + 4),
        ensures
            final(self).body@ == old(self).body@ + plain_store_text(t, v, old(self).next as nat, *ctx, i_ctr@, j_ctr@),
            final(self).next == old(self).next + 10,
            final(self).allocas == old(self).allocas,
            final(self).heap_used == old(self).heap_used,
            final(self).same_setup(*old(self)),
    {
        let ghost s = old(self).next as nat;
        let ghost o = old(self).body@;
        assert(labels@[0]@ == label_name(t + 3));
        assert(labels@[2]@ == label_name(t + 5));
        assert(labels@[3]@ == label_name(t + 6));
        assert(labels@[5]@ == label_name(t + 8));
        assert(labels@[15]@ == label_name(t + 18));
        assert(labels@[16]@ == label_name(t + 19));
        assert(labels@[17]@ == label_name(t + 20));
        let out_start = self.emit_op("add", row0, j0);
        let ghost p1 = op_line(tmp_name(s), "add"@, tmp_name(t + 23), tmp_name(v));
        self.emit_store("i64", "0", ctx.lane_ctr.as_str());
        let ghost p2 = store_line("i64"@, "0"@, ctx.lane_ctr@);
        proof {
            lemma_concat_associative(o, p1, p2);
        }
        self.jump(labels[15].as_str());
        let ghost p3 = jump_line(label_name(t + 18));
        proof {
            lemma_concat_associative(o, p1 + p2, p3);
        }
        self.label_line(labels[15].as_str());
        let ghost p4 = label_text(label_name(t + 18));
        proof {
            lemma_concat_associative(o, p1 + p2 + p3, p4);
        }
        let ghost w4 = p1 + p2 + p3 + p4;
        let lane = self.emit_load("i64", ctx.lane_ctr.as_str());
        let ghost p5 = load_line(tmp_name(s + 1), "i64"@, ctx.lane_ctr@);
        proof {
            lemma_concat_associative(o, w4, p5);
        }
        let done = self.emit_op("icmp uge", lane.as_str(), tj);
        let ghost p6 = op_line(tmp_name(s + 2), "icmp uge"@, tmp_name(s + 1), tmp_name(v + 4));
        proof {
            lemma_concat_associative(o, w4 + p5, p6);
        }
        self.branch(done.as_str(), labels[17].as_str(), labels[16].as_str());
        let ghost p7 = branch_line(tmp_name(s + 2), label_name(t + 20), label_name(t + 19));
        proof {
            lemma_concat_associative(o, w4 + p5 + p6, p7);
        }
        self.label_line(labels[16].as_str());
        let ghost p8 = label_text(label_name(t + 19));
        proof {
            lemma_concat_associative(o, w4 + p5 + p6 + p7, p8);
        }
        let ghost w8 = w4 + p5 + p6 + p7 + p8;
        let acc_ptr = self.emit_gep(ctx.acc_llt.as_str(), ctx.acc.as_str(), lane.as_str());
        let ghost p9 = gep_line(tmp_name(s + 3), ctx.acc_llt@, ctx.acc@, tmp_name(s + 1));
        proof {
            lemma_concat_associative(o, w8, p9);
        }
        let value = self.emit_load(ctx.elem_llt.as_str(), acc_ptr.as_str());
        let ghost p10 = load_line(tmp_name(s + 4), ctx.elem_llt@, tmp_name(s + 3));
        proof {
            lemma_concat_associative(o, w8 + p9, p10);
        }
        let out_index = self.emit_op("add", out_start.as_str(), lane.as_str());
        let ghost p11 = op_line(tmp_name(s + 5), "add"@, tmp_name(s), tmp_name(s + 1));
        proof {
            lemma_concat_associative(o, w8 + p9 + p10, p11);
        }
        let ghost w11 = w8 + p9 + p10 + p11;
        let out_ptr = self.emit_gep(ctx.out_llt.as_str(), ctx.out_ptr.as_str(), out_index.as_str());
        let ghost p12 = gep_line(tmp_name(s + 6), ctx.out_llt@, ctx.out_ptr@, tmp_name(s + 5));
        proof {
            lemma_concat_associative(o, w11, p12);
        }
        self.emit_store(ctx.elem_llt.as_str(), value.as_str(), out_ptr.as_str());
        let ghost p13 = store_line(ctx.elem_llt@, tmp_name(s + 4), tmp_name(s + 6));
        proof {
            lemma_concat_associative(o, w11 + p12, p13);
        }
        self.emit_loop_tail(ctx.lane_ctr.as_str(), lane.as_str(), labels[15].as_str(), labels[17].as_str());
        let ghost p14 = latch_text(tmp_name(s + 7), tmp_name(s + 1), ctx.lane_ctr@, label_name(t + 18), label_name(t + 20));
        proof {
            lemma_concat_associative(o, w11 + p12 + p13, p14);
        }
        let ghost w14 = w11 + p12 + p13 + p14;
        let tj_text = num::u64_to_string(ctx.tile_j);
        let j0_next = self.emit_op("add", j0, tj_text.as_str());
        let ghost p15 = op_line(tmp_name(s + 8), "add"@, tmp_name(v), num::dec_nat(ctx.tile_j as nat));
        proof {
            lemma_concat_associative(o, w14, p15);
        }
        self.emit_store("i64", j0_next.as_str(), j_ctr);
        let ghost p16 = store_line("i64"@, tmp_name(s + 8), j_ctr@);
        proof {
            lemma_concat_associative(o, w14 + p15, p16);
        }
        self.jump(labels[3].as_str());
        let ghost p17 = jump_line(label_name(t + 6));
        proof {
            lemma_concat_associative(o, w14 + p15 + p16, p17);
        }
        self.label_line(labels[5].as_str());
        let ghost p18 = label_text(label_name(t + 8));
        proof {
            lemma_concat_associative(o, w14 + p15 + p16 + p17, p18);
        }
        self.emit_loop_tail(i_ctr, i, labels[0].as_str(), labels[2].as_str());
        proof {
            lemma_concat_associative(
                o,
                w14 + p15 + p16 + p17 + p18,
                latch_text(tmp_name(s + 9), tmp_name(t + 21), i_ctr@, label_name(t + 3), label_name(t + 5)),
            );
        }
    }

    /// The nest's eighteen labels.
    fn emit_plain_labels(&mut self, Ghost(t): Ghost<nat>) -> (labels: Vec<String>)
        requires
            old(self).next == t + 3,
            old(self).next + 18 <= u32::MAX,
        ensures
            plain_labels_ok(labels@, t),
            final(self).next == old(self).next + 18,
            final(self).body == old(self).body,
            final(self).allocas == old(self).allocas,
            final(self).heap_used == old(self).heap_used,
            final(self).same_setup(*old(self)),
    {
        let ghost t0 = old(self).next as nat;
        let mut labels: Vec<String> = Vec::new();
        let mut n: u32 = 0;
        while n < 18
            invariant
                n <= 18,
                self.next == t0 + n,
                t0 + 18 <= u32::MAX,
                labels@.len() == n,
                t0 == t + 3,
                forall|k: int| 0 <= k < n ==> #[trigger] labels@[k]@ == label_name((t + 3 + k) as nat),
                self.body == old(self).body,
                self.allocas == old(self).allocas,
                self.heap_used == old(self).heap_used,
                self.same_setup(*old(self)),
            decreases 18 - n,
        {
            let l = self.label();
            labels.push(l);
            n += 1;
        }
        labels
    }

    /// The row loop of the plain nest.
    #[verifier::spinoff_prover]
    #[verifier::rlimit(100)]
    fn emit_plain_rows(
        &mut self,
        site: &TileSite,
        ctx: &TileCtx,
        i_ctr: &str,
        j_ctr: &str,
        lo: &str,
        hi: &str,
        i_hi: &str,
        labels: &Vec<String>,
        Ghost(t): Ghost<nat>,
    )
        requires
            old(self).next == t + 21,
            t + 100 <= u32::MAX,
            plain_labels_ok(labels@, t),
            i_hi@ == tmp_name(t + 2),
            ctx.packed is Some ==> site.k * ctx.tile_j <= u64::MAX,
        ensures
            ({
                let res = plain_rows_text(t, *site, *ctx, i_ctr@, j_ctr@, lo@, hi@);
                &&& final(self).next == res.0
                &&& final(self).body@ == old(self).body@ + res.1
            }),
            final(self).allocas == old(self).allocas,
            final(self).heap_used == old(self).heap_used,
            final(self).same_setup(*old(self)),
    {
        let ghost o = old(self).body@;
        let ghost rb = plain_row_bases(t, *site);
        proof {
            lemma_tile_index_counter(t + 30, base_text(site.a.base), seq![(site.a.ci, tmp_name(t + 21))], 1);
            let a = tile_index_upto(t + 30, base_text(site.a.base), seq![(site.a.ci, tmp_name(t + 21))], 1);
            lemma_tile_index_counter(a.0, base_text(site.b.base), seq![(site.b.ci, tmp_name(t + 21))], 1);
        }
        let (i, row0, jw_hi, a_row, b_row) = self.emit_plain_i_open(site, lo, hi, i_ctr, j_ctr, i_hi, labels, Ghost(t));
        let ghost w2 = plain_i_open_text(t, *site, lo@, hi@, i_ctr@, j_ctr@);
        let ghost v = rb.0;
        let (j0, tj) = self.emit_plain_j_open(ctx, j_ctr, jw_hi.as_str(), labels, Ghost(t));
        let ghost w3 = plain_j_open_text(t, v, *ctx, j_ctr@);
        proof {
            lemma_concat_associative(o, w2, w3);
        }
        let (kk, a_value, b_start) = self.emit_plain_k_open(site, ctx, &a_row, &b_row, j0.as_str(), labels, Ghost(t), Ghost(v));
        let ghost k = plain_k_open_text(t, v, *site, *ctx, rb.2, rb.3);
        let ghost a = plain_a_read(v, *site, *ctx, rb.2);
        let ghost b = plain_b_start(a.0, v, *site, *ctx, rb.3);
        proof {
            lemma_concat_associative(o, w2 + w3, k.1);
            lemma_tile_index_counter(v + 11, rb.2, seq![(site.a.ck, tmp_name(v + 9))], 1);
            lemma_tile_index_counter(a.0, rb.3, seq![(site.b.ck, tmp_name(v + 9)), (1u64, tmp_name(v))], 2);
            lemma_tile_index_counter(a.0, rb.3, seq![(site.b.ck, tmp_name(v + 9)), (1u64, tmp_name(v))], 1);
        }
        self.emit_plain_inner(site, ctx, kk.as_str(), a_value.as_str(), &b_start, j0.as_str(), tj.as_str(), labels, Ghost(t), Ghost(v));
        let ghost inner = plain_inner_text(t, v, k.0, *site, *ctx, tmp_name((a.0 - 1) as nat), b.2);
        proof {
            lemma_concat_associative(o, w2 + w3 + k.1, inner.1);
        }
        self.emit_plain_store(ctx, i_ctr, j_ctr, i.as_str(), row0.as_str(), j0.as_str(), tj.as_str(), labels, Ghost(t), Ghost(v));
        proof {
            lemma_concat_associative(o, w2 + w3 + k.1 + inner.1, plain_store_text(t, v, inner.0, *ctx, i_ctr@, j_ctr@));
        }
    }

    /// The plain tiled nest over the task slice `[lo, hi)`: rows
    /// `lo / C ..< ceil(hi / C)`, each clipped to its window; per j-tile of
    /// width `min(jw_hi - j0, TJ)` the accumulator seeded, `acc[lane] +=
    /// a[a_row + a.ck*k] * b[..]` for `k` ascending (from the packed panel
    /// when there is one, else from `b_row + b.ck*k + j0 + lane`), then the
    /// tile stored to `out[row0 + j0 + lane]`.
    #[verifier::spinoff_prover]
    pub fn emit_tiled_plain_nest(
        &mut self,
        site: &TileSite,
        ctx: &TileCtx,
        i_ctr: &str,
        j_ctr: &str,
        lo: &str,
        hi: &str,
    )
        requires
            old(self).next + 100 <= u32::MAX,
            site.c > 0,
            ctx.packed is Some ==> site.k * ctx.tile_j <= u64::MAX,
        ensures
            ({
                let res = plain_nest_text(old(self).next as nat, *site, *ctx, i_ctr@, j_ctr@, lo@, hi@);
                &&& final(self).next == res.0
                &&& final(self).body@ == old(self).body@ + res.1
            }),
            final(self).allocas == old(self).allocas,
            final(self).heap_used == old(self).heap_used,
            final(self).same_setup(*old(self)),
    {
        reveal(plain_nest_text);
        let ghost t = old(self).next as nat;
        let ghost o = old(self).body@;
        let i_hi = self.emit_plain_prologue(site, lo, hi, i_ctr);
        let labels = self.emit_plain_labels(Ghost(t));
        self.emit_plain_rows(site, ctx, i_ctr, j_ctr, lo, hi, i_hi.as_str(), &labels, Ghost(t));
        proof {
            lemma_concat_associative(
                o,
                plain_prologue_text(t, *site, lo@, hi@, i_ctr@),
                plain_rows_text(t, *site, *ctx, i_ctr@, j_ctr@, lo@, hi@).1,
            );
        }
    }
}

} // verus!
