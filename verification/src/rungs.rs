//! The tiled rungs' drivers once a site's operands are lowered: the row
//! range of the task slice, then the nest the route picks (the conv rows
//! with their sliding interior, the 1-D window blocks, or the register
//! blocked nests: KC, packed j-outer, or i regions).
use vstd::prelude::*;
use vstd::seq_lib::lemma_concat_associative;
use crate::access::{load_line, store_line};
use crate::arith::{branch_line, jump_line};
use crate::conv::{ConvTileCtx, conv_window_ok};
use crate::conv_range::{
    blocked_budget, conv_block_fits, conv_blocked_range_text, conv_row_range_text, lemma_conv_blocked_range_width,
    lemma_conv_row_range_width,
};
use crate::emit::{FnEmit, PackedBuffer, TileCtx, label_name, label_text, op_line, select_line, tmp_name};
use crate::kc::{kc_fits, packed_kc_text, scratch_alloca};
use crate::llt::align_ok;
use crate::nest::{base_text, i_regions_text, j_split_text, lemma_j_split_width, packed_j_outer_text, regions_fit, trio_fits};
use crate::num;
use crate::site::TileSite;
use crate::tile::{lemma_window_block_width, tile_fits, window_block_text};

verus! {

/// The row range of the task slice `[lo, hi)`, ordinals `t..t+3`:
/// `i_lo = lo / C` in `t`, `i_hi = (hi + C - 1) / C` in `t+2`.
pub open spec fn row_range_text(t: nat, site: TileSite, lo: Seq<char>, hi: Seq<char>) -> Seq<char> {
    let cs = num::dec_nat(site.c as nat);
    op_line(tmp_name(t), "udiv"@, lo, cs) + op_line(tmp_name(t + 1), "add"@, hi, num::dec_nat((site.c - 1) as nat)) + op_line(
        tmp_name(t + 2),
        "udiv"@,
        tmp_name(t + 1),
        cs,
    )
}

/// The full-window rows `[ceil(lo / C), floor(hi / C))`, ordinals
/// `u..u+3`: their first row in `u+1`, their end in `u+2`.
pub open spec fn full_rows_text(u: nat, site: TileSite, lo: Seq<char>, hi: Seq<char>) -> Seq<char> {
    let cs = num::dec_nat(site.c as nat);
    op_line(tmp_name(u), "add"@, lo, num::dec_nat((site.c - 1) as nat)) + op_line(tmp_name(u + 1), "udiv"@, tmp_name(u), cs)
        + op_line(tmp_name(u + 2), "udiv"@, hi, cs)
}

/// The register-blocked nests, ordinals from `t`: the row range and the
/// full-window rows, then with a packed `b` the KC nest (when an `a`
/// panel is given) or the packed j-outer nest, and without one the i
/// regions over `[0, C)`.
#[verifier::opaque]
pub open spec fn blocked_nest_text(
    t: nat,
    site: TileSite,
    ctx: TileCtx,
    i_ctr: Seq<char>,
    j_ctr: Seq<char>,
    lo: Seq<char>,
    hi: Seq<char>,
    apack: Option<PackedBuffer>,
    nc: u64,
) -> (nat, Seq<char>) {
    let (i_lo, i_hi, fw_lo, fw_hi) = (tmp_name(t), tmp_name(t + 2), tmp_name(t + 4), tmp_name(t + 5));
    let nest = match ctx.packed {
        Some(_) => match apack {
            Some(ap) => packed_kc_text(t + 6, site, ctx, i_ctr, j_ctr, lo, hi, i_lo, i_hi, fw_lo, fw_hi, ap, nc),
            None => packed_j_outer_text(t + 6, site, ctx, i_ctr, j_ctr, lo, hi, i_lo, i_hi, fw_lo, fw_hi),
        },
        None => i_regions_text(t + 6, site, ctx, i_ctr, j_ctr, lo, hi, i_lo, i_hi, fw_lo, fw_hi, None),
    };
    (nest.0, row_range_text(t, site, lo, hi) + full_rows_text(t + 3, site, lo, hi) + nest.1)
}

/// The scratch the blocked nests allocate: the KC nest's two counters.
pub open spec fn blocked_nest_allocas(t: nat, ctx: TileCtx, apack: Option<PackedBuffer>) -> Seq<char> {
    if ctx.packed is Some && apack is Some {
        scratch_alloca(t + 6) + scratch_alloca(t + 7)
    } else {
        Seq::empty()
    }
}

/// The 1-D window nest over `[lo, hi)`, ordinals from `t` (block head
/// `t`, body `t+1`, done `t+2`): full `TI*TJ`-lane blocks from `lo` while
/// they fit below `hi`, then the remaining lanes as a fixed-width j split
/// from where the blocks stopped.
#[verifier::opaque]
pub open spec fn window_nest_text(t: nat, site: TileSite, ctx: TileCtx, j_ctr: Seq<char>, lo: Seq<char>, hi: Seq<char>) -> (
    nat,
    Seq<char>,
) {
    let jb = tmp_name(t + 3);
    let a_base = base_text(site.a.base);
    let blk = window_block_text(t + 6, site, ctx, jb, a_base);
    let x = blk.0;
    let js = j_split_text(x + 1, site, ctx, j_ctr, tmp_name(x), hi, "0"@, seq![a_base], base_text(site.b.base));
    (
        js.0,
        store_line("i64"@, lo, j_ctr) + jump_line(label_name(t)) + label_text(label_name(t)) + load_line(jb, "i64"@, j_ctr)
            + op_line(tmp_name(t + 4), "add"@, jb, num::dec_nat((ctx.tile_i * ctx.tile_j) as nat)) + op_line(
            tmp_name(t + 5),
            "icmp ule"@,
            tmp_name(t + 4),
            hi,
        ) + branch_line(tmp_name(t + 5), label_name(t + 1), label_name(t + 2)) + label_text(label_name(t + 1)) + blk.1
            + store_line("i64"@, tmp_name(t + 4), j_ctr) + jump_line(label_name(t)) + label_text(label_name(t + 2))
            + load_line(tmp_name(x), "i64"@, j_ctr) + js.1,
    )
}

/// The conv nest over the task slice, ordinals from `t`: the row range
/// with the counter at `i_lo`; without a sliding interior, one row range
/// to `i_hi`; with one (`ti` rows, tap-row stride `q`), the head rows up to
/// `min(i_fw_lo, i_hi)`, the blocked interior up to `i_fw_hi`, then the
/// rest up to `i_hi`, all on one counter.
#[verifier::opaque]
pub open spec fn conv_nest_text(
    t: nat,
    site: TileSite,
    ctx: ConvTileCtx,
    i_ctr: Seq<char>,
    j_ctr: Seq<char>,
    lo: Seq<char>,
    hi: Seq<char>,
    sliding: Option<(u64, u64)>,
) -> (nat, Seq<char>) {
    let open = row_range_text(t, site, lo, hi) + store_line("i64"@, tmp_name(t), i_ctr);
    let i_hi = tmp_name(t + 2);
    match sliding {
        None => {
            let r = conv_row_range_text(t + 3, site, ctx, i_ctr, j_ctr, i_hi, lo, hi);
            (r.0, open + r.1)
        },
        Some((ti, q)) => {
            let head = full_rows_text(t + 3, site, lo, hi) + op_line(tmp_name(t + 6), "icmp ugt"@, tmp_name(t + 4), i_hi)
                + select_line(tmp_name(t + 7), tmp_name(t + 6), i_hi, tmp_name(t + 4));
            let r1 = conv_row_range_text(t + 8, site, ctx, i_ctr, j_ctr, tmp_name(t + 7), lo, hi);
            let r2 = conv_blocked_range_text(r1.0, site, ctx, i_ctr, j_ctr, tmp_name(t + 5), ti as nat, q as nat);
            let r3 = conv_row_range_text(r2.0, site, ctx, i_ctr, j_ctr, i_hi, lo, hi);
            (r3.0, open + head + r1.1 + r2.1 + r3.1)
        },
    }
}

/// The ordinals a sliding interior adds to the conv nest.
pub open spec fn sliding_budget(site: TileSite, sliding: Option<(u64, u64)>) -> nat {
    match sliding {
        Some((ti, q)) => blocked_budget(site, ti as nat, q as nat),
        None => 0,
    }
}

impl<'a> FnEmit<'a> {
    /// The row range of the task slice; returns `i_lo` and `i_hi`.
    fn emit_row_range(&mut self, site: &TileSite, lo: &str, hi: &str) -> (r: (String, String))
        requires
            old(self).next + 3 <= u32::MAX,
            site.c > 0,
        ensures
            r.0@ == tmp_name(old(self).next as nat),
            r.1@ == tmp_name(old(self).next as nat + 2),
            final(self).body@ == old(self).body@ + row_range_text(old(self).next as nat, *site, lo@, hi@),
            final(self).next == old(self).next + 3,
            final(self).allocas == old(self).allocas,
            final(self).heap_used == old(self).heap_used,
            final(self).same_setup(*old(self)),
    {
        let ghost t = old(self).next as nat;
        let ghost o = old(self).body@;
        let c = num::u64_to_string(site.c);
        let c1 = num::u64_to_string(site.c - 1);
        let i_lo = self.emit_op("udiv", lo, c.as_str());
        let ghost p1 = op_line(tmp_name(t), "udiv"@, lo@, num::dec_nat(site.c as nat));
        let hi_biased = self.emit_op("add", hi, c1.as_str());
        let ghost p2 = op_line(tmp_name(t + 1), "add"@, hi@, num::dec_nat((site.c - 1) as nat));
        proof {
            lemma_concat_associative(o, p1, p2);
        }
        let i_hi = self.emit_op("udiv", hi_biased.as_str(), c.as_str());
        proof {
            lemma_concat_associative(o, p1 + p2, op_line(tmp_name(t + 2), "udiv"@, tmp_name(t + 1), num::dec_nat(site.c as nat)));
        }
        (i_lo, i_hi)
    }

    /// The full-window rows; returns their first row and their end.
    fn emit_full_rows(&mut self, site: &TileSite, lo: &str, hi: &str) -> (r: (String, String))
        requires
            old(self).next + 3 <= u32::MAX,
            site.c > 0,
        ensures
            r.0@ == tmp_name(old(self).next as nat + 1),
            r.1@ == tmp_name(old(self).next as nat + 2),
            final(self).body@ == old(self).body@ + full_rows_text(old(self).next as nat, *site, lo@, hi@),
            final(self).next == old(self).next + 3,
            final(self).allocas == old(self).allocas,
            final(self).heap_used == old(self).heap_used,
            final(self).same_setup(*old(self)),
    {
        let ghost u = old(self).next as nat;
        let ghost o = old(self).body@;
        let c = num::u64_to_string(site.c);
        let c1 = num::u64_to_string(site.c - 1);
        let lo_biased = self.emit_op("add", lo, c1.as_str());
        let ghost p1 = op_line(tmp_name(u), "add"@, lo@, num::dec_nat((site.c - 1) as nat));
        let fw_lo = self.emit_op("udiv", lo_biased.as_str(), c.as_str());
        let ghost p2 = op_line(tmp_name(u + 1), "udiv"@, tmp_name(u), num::dec_nat(site.c as nat));
        proof {
            lemma_concat_associative(o, p1, p2);
        }
        let fw_hi = self.emit_op("udiv", hi, c.as_str());
        proof {
            lemma_concat_associative(o, p1 + p2, op_line(tmp_name(u + 2), "udiv"@, hi@, num::dec_nat(site.c as nat)));
        }
        (fw_lo, fw_hi)
    }

    /// The register-blocked nests over the task slice `[lo, hi)`: the row
    /// range and the full-window rows, then with a packed `b` the KC nest
    /// (when an `a` panel `apack` is given, with `nc`-lane j-blocks) or the
    /// packed j-outer nest, and without one the i regions over `[0, C)`.
    #[verifier::spinoff_prover]
    pub fn emit_tiled_blocked_nest(
        &mut self,
        site: &TileSite,
        ctx: &TileCtx,
        i_ctr: &str,
        j_ctr: &str,
        lo: &str,
        hi: &str,
        apack: &Option<PackedBuffer>,
        nc: u64,
    )
        requires
            old(self).next + 1534 + 270 * ctx.tile_i <= u32::MAX,
            site.c > 0,
            regions_fit(*site, *ctx),
            site.k * ctx.tile_j <= u64::MAX,
            ctx.tile_i > 0 ==> site.a.base + site.a.ci * (ctx.tile_i - 1) <= u64::MAX,
            apack is Some ==> kc_fits(*site, *ctx, 1) && kc_fits(*site, *ctx, ctx.tile_i as nat),
        ensures
            ({
                let t = old(self).next as nat;
                let res = blocked_nest_text(t, *site, *ctx, i_ctr@, j_ctr@, lo@, hi@, *apack, nc);
                &&& final(self).next == res.0
                &&& final(self).body@ == old(self).body@ + res.1
                &&& final(self).allocas@ == old(self).allocas@ + blocked_nest_allocas(t, *ctx, *apack)
            }),
            final(self).heap_used == old(self).heap_used,
            final(self).same_setup(*old(self)),
    {
        reveal(blocked_nest_text);
        let ghost t = old(self).next as nat;
        let ghost o = old(self).body@;
        let (i_lo, i_hi) = self.emit_row_range(site, lo, hi);
        let (fw_lo, fw_hi) = self.emit_full_rows(site, lo, hi);
        let ghost w2 = row_range_text(t, *site, lo@, hi@) + full_rows_text(t + 3, *site, lo@, hi@);
        proof {
            lemma_concat_associative(o, row_range_text(t, *site, lo@, hi@), full_rows_text(t + 3, *site, lo@, hi@));
        }
        if ctx.packed.is_some() {
            match apack {
                Some(ap) => {
                    self.emit_tile_packed_kc(
                        site, ctx, i_ctr, j_ctr, lo, hi, i_lo.as_str(), i_hi.as_str(), fw_lo.as_str(), fw_hi.as_str(),
                        ap, nc,
                    );
                    proof {
                        let nest = packed_kc_text(t + 6, *site, *ctx, i_ctr@, j_ctr@, lo@, hi@, tmp_name(t), tmp_name(t + 2), tmp_name(t + 4), tmp_name(t + 5), *ap, nc);
                        lemma_concat_associative(o, w2, nest.1);
                    }
                },
                None => {
                    self.emit_tile_packed_j_outer(
                        site, ctx, i_ctr, j_ctr, lo, hi, i_lo.as_str(), i_hi.as_str(), fw_lo.as_str(), fw_hi.as_str(),
                    );
                    proof {
                        let nest = packed_j_outer_text(t + 6, *site, *ctx, i_ctr@, j_ctr@, lo@, hi@, tmp_name(t), tmp_name(t + 2), tmp_name(t + 4), tmp_name(t + 5));
                        lemma_concat_associative(o, w2, nest.1);
                        assert(self.allocas@ =~= old(self).allocas@ + Seq::<char>::empty());
                    }
                },
            }
        } else {
            self.emit_tile_i_regions(
                site, ctx, i_ctr, j_ctr, lo, hi, i_lo.as_str(), i_hi.as_str(), fw_lo.as_str(), fw_hi.as_str(), None,
            );
            proof {
                let nest = i_regions_text(t + 6, *site, *ctx, i_ctr@, j_ctr@, lo@, hi@, tmp_name(t), tmp_name(t + 2), tmp_name(t + 4), tmp_name(t + 5), None);
                lemma_concat_associative(o, w2, nest.1);
                assert(self.allocas@ =~= old(self).allocas@ + Seq::<char>::empty());
            }
        }
    }

    /// The 1-D window nest over `[lo, hi)`: full `TI*TJ`-lane blocks from
    /// `lo` while they fit below `hi`, each the window block at its start,
    /// then the remaining lanes as a fixed-width j split from where the
    /// blocks stopped.
    #[verifier::spinoff_prover]
    pub fn emit_tiled_window_nest(&mut self, site: &TileSite, ctx: &TileCtx, j_ctr: &str, lo: &str, hi: &str)
        requires
            old(self).next + 271 + 74 * ctx.tile_i <= u32::MAX,
            tile_fits(*site, *ctx),
            trio_fits(*site, *ctx, 1),
        ensures
            ({
                let res = window_nest_text(old(self).next as nat, *site, *ctx, j_ctr@, lo@, hi@);
                &&& final(self).next == res.0
                &&& final(self).body@ == old(self).body@ + res.1
            }),
            final(self).allocas == old(self).allocas,
            final(self).heap_used == old(self).heap_used,
            final(self).same_setup(*old(self)),
    {
        reveal(window_nest_text);
        let ghost t = old(self).next as nat;
        let ghost o = old(self).body@;
        let head = self.label();
        let body = self.label();
        let done = self.label();
        self.emit_store("i64", lo, j_ctr);
        let ghost p1 = store_line("i64"@, lo@, j_ctr@);
        self.jump(head.as_str());
        let ghost p2 = jump_line(label_name(t));
        proof {
            lemma_concat_associative(o, p1, p2);
        }
        self.label_line(head.as_str());
        let ghost p3 = label_text(label_name(t));
        proof {
            lemma_concat_associative(o, p1 + p2, p3);
        }
        let jb = self.emit_load("i64", j_ctr);
        let ghost p4 = load_line(tmp_name(t + 3), "i64"@, j_ctr@);
        proof {
            lemma_concat_associative(o, p1 + p2 + p3, p4);
        }
        let width = num::u64_to_string(ctx.tile_i * ctx.tile_j);
        let jb_end = self.emit_op("add", jb.as_str(), width.as_str());
        let ghost p5 = op_line(tmp_name(t + 4), "add"@, tmp_name(t + 3), num::dec_nat((ctx.tile_i * ctx.tile_j) as nat));
        proof {
            lemma_concat_associative(o, p1 + p2 + p3 + p4, p5);
        }
        let ghost w5 = p1 + p2 + p3 + p4 + p5;
        let fits = self.emit_op("icmp ule", jb_end.as_str(), hi);
        let ghost p6 = op_line(tmp_name(t + 5), "icmp ule"@, tmp_name(t + 4), hi@);
        proof {
            lemma_concat_associative(o, w5, p6);
        }
        self.branch(fits.as_str(), body.as_str(), done.as_str());
        let ghost p7 = branch_line(tmp_name(t + 5), label_name(t + 1), label_name(t + 2));
        proof {
            lemma_concat_associative(o, w5 + p6, p7);
        }
        self.label_line(body.as_str());
        let ghost p8 = label_text(label_name(t + 1));
        proof {
            lemma_concat_associative(o, w5 + p6 + p7, p8);
        }
        let ghost w8 = w5 + p6 + p7 + p8;
        let a_base = Self::base_option(site.a.base);
        proof {
            lemma_window_block_width(t + 6, *site, *ctx, tmp_name(t + 3), base_text(site.a.base));
        }
        self.emit_tile_window_block(site, ctx, jb.as_str(), &a_base);
        let ghost blk = window_block_text(t + 6, *site, *ctx, tmp_name(t + 3), base_text(site.a.base));
        let ghost x = blk.0;
        proof {
            lemma_concat_associative(o, w8, blk.1);
        }
        self.emit_store("i64", jb_end.as_str(), j_ctr);
        let ghost q1 = store_line("i64"@, tmp_name(t + 4), j_ctr@);
        proof {
            lemma_concat_associative(o, w8 + blk.1, q1);
        }
        self.jump(head.as_str());
        let ghost q2 = jump_line(label_name(t));
        proof {
            lemma_concat_associative(o, w8 + blk.1 + q1, q2);
        }
        self.label_line(done.as_str());
        let ghost q3 = label_text(label_name(t + 2));
        proof {
            lemma_concat_associative(o, w8 + blk.1 + q1 + q2, q3);
        }
        let ghost w11 = w8 + blk.1 + q1 + q2 + q3;
        let jw_rem_lo = self.emit_load("i64", j_ctr);
        let ghost q4 = load_line(tmp_name(x), "i64"@, j_ctr@);
        proof {
            lemma_concat_associative(o, w11, q4);
        }
        let b_row = Self::base_option(site.b.base);
        let a_rows = [a_base];
        assert(crate::trio::opt_texts(a_rows@) =~= seq![base_text(site.a.base)]);
        proof {
            lemma_j_split_width(x + 1, *site, *ctx, j_ctr@, tmp_name(x), hi@, "0"@, seq![base_text(site.a.base)], base_text(site.b.base));
        }
        self.emit_tile_j_split(site, ctx, j_ctr, jw_rem_lo.as_str(), hi, "0", &a_rows, &b_row);
        proof {
            let js = j_split_text(x + 1, *site, *ctx, j_ctr@, tmp_name(x), hi@, "0"@, seq![base_text(site.a.base)], base_text(site.b.base));
            lemma_concat_associative(o, w11 + q4, js.1);
        }
    }

    /// The conv nest over the task slice `[lo, hi)`: the row range with the
    /// counter at its first row; then, without a sliding interior, the conv
    /// rows to `i_hi`; with one (`sliding` = its `ti` rows and tap-row
    /// stride `q`), the head rows up to `min(i_fw_lo, i_hi)`, the blocked
    /// interior up to `i_fw_hi`, and the rest up to `i_hi`, on one counter so
    /// no row is skipped or repeated.
    #[verifier::spinoff_prover]
    pub fn emit_tiled_conv_nest(
        &mut self,
        site: &TileSite,
        ctx: &ConvTileCtx,
        i_ctr: &str,
        j_ctr: &str,
        lo: &str,
        hi: &str,
        sliding: Option<(u64, u64)>,
    )
        requires
            old(self).next + 8 + 2 * (70 + 36 * site.k) + sliding_budget(*site, sliding) <= u32::MAX,
            site.c > 0,
            conv_window_ok(*site),
            align_ok(ctx.elem_llt@),
            sliding matches Some((ti, q)) ==> conv_block_fits(*site, ti as nat, q as nat),
        ensures
            ({
                let res = conv_nest_text(old(self).next as nat, *site, *ctx, i_ctr@, j_ctr@, lo@, hi@, sliding);
                &&& final(self).next == res.0
                &&& final(self).body@ == old(self).body@ + res.1
            }),
            final(self).allocas == old(self).allocas,
            final(self).heap_used == old(self).heap_used,
            final(self).same_setup(*old(self)),
    {
        reveal(conv_nest_text);
        let ghost t = old(self).next as nat;
        let ghost o = old(self).body@;
        let (i_lo, i_hi) = self.emit_row_range(site, lo, hi);
        self.emit_store("i64", i_lo.as_str(), i_ctr);
        let ghost open = row_range_text(t, *site, lo@, hi@) + store_line("i64"@, tmp_name(t), i_ctr@);
        match sliding {
            None => {
                proof {
                    lemma_conv_row_range_width(t + 3, *site, *ctx, i_ctr@, j_ctr@, tmp_name(t + 2), lo@, hi@);
                }
                self.emit_conv_row_range(site, ctx, i_ctr, j_ctr, i_hi.as_str(), lo, hi);
                proof {
                    lemma_concat_associative(o, open, conv_row_range_text(t + 3, *site, *ctx, i_ctr@, j_ctr@, tmp_name(t + 2), lo@, hi@).1);
                }
            },
            Some((ti, q)) => {
                let (fw_lo, fw_hi) = self.emit_full_rows(site, lo, hi);
                let ghost p2 = full_rows_text(t + 3, *site, lo@, hi@);
                proof {
                    lemma_concat_associative(o, open, p2);
                }
                let past_end = self.emit_op("icmp ugt", fw_lo.as_str(), i_hi.as_str());
                let ghost p3 = op_line(tmp_name(t + 6), "icmp ugt"@, tmp_name(t + 4), tmp_name(t + 2));
                proof {
                    lemma_concat_associative(o, open + p2, p3);
                }
                let head_end = self.emit_select(past_end.as_str(), i_hi.as_str(), fw_lo.as_str());
                let ghost p4 = select_line(tmp_name(t + 7), tmp_name(t + 6), tmp_name(t + 2), tmp_name(t + 4));
                proof {
                    lemma_concat_associative(o, open + p2 + p3, p4);
                    lemma_conv_row_range_width(t + 8, *site, *ctx, i_ctr@, j_ctr@, tmp_name(t + 7), lo@, hi@);
                }
                let ghost w4 = open + (p2 + p3 + p4);
                assert(self.body@ == o + w4) by {
                    lemma_concat_associative(open, p2, p3);
                    lemma_concat_associative(open, p2 + p3, p4);
                    lemma_concat_associative(o, open, p2 + p3 + p4);
                }
                self.emit_conv_row_range(site, ctx, i_ctr, j_ctr, head_end.as_str(), lo, hi);
                let ghost r1 = conv_row_range_text(t + 8, *site, *ctx, i_ctr@, j_ctr@, tmp_name(t + 7), lo@, hi@);
                proof {
                    lemma_concat_associative(o, w4, r1.1);
                    lemma_conv_blocked_range_width(r1.0, *site, *ctx, i_ctr@, j_ctr@, tmp_name(t + 5), ti as nat, q as nat);
                }
                self.emit_conv_blocked_range(site, ctx, i_ctr, j_ctr, fw_hi.as_str(), ti, q);
                let ghost r2 = conv_blocked_range_text(r1.0, *site, *ctx, i_ctr@, j_ctr@, tmp_name(t + 5), ti as nat, q as nat);
                proof {
                    lemma_concat_associative(o, w4 + r1.1, r2.1);
                    lemma_conv_row_range_width(r2.0, *site, *ctx, i_ctr@, j_ctr@, tmp_name(t + 2), lo@, hi@);
                }
                self.emit_conv_row_range(site, ctx, i_ctr, j_ctr, i_hi.as_str(), lo, hi);
                proof {
                    let r3 = conv_row_range_text(r2.0, *site, *ctx, i_ctr@, j_ctr@, tmp_name(t + 2), lo@, hi@);
                    lemma_concat_associative(o, w4 + r1.1 + r2.1, r3.1);
                }
            },
        }
    }
}

} // verus!
