//! The row-invariant `b` pack: `b` copied into `packed[jt][k][lane]`, one
//! `TJ`-lane panel of depth `K` per j-tile, the last panel's dead lanes
//! padded with zero, so the tiled kernel reads each panel contiguously.
use vstd::prelude::*;
use vstd::seq_lib::lemma_concat_associative;
use crate::access::{gep_line, latch_text, load_line, store_line};
use crate::arith::{branch_line, jump_line};
use crate::emit::{
    FnEmit, PackedBuffer, label_name, label_text, lemma_tile_index_counter, op_line, scratch_name, term_views,
    tile_index_upto, tmp_name,
};
use crate::kc::scratch_alloca;
use crate::nest::base_text;
use crate::num;
use crate::site::TileSite;

verus! {

/// The number of `tile_j`-lane panels covering `c` lanes: `ceil(c / tile_j)`.
pub open spec fn panel_count(c: u64, tile_j: u64) -> nat {
    (c / tile_j + if c % tile_j != 0 { 1int } else { 0int }) as nat
}

/// The pack's j-tile range: the task slice `%lo..%hi` when the range is
/// split, `0..tiles` otherwise.
pub open spec fn pack_bounds(split: bool, tiles: nat) -> (Seq<char>, Seq<char>) {
    if split {
        ("%lo"@, "%hi"@)
    } else {
        ("0"@, num::dec_nat(tiles))
    }
}

/// The j-tile loop's opening, ordinals from `t` (counters `%s<t>`,
/// `%s<t+1>`, `%s<t+2>`; labels `t+3..t+14`): `jt` in `t+15` from `jt_lo`
/// while `jt < jt_hi`; the panel's first lane `jt*TJ` in `t+17` and its base
/// `jt*K*TJ` in `t+18`; then `k = 0`.
pub open spec fn pack_jt_open_text(t: nat, site: TileSite, tile_j: u64, jt_lo: Seq<char>, jt_hi: Seq<char>) -> Seq<char> {
    let jt = tmp_name(t + 15);
    store_line("i64"@, jt_lo, scratch_name(t)) + jump_line(label_name(t + 3)) + label_text(label_name(t + 3)) + load_line(
        jt,
        "i64"@,
        scratch_name(t),
    ) + op_line(tmp_name(t + 16), "icmp uge"@, jt, jt_hi) + branch_line(tmp_name(t + 16), label_name(t + 5), label_name(t + 4))
        + label_text(label_name(t + 4)) + op_line(tmp_name(t + 17), "mul"@, jt, num::dec_nat(tile_j as nat)) + op_line(
        tmp_name(t + 18),
        "mul"@,
        jt,
        num::dec_nat((site.k * tile_j) as nat),
    ) + store_line("i64"@, "0"@, scratch_name(t + 1)) + jump_line(label_name(t + 6))
}

/// The k loop's opening: `k` in `t+19` while `k < K`; the packed row
/// `panel_base + k*TJ` in `t+22`; then `lane = 0`.
pub open spec fn pack_k_open_text(t: nat, site: TileSite, tile_j: u64) -> Seq<char> {
    let k = tmp_name(t + 19);
    label_text(label_name(t + 6)) + load_line(k, "i64"@, scratch_name(t + 1)) + op_line(
        tmp_name(t + 20),
        "icmp uge"@,
        k,
        num::dec_nat(site.k as nat),
    ) + branch_line(tmp_name(t + 20), label_name(t + 8), label_name(t + 7)) + label_text(label_name(t + 7)) + op_line(
        tmp_name(t + 21),
        "mul"@,
        k,
        num::dec_nat(tile_j as nat),
    ) + op_line(tmp_name(t + 22), "add"@, tmp_name(t + 18), tmp_name(t + 21)) + store_line("i64"@, "0"@, scratch_name(t + 2))
        + jump_line(label_name(t + 9))
}

/// The lane loop's opening: `lane` in `t+23` while `lane < TJ`; the lane's
/// column `j = j0 + lane` in `t+25`, its packed slot in `t+27`; live lanes
/// (`j < C`) go to the load `t+12`, dead ones to the pad `t+13`.
pub open spec fn pack_lane_open_text(t: nat, site: TileSite, packed: PackedBuffer, tile_j: u64) -> Seq<char> {
    let lane = tmp_name(t + 23);
    label_text(label_name(t + 9)) + load_line(lane, "i64"@, scratch_name(t + 2)) + op_line(
        tmp_name(t + 24),
        "icmp uge"@,
        lane,
        num::dec_nat(tile_j as nat),
    ) + branch_line(tmp_name(t + 24), label_name(t + 11), label_name(t + 10)) + label_text(label_name(t + 10)) + op_line(
        tmp_name(t + 25),
        "add"@,
        tmp_name(t + 17),
        lane,
    ) + op_line(tmp_name(t + 26), "add"@, tmp_name(t + 22), lane) + gep_line(tmp_name(t + 27), packed.llt@, packed.ptr@, tmp_name(t + 26))
        + op_line(tmp_name(t + 28), "icmp ult"@, tmp_name(t + 25), num::dec_nat(site.c as nat)) + branch_line(
        tmp_name(t + 28),
        label_name(t + 12),
        label_name(t + 13),
    )
}

/// The `b` element at `(k, j)`: its index `b.base + b.ck*k + j`, ordinals
/// from `t+29`.
pub open spec fn pack_b_index(t: nat, site: TileSite) -> (nat, Option<Seq<char>>, Seq<char>) {
    tile_index_upto(t + 29, base_text(site.b.base), seq![(site.b.ck, tmp_name(t + 19)), (1u64, tmp_name(t + 25))], 2)
}

/// The load and pad arms, then the join: a live lane copies `b[(k, j)]`
/// into its slot, a dead lane stores zero.
pub open spec fn pack_store_text(t: nat, site: TileSite, b_llt: Seq<char>, elem_llt: Seq<char>, b_ptr: Seq<char>) -> Seq<char> {
    let b = pack_b_index(t, site);
    let u = b.0;
    let slot = tmp_name(t + 27);
    label_text(label_name(t + 12)) + b.2 + gep_line(tmp_name(u), b_llt, b_ptr, b.1.unwrap()) + load_line(tmp_name(u + 1), elem_llt, tmp_name(u))
        + store_line(elem_llt, tmp_name(u + 1), slot) + jump_line(label_name(t + 14)) + label_text(label_name(t + 13))
        + store_line(elem_llt, "zeroinitializer"@, slot) + jump_line(label_name(t + 14)) + label_text(label_name(t + 14))
}

/// The three latches (lane, k, jt), ordinals from `u`.
pub open spec fn pack_latches_text(u: nat, t: nat) -> Seq<char> {
    latch_text(tmp_name(u), tmp_name(t + 23), scratch_name(t + 2), label_name(t + 9), label_name(t + 11)) + latch_text(
        tmp_name(u + 1),
        tmp_name(t + 19),
        scratch_name(t + 1),
        label_name(t + 6),
        label_name(t + 8),
    ) + latch_text(tmp_name(u + 2), tmp_name(t + 15), scratch_name(t), label_name(t + 3), label_name(t + 5))
}

/// The pack of a row-invariant `b` operand, ordinals from `t`: every
/// j-tile `jt` of the range, every `k < K`, every lane `< TJ`:
/// `packed[jt*K*TJ + k*TJ + lane] = b[b.base + b.ck*k + jt*TJ + lane]` while
/// the column is below `C`, else zero.
#[verifier::opaque]
pub open spec fn pack_copy_text(
    t: nat,
    site: TileSite,
    packed: PackedBuffer,
    b_llt: Seq<char>,
    elem_llt: Seq<char>,
    b_ptr: Seq<char>,
    tile_j: u64,
    split: bool,
) -> (nat, Seq<char>) {
    let bounds = pack_bounds(split, panel_count(site.c, tile_j));
    let u = pack_b_index(t, site).0 + 2;
    (
        u + 3,
        pack_jt_open_text(t, site, tile_j, bounds.0, bounds.1) + pack_k_open_text(t, site, tile_j) + pack_lane_open_text(
            t,
            site,
            packed,
            tile_j,
        ) + pack_store_text(t, site, b_llt, elem_llt, b_ptr) + pack_latches_text(u, t),
    )
}

/// The `b` index always has its lane term.
proof fn lemma_pack_b_index(t: nat, site: TileSite)
    ensures
        pack_b_index(t, site).1 is Some,
        t + 29 <= pack_b_index(t, site).0 <= t + 33,
{
    let terms = seq![(site.b.ck, tmp_name(t + 19)), (1u64, tmp_name(t + 25))];
    lemma_tile_index_counter(t + 29, base_text(site.b.base), terms, 2);
    lemma_tile_index_counter(t + 29, base_text(site.b.base), terms, 1);
}

impl<'a> FnEmit<'a> {
    /// Open the j-tile loop; returns `jt`, the panel's first lane and its
    /// base.
    #[verifier::spinoff_prover]
    fn emit_pack_jt_open(
        &mut self,
        site: &TileSite,
        tile_j: u64,
        jt_lo: &str,
        jt_hi: &str,
        jt_ctr: &str,
        k_ctr: &str,
        jt_head: &str,
        jt_body: &str,
        jt_done: &str,
        k_head: &str,
        Ghost(t): Ghost<nat>,
    ) -> (r: (String, String, String))
        requires
            old(self).next == t + 15,
            old(self).next + 4 <= u32::MAX,
            site.k * tile_j <= u64::MAX,
            jt_ctr@ == scratch_name(t),
            k_ctr@ == scratch_name(t + 1),
            jt_head@ == label_name(t + 3),
            jt_body@ == label_name(t + 4),
            jt_done@ == label_name(t + 5),
            k_head@ == label_name(t + 6),
        ensures
            r.0@ == tmp_name(t + 15),
            r.1@ == tmp_name(t + 17),
            r.2@ == tmp_name(t + 18),
            final(self).body@ == old(self).body@ + pack_jt_open_text(t, *site, tile_j, jt_lo@, jt_hi@),
            final(self).next == old(self).next + 4,
            final(self).allocas == old(self).allocas,
            final(self).heap_used == old(self).heap_used,
            final(self).same_setup(*old(self)),
    {
        let ghost o = old(self).body@;
        self.emit_store("i64", jt_lo, jt_ctr);
        let ghost p1 = store_line("i64"@, jt_lo@, scratch_name(t));
        self.jump(jt_head);
        let ghost p2 = jump_line(label_name(t + 3));
        proof {
            lemma_concat_associative(o, p1, p2);
        }
        self.label_line(jt_head);
        let ghost p3 = label_text(label_name(t + 3));
        proof {
            lemma_concat_associative(o, p1 + p2, p3);
        }
        let jt = self.emit_load("i64", jt_ctr);
        let ghost p4 = load_line(tmp_name(t + 15), "i64"@, scratch_name(t));
        proof {
            lemma_concat_associative(o, p1 + p2 + p3, p4);
        }
        let all = self.emit_op("icmp uge", jt.as_str(), jt_hi);
        let ghost p5 = op_line(tmp_name(t + 16), "icmp uge"@, tmp_name(t + 15), jt_hi@);
        proof {
            lemma_concat_associative(o, p1 + p2 + p3 + p4, p5);
        }
        let ghost w5 = p1 + p2 + p3 + p4 + p5;
        self.branch(all.as_str(), jt_done, jt_body);
        let ghost p6 = branch_line(tmp_name(t + 16), label_name(t + 5), label_name(t + 4));
        proof {
            lemma_concat_associative(o, w5, p6);
        }
        self.label_line(jt_body);
        let ghost p7 = label_text(label_name(t + 4));
        proof {
            lemma_concat_associative(o, w5 + p6, p7);
        }
        let tj = num::u64_to_string(tile_j);
        let j0 = self.emit_op("mul", jt.as_str(), tj.as_str());
        let ghost p8 = op_line(tmp_name(t + 17), "mul"@, tmp_name(t + 15), num::dec_nat(tile_j as nat));
        proof {
            lemma_concat_associative(o, w5 + p6 + p7, p8);
        }
        let ghost w8 = w5 + p6 + p7 + p8;
        let panel = num::u64_to_string(site.k * tile_j);
        let panel_base = self.emit_op("mul", jt.as_str(), panel.as_str());
        let ghost p9 = op_line(tmp_name(t + 18), "mul"@, tmp_name(t + 15), num::dec_nat((site.k * tile_j) as nat));
        proof {
            lemma_concat_associative(o, w8, p9);
        }
        self.emit_store("i64", "0", k_ctr);
        let ghost p10 = store_line("i64"@, "0"@, scratch_name(t + 1));
        proof {
            lemma_concat_associative(o, w8 + p9, p10);
        }
        self.jump(k_head);
        proof {
            lemma_concat_associative(o, w8 + p9 + p10, jump_line(label_name(t + 6)));
        }
        (jt, j0, panel_base)
    }

    /// Open the k loop; returns `k` and the packed row.
    #[verifier::spinoff_prover]
    fn emit_pack_k_open(
        &mut self,
        site: &TileSite,
        tile_j: u64,
        k_ctr: &str,
        lane_ctr: &str,
        k_head: &str,
        k_body: &str,
        k_done: &str,
        lane_head: &str,
        panel_base: &str,
        Ghost(t): Ghost<nat>,
    ) -> (r: (String, String))
        requires
            old(self).next == t + 19,
            old(self).next + 4 <= u32::MAX,
            k_ctr@ == scratch_name(t + 1),
            lane_ctr@ == scratch_name(t + 2),
            k_head@ == label_name(t + 6),
            k_body@ == label_name(t + 7),
            k_done@ == label_name(t + 8),
            lane_head@ == label_name(t + 9),
            panel_base@ == tmp_name(t + 18),
        ensures
            r.0@ == tmp_name(t + 19),
            r.1@ == tmp_name(t + 22),
            final(self).body@ == old(self).body@ + pack_k_open_text(t, *site, tile_j),
            final(self).next == old(self).next + 4,
            final(self).allocas == old(self).allocas,
            final(self).heap_used == old(self).heap_used,
            final(self).same_setup(*old(self)),
    {
        let ghost o = old(self).body@;
        self.label_line(k_head);
        let ghost p1 = label_text(label_name(t + 6));
        let k = self.emit_load("i64", k_ctr);
        let ghost p2 = load_line(tmp_name(t + 19), "i64"@, scratch_name(t + 1));
        proof {
            lemma_concat_associative(o, p1, p2);
        }
        let kk = num::u64_to_string(site.k);
        let all = self.emit_op("icmp uge", k.as_str(), kk.as_str());
        let ghost p3 = op_line(tmp_name(t + 20), "icmp uge"@, tmp_name(t + 19), num::dec_nat(site.k as nat));
        proof {
            lemma_concat_associative(o, p1 + p2, p3);
        }
        self.branch(all.as_str(), k_done, k_body);
        let ghost p4 = branch_line(tmp_name(t + 20), label_name(t + 8), label_name(t + 7));
        proof {
            lemma_concat_associative(o, p1 + p2 + p3, p4);
        }
        self.label_line(k_body);
        let ghost p5 = label_text(label_name(t + 7));
        proof {
            lemma_concat_associative(o, p1 + p2 + p3 + p4, p5);
        }
        let ghost w5 = p1 + p2 + p3 + p4 + p5;
        let tj = num::u64_to_string(tile_j);
        let packed_k = self.emit_op("mul", k.as_str(), tj.as_str());
        let ghost p6 = op_line(tmp_name(t + 21), "mul"@, tmp_name(t + 19), num::dec_nat(tile_j as nat));
        proof {
            lemma_concat_associative(o, w5, p6);
        }
        let packed_row = self.emit_op("add", panel_base, packed_k.as_str());
        let ghost p7 = op_line(tmp_name(t + 22), "add"@, tmp_name(t + 18), tmp_name(t + 21));
        proof {
            lemma_concat_associative(o, w5 + p6, p7);
        }
        self.emit_store("i64", "0", lane_ctr);
        let ghost p8 = store_line("i64"@, "0"@, scratch_name(t + 2));
        proof {
            lemma_concat_associative(o, w5 + p6 + p7, p8);
        }
        self.jump(lane_head);
        proof {
            lemma_concat_associative(o, w5 + p6 + p7 + p8, jump_line(label_name(t + 9)));
        }
        (k, packed_row)
    }

    /// Open the lane loop; returns `lane`, the column `j` and the packed
    /// slot.
    #[verifier::spinoff_prover]
    fn emit_pack_lane_open(
        &mut self,
        site: &TileSite,
        packed: &PackedBuffer,
        tile_j: u64,
        lane_ctr: &str,
        lane_head: &str,
        lane_body: &str,
        lane_done: &str,
        load: &str,
        pad: &str,
        j0: &str,
        packed_row: &str,
        Ghost(t): Ghost<nat>,
    ) -> (r: (String, String, String))
        requires
            old(self).next == t + 23,
            old(self).next + 6 <= u32::MAX,
            lane_ctr@ == scratch_name(t + 2),
            lane_head@ == label_name(t + 9),
            lane_body@ == label_name(t + 10),
            lane_done@ == label_name(t + 11),
            load@ == label_name(t + 12),
            pad@ == label_name(t + 13),
            j0@ == tmp_name(t + 17),
            packed_row@ == tmp_name(t + 22),
        ensures
            r.0@ == tmp_name(t + 23),
            r.1@ == tmp_name(t + 25),
            r.2@ == tmp_name(t + 27),
            final(self).body@ == old(self).body@ + pack_lane_open_text(t, *site, *packed, tile_j),
            final(self).next == old(self).next + 6,
            final(self).allocas == old(self).allocas,
            final(self).heap_used == old(self).heap_used,
            final(self).same_setup(*old(self)),
    {
        let ghost o = old(self).body@;
        self.label_line(lane_head);
        let ghost p1 = label_text(label_name(t + 9));
        let lane = self.emit_load("i64", lane_ctr);
        let ghost p2 = load_line(tmp_name(t + 23), "i64"@, scratch_name(t + 2));
        proof {
            lemma_concat_associative(o, p1, p2);
        }
        let tj = num::u64_to_string(tile_j);
        let all = self.emit_op("icmp uge", lane.as_str(), tj.as_str());
        let ghost p3 = op_line(tmp_name(t + 24), "icmp uge"@, tmp_name(t + 23), num::dec_nat(tile_j as nat));
        proof {
            lemma_concat_associative(o, p1 + p2, p3);
        }
        self.branch(all.as_str(), lane_done, lane_body);
        let ghost p4 = branch_line(tmp_name(t + 24), label_name(t + 11), label_name(t + 10));
        proof {
            lemma_concat_associative(o, p1 + p2 + p3, p4);
        }
        self.label_line(lane_body);
        let ghost p5 = label_text(label_name(t + 10));
        proof {
            lemma_concat_associative(o, p1 + p2 + p3 + p4, p5);
        }
        let ghost w5 = p1 + p2 + p3 + p4 + p5;
        let j = self.emit_op("add", j0, lane.as_str());
        let ghost p6 = op_line(tmp_name(t + 25), "add"@, tmp_name(t + 17), tmp_name(t + 23));
        proof {
            lemma_concat_associative(o, w5, p6);
        }
        let packed_index = self.emit_op("add", packed_row, lane.as_str());
        let ghost p7 = op_line(tmp_name(t + 26), "add"@, tmp_name(t + 22), tmp_name(t + 23));
        proof {
            lemma_concat_associative(o, w5 + p6, p7);
        }
        let slot = self.emit_gep(packed.llt.as_str(), packed.ptr.as_str(), packed_index.as_str());
        let ghost p8 = gep_line(tmp_name(t + 27), packed.llt@, packed.ptr@, tmp_name(t + 26));
        proof {
            lemma_concat_associative(o, w5 + p6 + p7, p8);
        }
        let ghost w8 = w5 + p6 + p7 + p8;
        let c = num::u64_to_string(site.c);
        let live = self.emit_op("icmp ult", j.as_str(), c.as_str());
        let ghost p9 = op_line(tmp_name(t + 28), "icmp ult"@, tmp_name(t + 25), num::dec_nat(site.c as nat));
        proof {
            lemma_concat_associative(o, w8, p9);
        }
        self.branch(live.as_str(), load, pad);
        proof {
            lemma_concat_associative(o, w8 + p9, branch_line(tmp_name(t + 28), label_name(t + 12), label_name(t + 13)));
        }
        (lane, j, slot)
    }

    /// The load and pad arms and their join.
    #[verifier::spinoff_prover]
    fn emit_pack_store(
        &mut self,
        site: &TileSite,
        b_llt: &str,
        elem_llt: &str,
        b_ptr: &str,
        load: &str,
        pad: &str,
        store_done: &str,
        k: &str,
        j: &str,
        slot: &str,
        Ghost(t): Ghost<nat>,
    )
        requires
            old(self).next == t + 29,
            old(self).next + 6 <= u32::MAX,
            load@ == label_name(t + 12),
            pad@ == label_name(t + 13),
            store_done@ == label_name(t + 14),
            k@ == tmp_name(t + 19),
            j@ == tmp_name(t + 25),
            slot@ == tmp_name(t + 27),
        ensures
            final(self).body@ == old(self).body@ + pack_store_text(t, *site, b_llt@, elem_llt@, b_ptr@),
            final(self).next == pack_b_index(t, *site).0 + 2,
            final(self).allocas == old(self).allocas,
            final(self).heap_used == old(self).heap_used,
            final(self).same_setup(*old(self)),
    {
        let ghost o = old(self).body@;
        self.label_line(load);
        let ghost p1 = label_text(label_name(t + 12));
        let terms = [(site.b.ck, k), (1u64, j)];
        let ghost tv = seq![(site.b.ck, tmp_name(t + 19)), (1u64, tmp_name(t + 25))];
        assert(term_views(terms@) =~= tv);
        proof {
            lemma_pack_b_index(t, *site);
        }
        let ix = self.emit_tile_index(Self::base_option(site.b.base), &terms);
        let ghost b = pack_b_index(t, *site);
        proof {
            lemma_concat_associative(o, p1, b.2);
        }
        let index = ix.expect("b has a lane term");
        let ghost u = b.0;
        let b_elem = self.emit_gep(b_llt, b_ptr, index.as_str());
        let ghost p3 = gep_line(tmp_name(u), b_llt@, b_ptr@, b.1.unwrap());
        proof {
            lemma_concat_associative(o, p1 + b.2, p3);
        }
        let value = self.emit_load(elem_llt, b_elem.as_str());
        let ghost p4 = load_line(tmp_name(u + 1), elem_llt@, tmp_name(u));
        proof {
            lemma_concat_associative(o, p1 + b.2 + p3, p4);
        }
        let ghost w4 = p1 + b.2 + p3 + p4;
        self.emit_store(elem_llt, value.as_str(), slot);
        let ghost p5 = store_line(elem_llt@, tmp_name(u + 1), tmp_name(t + 27));
        proof {
            lemma_concat_associative(o, w4, p5);
        }
        self.jump(store_done);
        let ghost p6 = jump_line(label_name(t + 14));
        proof {
            lemma_concat_associative(o, w4 + p5, p6);
        }
        self.label_line(pad);
        let ghost p7 = label_text(label_name(t + 13));
        proof {
            lemma_concat_associative(o, w4 + p5 + p6, p7);
        }
        let ghost w7 = w4 + p5 + p6 + p7;
        self.emit_store(elem_llt, "zeroinitializer", slot);
        let ghost p8 = store_line(elem_llt@, "zeroinitializer"@, tmp_name(t + 27));
        proof {
            lemma_concat_associative(o, w7, p8);
        }
        self.jump(store_done);
        let ghost p9 = jump_line(label_name(t + 14));
        proof {
            lemma_concat_associative(o, w7 + p8, p9);
        }
        self.label_line(store_done);
        proof {
            lemma_concat_associative(o, w7 + p8 + p9, label_text(label_name(t + 14)));
        }
    }

    /// Close the lane, k and j-tile loops.
    fn emit_pack_latches(
        &mut self,
        jt_ctr: &str,
        k_ctr: &str,
        lane_ctr: &str,
        jt: &str,
        k: &str,
        lane: &str,
        jt_head: &str,
        jt_done: &str,
        k_head: &str,
        k_done: &str,
        lane_head: &str,
        lane_done: &str,
        Ghost(t): Ghost<nat>,
    )
        requires
            old(self).next + 3 <= u32::MAX,
            jt_ctr@ == scratch_name(t),
            k_ctr@ == scratch_name(t + 1),
            lane_ctr@ == scratch_name(t + 2),
            jt@ == tmp_name(t + 15),
            k@ == tmp_name(t + 19),
            lane@ == tmp_name(t + 23),
            jt_head@ == label_name(t + 3),
            jt_done@ == label_name(t + 5),
            k_head@ == label_name(t + 6),
            k_done@ == label_name(t + 8),
            lane_head@ == label_name(t + 9),
            lane_done@ == label_name(t + 11),
        ensures
            final(self).body@ == old(self).body@ + pack_latches_text(old(self).next as nat, t),
            final(self).next == old(self).next + 3,
            final(self).allocas == old(self).allocas,
            final(self).heap_used == old(self).heap_used,
            final(self).same_setup(*old(self)),
    {
        let ghost u = old(self).next as nat;
        let ghost o = old(self).body@;
        self.emit_loop_tail(lane_ctr, lane, lane_head, lane_done);
        let ghost q1 = latch_text(tmp_name(u), tmp_name(t + 23), scratch_name(t + 2), label_name(t + 9), label_name(t + 11));
        self.emit_loop_tail(k_ctr, k, k_head, k_done);
        let ghost q2 = latch_text(tmp_name(u + 1), tmp_name(t + 19), scratch_name(t + 1), label_name(t + 6), label_name(t + 8));
        proof {
            lemma_concat_associative(o, q1, q2);
        }
        self.emit_loop_tail(jt_ctr, jt, jt_head, jt_done);
        proof {
            lemma_concat_associative(
                o,
                q1 + q2,
                latch_text(tmp_name(u + 2), tmp_name(t + 15), scratch_name(t), label_name(t + 3), label_name(t + 5)),
            );
        }
    }

    /// Copy a row-invariant `b` operand into `packed[jt][k][lane]` over
    /// the j-tile range (the task slice when the range is split, else every
    /// panel), padding the last panel's dead lanes with zero. `b_llt`,
    /// `elem_llt` and `b_ptr` are the operand's lowered array type, element
    /// type and address; three `i64` scratch counters are allocated.
    #[verifier::spinoff_prover]
    #[verifier::rlimit(40)]
    pub fn emit_pack_copy(
        &mut self,
        site: &TileSite,
        packed: &PackedBuffer,
        b_llt: &str,
        elem_llt: &str,
        b_ptr: &str,
        tile_j: u64,
    )
        requires
            old(self).next + 40 <= u32::MAX,
            tile_j > 0,
            site.k * tile_j <= u64::MAX,
        ensures
            ({
                let t = old(self).next as nat;
                let res = pack_copy_text(t, *site, *packed, b_llt@, elem_llt@, b_ptr@, tile_j, old(self).split_range);
                &&& final(self).next == res.0
                &&& final(self).body@ == old(self).body@ + res.1
                &&& final(self).allocas@ == old(self).allocas@ + scratch_alloca(t) + scratch_alloca(t + 1) + scratch_alloca(t + 2)
            }),
            final(self).heap_used == old(self).heap_used,
            final(self).same_setup(*old(self)),
    {
        reveal(pack_copy_text);
        let ghost t = old(self).next as nat;
        let ghost o = old(self).body@;
        let ghost a0 = old(self).allocas@;
        let whole = site.c / tile_j;
        proof {
            vstd::arithmetic::div_mod::lemma_fundamental_div_mod(site.c as int, tile_j as int);
            assert(site.c % tile_j != 0 ==> whole < u64::MAX) by (nonlinear_arith)
                requires
                    site.c == tile_j * whole + site.c % tile_j,
                    tile_j > 0,
                    whole <= u64::MAX,
                    site.c <= u64::MAX,
            ;
        }
        let tiles = if site.c % tile_j != 0 { whole + 1 } else { whole };
        let (jt_lo, jt_hi) = self.bulk_bounds(tiles);
        let ghost bounds = pack_bounds(self.split_range, panel_count(site.c, tile_j));
        assert(jt_lo@ == bounds.0 && jt_hi@ == bounds.1);
        let jt_ctr = self.scratch("i64");
        assert(self.allocas@ =~= a0 + scratch_alloca(t));
        let k_ctr = self.scratch("i64");
        assert(self.allocas@ =~= a0 + scratch_alloca(t) + scratch_alloca(t + 1));
        let lane_ctr = self.scratch("i64");
        assert(self.allocas@ =~= a0 + scratch_alloca(t) + scratch_alloca(t + 1) + scratch_alloca(t + 2));
        let jt_head = self.label();
        let jt_body = self.label();
        let jt_done = self.label();
        let k_head = self.label();
        let k_body = self.label();
        let k_done = self.label();
        let lane_head = self.label();
        let lane_body = self.label();
        let lane_done = self.label();
        let load = self.label();
        let pad = self.label();
        let store_done = self.label();
        let (jt, j0, panel_base) = self.emit_pack_jt_open(
            site, tile_j, jt_lo.as_str(), jt_hi.as_str(), jt_ctr.as_str(), k_ctr.as_str(), jt_head.as_str(),
            jt_body.as_str(), jt_done.as_str(), k_head.as_str(), Ghost(t),
        );
        let ghost w1 = pack_jt_open_text(t, *site, tile_j, jt_lo@, jt_hi@);
        let (k, packed_row) = self.emit_pack_k_open(
            site, tile_j, k_ctr.as_str(), lane_ctr.as_str(), k_head.as_str(), k_body.as_str(), k_done.as_str(),
            lane_head.as_str(), panel_base.as_str(), Ghost(t),
        );
        let ghost w2 = pack_k_open_text(t, *site, tile_j);
        proof {
            lemma_concat_associative(o, w1, w2);
        }
        let (lane, j, slot) = self.emit_pack_lane_open(
            site, packed, tile_j, lane_ctr.as_str(), lane_head.as_str(), lane_body.as_str(), lane_done.as_str(),
            load.as_str(), pad.as_str(), j0.as_str(), packed_row.as_str(), Ghost(t),
        );
        let ghost w3 = pack_lane_open_text(t, *site, *packed, tile_j);
        proof {
            lemma_concat_associative(o, w1 + w2, w3);
            lemma_pack_b_index(t, *site);
        }
        self.emit_pack_store(
            site, b_llt, elem_llt, b_ptr, load.as_str(), pad.as_str(), store_done.as_str(), k.as_str(), j.as_str(),
            slot.as_str(), Ghost(t),
        );
        let ghost w4 = pack_store_text(t, *site, b_llt@, elem_llt@, b_ptr@);
        proof {
            lemma_concat_associative(o, w1 + w2 + w3, w4);
        }
        let ghost u = pack_b_index(t, *site).0 + 2;
        self.emit_pack_latches(
            jt_ctr.as_str(), k_ctr.as_str(), lane_ctr.as_str(), jt.as_str(), k.as_str(), lane.as_str(), jt_head.as_str(),
            jt_done.as_str(), k_head.as_str(), k_done.as_str(), lane_head.as_str(), lane_done.as_str(), Ghost(t),
        );
        proof {
            lemma_concat_associative(o, w1 + w2 + w3 + w4, pack_latches_text(u, t));
        }
    }
}

} // verus!
