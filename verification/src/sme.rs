//! The streaming-matrix rung: the predicate that admits a tile site to it,
//! the panel height every slice boundary must respect, and the grid of
//! `ti·t × tj·t` panel calls that realizes one site.
use vstd::prelude::*;
use vstd::seq_lib::lemma_concat_associative;
use crate::access::{gep_line, latch_text, load_line, store_line};
use crate::arith::{branch_line, jump_line};
use crate::emit::{
    FnEmit, PackedBuffer, label_name, label_text, lemma_tile_index_counter, line_text, op_line, scratch_name,
    term_views, tile_index_upto, tmp_name,
};
use crate::ir::{Ty, Value};
use crate::kc::scratch_alloca;
use crate::llt;
use crate::nest::base_text;
use crate::num;
use crate::pack::pack_bounds;
use crate::site::{TileSite, is_packing_site, packing_site};

verus! {

/// `d` divides `n`; `0` divides only `0`.
pub open spec fn divides(d: int, n: int) -> bool {
    if d == 0 {
        n == 0
    } else {
        n % d == 0
    }
}

fn is_multiple(n: u64, d: u64) -> (r: bool)
    ensures
        r == divides(d as int, n as int),
{
    if d == 0 {
        n == 0
    } else {
        n % d == 0
    }
}

/// The element type is single precision.
pub open spec fn is_single(t: Ty) -> bool {
    t matches Ty::Float { bits } && bits == 32
}

/// The fold's identity is the single-precision zero (all bits clear).
pub open spec fn is_zero_single(v: Value) -> bool {
    v matches Value::F32(z) && z == 0
}

/// The streaming-matrix rung takes `site`, given the profile's tile side
/// `side` and block `(ti, tj)` at the site's element, whether fusion was
/// asked for, whether the packing rung runs, and the packed panel width
/// `tile_j`: single precision under fusion; no k-split; `a` invariant in the lanes, `b`
/// unit-stride in the lanes and invariant in the rows; a zero seed; whole
/// `ti·t × tj·t` panels; at least one tile of depth; and a packed `b` row
/// exactly one tile wide.
pub open spec fn is_sme_site(
    site: TileSite,
    side: Option<u64>,
    block: Option<(u64, u64)>,
    contract: bool,
    packing: bool,
    tile_j: u64,
) -> bool {
    match (side, block) {
        (Some(t), Some((ti, tj))) => {
            &&& contract
            &&& is_single(site.elem)
            &&& site.a.ksplit is None
            &&& site.b.ksplit is None
            &&& site.a.clane == 0
            &&& site.b.clane == 1
            &&& site.b.ci == 0
            &&& is_zero_single(site.seed)
            &&& divides(ti * t, site.rows as int)
            &&& divides(tj * t, site.c as int)
            &&& site.k >= t
            &&& (!(packing && is_packing_site(site)) || tile_j == t)
        },
        _ => false,
    }
}

/// The tile side and block fit a `u64` panel.
pub open spec fn sme_geometry_fits(side: Option<u64>, block: Option<(u64, u64)>) -> bool {
    match (side, block) {
        (Some(t), Some((ti, tj))) => ti * t <= u64::MAX && tj * t <= u64::MAX,
        _ => true,
    }
}

/// Is `site` legal for, and shaped for, the streaming-matrix rung? Every
/// refusal falls back to the ordinary dispatch.
pub fn sme_tile_site(
    site: &TileSite,
    side: Option<u64>,
    block: Option<(u64, u64)>,
    contract: bool,
    packing: bool,
    tile_j: u64,
) -> (r: bool)
    requires
        sme_geometry_fits(side, block),
    ensures
        r == is_sme_site(*site, side, block, contract, packing, tile_j),
{
    let t = match side {
        Some(t) => t,
        None => return false,
    };
    let (ti, tj) = match block {
        Some(b) => b,
        None => return false,
    };
    let single = match &site.elem {
        Ty::Float { bits } => *bits == 32,
        _ => false,
    };
    let zero = match &site.seed {
        Value::F32(z) => *z == 0,
        _ => false,
    };
    contract && single && site.a.ksplit.is_none() && site.b.ksplit.is_none() && site.a.clane == 0
        && site.b.clane == 1 && site.b.ci == 0 && zero && is_multiple(site.rows, ti * t)
        && is_multiple(site.c, tj * t) && site.k >= t && (!(packing && packing_site(site))
        || tile_j == t)
}

/// The panel height in output rows, `ti·t`, when the profile has both.
pub fn sme_panel_rows(side: Option<u64>, block: Option<(u64, u64)>) -> (r: Option<u64>)
    requires
        sme_geometry_fits(side, block),
    ensures
        r == match (side, block) {
            (Some(t), Some((ti, _))) => Some((ti * t) as u64),
            _ => None,
        },
{
    match (side, block) {
        (Some(t), Some((ti, _))) => Some(ti * t),
        _ => None,
    }
}

/// The slice quantum in output elements, and the over-decomposition factor,
/// for a site handed to the task runtime: nothing to slice for a single row
/// or no lanes; else whole panels of the rung that will run (`ti·t` rows
/// when the streaming-matrix rung takes the site, `tile_i` rows otherwise)
/// times `c`, saturating, and a factor of 4 where `b` is row-invariant.
pub open spec fn slice_sizing_of(rows: u64, c: u64, panel: u64, invariant_reuse: bool) -> (u64, u32) {
    if rows <= 1 || c == 0 {
        (0, 0)
    } else {
        (
            if panel * c > u64::MAX { u64::MAX } else { (panel * c) as u64 },
            if invariant_reuse { 4 } else { 1 },
        )
    }
}

/// How a sliced site is cut: `invariant_reuse` says the record shows `b`
/// shared across rows; `tile_i` is the profile's row block; the streaming
/// geometry and flags are those `sme_tile_site` asks.
pub fn slice_sizing(
    site: &TileSite,
    side: Option<u64>,
    block: Option<(u64, u64)>,
    contract: bool,
    packing: bool,
    tile_j: u64,
    tile_i: u64,
    invariant_reuse: bool,
) -> (r: (u64, u32))
    requires
        sme_geometry_fits(side, block),
    ensures
        r == slice_sizing_of(
            site.rows,
            site.c,
            match (side, block) {
                (Some(t), Some((ti, _))) => if is_sme_site(*site, side, block, contract, packing, tile_j) {
                    (ti * t) as u64
                } else {
                    tile_i
                },
                _ => tile_i,
            },
            invariant_reuse,
        ),
{
    if site.rows <= 1 || site.c == 0 {
        return (0, 0);
    }
    let rows_per_block = match sme_panel_rows(side, block) {
        Some(rows) => if sme_tile_site(site, side, block, contract, packing, tile_j) {
            rows
        } else {
            tile_i
        },
        None => tile_i,
    };
    let floor = match rows_per_block.checked_mul(site.c) {
        Some(v) => v,
        None => u64::MAX,
    };
    let oversub: u32 = if invariant_reuse { 4 } else { 1 };
    (floor, oversub)
}

/// What the streaming-matrix emission reads: the lowered element, operand
/// and output types and addresses, the packed `b` (when the packing rung
/// ran) and its panel width, the profile's tile side and block, its k-block
/// budget, whether k blocking is enabled, and the two panel kernels (the one
/// that stores a block and the one that adds into it).
pub struct SmeCtx {
    pub elem_llt: String,
    pub a_llt: String,
    pub b_llt: String,
    pub out_llt: String,
    pub a_ptr: String,
    pub b_ptr: String,
    pub out_ptr: String,
    pub packed: Option<PackedBuffer>,
    pub pack_w: u64,
    pub side: u64,
    pub block_i: u64,
    pub block_j: u64,
    pub kc_budget: u64,
    pub kc_nest: bool,
    pub store_kernel: String,
    pub acc_kernel: String,
}

/// `1` for a blocked emission, `0` otherwise.
pub open spec fn bit(b: bool) -> nat {
    if b {
        1
    } else {
        0
    }
}

/// The k axis is cut into blocks: only when enabled, when the whole axis
/// overflows the budget, and when the budget divides it exactly.
pub open spec fn sme_blocked(site: TileSite, x: SmeCtx) -> bool {
    x.kc_nest && site.k > x.kc_budget && divides(x.kc_budget as int, site.k as int)
}

/// One k block's depth: the budget when blocked, the whole axis otherwise.
pub open spec fn sme_kc(site: TileSite, x: SmeCtx) -> u64 {
    if sme_blocked(site, x) {
        x.kc_budget
    } else {
        site.k
    }
}

/// The A panel's type: `[ti·t·kc x elem]`.
pub open spec fn sme_panel_llt(site: TileSite, x: SmeCtx) -> Seq<char> {
    "["@ + num::dec_nat((x.block_i * x.side * sme_kc(site, x)) as nat) + " x "@ + x.elem_llt@ + "]"@
}

/// `<next> = add i64 <iv>, <step>`; stored back; back to `head`; then `exit`.
pub open spec fn step_text(next: Seq<char>, iv: Seq<char>, step: Seq<char>, ctr: Seq<char>, head: Seq<char>, exit: Seq<char>) -> Seq<char> {
    op_line(next, "add"@, iv, step) + store_line("i64"@, next, ctr) + jump_line(head) + label_text(exit)
}

/// The row range `lo/c .. hi/c` into `L`, `L+1`; blocked, the k-block loop
/// opens (counter `%s<t+5>`, block base `k0` in `L+2`, labels `s+12..s+14`).
#[verifier::opaque]
pub open spec fn sme_head_text(t: nat, s: nat, l: nat, site: TileSite, lo: Seq<char>, hi: Seq<char>, blocked: bool) -> Seq<char> {
    let c = num::dec_nat(site.c as nat);
    op_line(tmp_name(l), "udiv"@, lo, c) + op_line(tmp_name(l + 1), "udiv"@, hi, c) + if blocked {
        store_line("i64"@, "0"@, scratch_name(t + 5)) + jump_line(label_name(s + 12)) + label_text(label_name(s + 12))
            + load_line(tmp_name(l + 2), "i64"@, scratch_name(t + 5)) + op_line(
            tmp_name(l + 3),
            "icmp uge"@,
            tmp_name(l + 2),
            num::dec_nat(site.k as nat),
        ) + branch_line(tmp_name(l + 3), label_name(s + 14), label_name(s + 13)) + label_text(label_name(s + 13))
    } else {
        Seq::empty()
    }
}

/// The i-panel loop from `L` below `L+1` (`i0` in `m`).
#[verifier::opaque]
pub open spec fn sme_i_open_text(t: nat, s: nat, l: nat, m: nat) -> Seq<char> {
    store_line("i64"@, tmp_name(l), scratch_name(t + 1)) + jump_line(label_name(s)) + label_text(label_name(s))
        + load_line(tmp_name(m), "i64"@, scratch_name(t + 1)) + op_line(
        tmp_name(m + 1),
        "icmp uge"@,
        tmp_name(m),
        tmp_name(l + 1),
    ) + branch_line(tmp_name(m + 1), label_name(s + 2), label_name(s + 1)) + label_text(label_name(s + 1))
}

/// The pack's row loop (`pi` in `m+2`, below `ti·t`).
#[verifier::opaque]
pub open spec fn sme_pi_open_text(t: nat, s: nat, m: nat, panel_rows: u64) -> Seq<char> {
    store_line("i64"@, "0"@, scratch_name(t + 4)) + jump_line(label_name(s + 6)) + label_text(label_name(s + 6))
        + load_line(tmp_name(m + 2), "i64"@, scratch_name(t + 4)) + op_line(
        tmp_name(m + 3),
        "icmp uge"@,
        tmp_name(m + 2),
        num::dec_nat(panel_rows as nat),
    ) + branch_line(tmp_name(m + 3), label_name(s + 8), label_name(s + 7)) + label_text(label_name(s + 7))
}

/// The i-panel loop, then the pack's row loop.
pub open spec fn sme_rows_open_text(t: nat, s: nat, l: nat, m: nat, panel_rows: u64) -> Seq<char> {
    sme_i_open_text(t, s, l, m) + sme_pi_open_text(t, s, m, panel_rows)
}

/// The packed row `i0 + pi` into `m+4`, then the pack's k loop (`pk` in
/// `m+5`, below `kc`).
#[verifier::opaque]
pub open spec fn sme_depth_open_text(t: nat, s: nat, m: nat, kc: u64) -> Seq<char> {
    op_line(tmp_name(m + 4), "add"@, tmp_name(m), tmp_name(m + 2)) + store_line("i64"@, "0"@, scratch_name(t + 3))
        + jump_line(label_name(s + 3)) + label_text(label_name(s + 3)) + load_line(
        tmp_name(m + 5),
        "i64"@,
        scratch_name(t + 3),
    ) + op_line(tmp_name(m + 6), "icmp uge"@, tmp_name(m + 5), num::dec_nat(kc as nat)) + branch_line(
        tmp_name(m + 6),
        label_name(s + 5),
        label_name(s + 4),
    ) + label_text(label_name(s + 4))
}

/// The k coordinate in `a`: `k0 + pk` into `m+7` when blocked, `pk` otherwise.
pub open spec fn sme_a_k(l: nat, m: nat, blocked: bool) -> Seq<char> {
    if blocked {
        tmp_name(m + 7)
    } else {
        tmp_name(m + 5)
    }
}

/// The `a` element's index `a.base + a.ci·row + a.ck·k`, ordinals from `n`.
pub open spec fn sme_a_index(n: nat, m: nat, l: nat, site: TileSite, blocked: bool) -> (nat, Option<Seq<char>>, Seq<char>) {
    tile_index_upto(
        n,
        base_text(site.a.base),
        seq![(site.a.ci, tmp_name(m + 4)), (site.a.ck, sme_a_k(l, m, blocked))],
        2,
    )
}

/// An index text, `0` when no term survived.
pub open spec fn index_or_zero(ix: Option<Seq<char>>) -> Seq<char> {
    match ix {
        Some(s) => s,
        None => "0"@,
    }
}

/// The pack's body from ordinal `p`: `ap[pk·ti·t + pi] = a[index]`, then the
/// k and row latches.
#[verifier::opaque]
pub open spec fn sme_pack_text(t: nat, s: nat, m: nat, p: nat, a_index: Seq<char>, site: TileSite, x: SmeCtx) -> Seq<char> {
    let panel_rows = x.block_i * x.side;
    gep_line(tmp_name(p), x.a_llt@, x.a_ptr@, a_index) + load_line(tmp_name(p + 1), x.elem_llt@, tmp_name(p)) + op_line(
        tmp_name(p + 2),
        "mul"@,
        tmp_name(m + 5),
        num::dec_nat(panel_rows as nat),
    ) + op_line(tmp_name(p + 3), "add"@, tmp_name(p + 2), tmp_name(m + 2)) + gep_line(
        tmp_name(p + 4),
        sme_panel_llt(site, x),
        scratch_name(t),
        tmp_name(p + 3),
    ) + store_line(x.elem_llt@, tmp_name(p + 1), tmp_name(p + 4)) + latch_text(
        tmp_name(p + 5),
        tmp_name(m + 5),
        scratch_name(t + 3),
        label_name(s + 3),
        label_name(s + 5),
    ) + latch_text(tmp_name(p + 6), tmp_name(m + 2), scratch_name(t + 4), label_name(s + 6), label_name(s + 8))
}

/// The output row `i0·c` into `p+7`, then the j-panel loop (`j0` in `p+8`,
/// below `c`).
#[verifier::opaque]
pub open spec fn sme_cols_open_text(t: nat, s: nat, m: nat, p: nat, site: TileSite) -> Seq<char> {
    let c = num::dec_nat(site.c as nat);
    op_line(tmp_name(p + 7), "mul"@, tmp_name(m), c) + store_line("i64"@, "0"@, scratch_name(t + 2)) + jump_line(
        label_name(s + 9),
    ) + label_text(label_name(s + 9)) + load_line(tmp_name(p + 8), "i64"@, scratch_name(t + 2)) + op_line(
        tmp_name(p + 9),
        "icmp uge"@,
        tmp_name(p + 8),
        c,
    ) + branch_line(tmp_name(p + 9), label_name(s + 11), label_name(s + 10)) + label_text(label_name(s + 10))
}

/// The in-place `b` index terms: `b.clane·j0`, and `b.ck·k0` when blocked.
pub open spec fn sme_b_terms(p: nat, l: nat, site: TileSite, blocked: bool) -> Seq<(u64, Seq<char>)> {
    if blocked {
        seq![(site.b.clane, tmp_name(p + 8)), (site.b.ck, tmp_name(l + 2))]
    } else {
        seq![(site.b.clane, tmp_name(p + 8))]
    }
}

/// The `b` panel the kernel reads, from ordinal `p+10`: `(next, text, k
/// stride, column-block distance)`, its address the last temporary before
/// `next`. Packed: panel `j0` whole panels in, `k0` packed rows deeper when
/// blocked; rows `pack_w` apart, blocks a whole panel apart. In place: `b`
/// at `b.clane·j0 (+ b.ck·k0)`; rows `b.ck` apart, blocks `t·b.clane` apart.
pub open spec fn sme_b_panel(p: nat, l: nat, site: TileSite, x: SmeCtx, blocked: bool) -> (nat, Seq<char>, int, int) {
    match x.packed {
        Some(pk) => {
            let q = p + 12 + 2 * bit(blocked);
            let text = op_line(tmp_name(p + 10), "mul"@, tmp_name(p + 8), num::dec_nat(site.k as nat)) + if blocked {
                op_line(tmp_name(p + 11), "mul"@, tmp_name(l + 2), num::dec_nat(x.pack_w as nat)) + op_line(
                    tmp_name(p + 12),
                    "add"@,
                    tmp_name(p + 10),
                    tmp_name(p + 11),
                ) + gep_line(tmp_name(p + 13), pk.llt@, pk.ptr@, tmp_name(p + 12))
            } else {
                gep_line(tmp_name(p + 11), pk.llt@, pk.ptr@, tmp_name(p + 10))
            };
            (q, text, x.pack_w as int, x.pack_w * site.k)
        },
        None => {
            let terms = sme_b_terms(p, l, site, blocked);
            let ix = tile_index_upto(p + 10, base_text(site.b.base), terms, terms.len() as int);
            (
                ix.0 + 1,
                ix.2 + gep_line(tmp_name(ix.0), x.b_llt@, x.b_ptr@, index_or_zero(ix.1)),
                site.b.ck as int,
                x.side * site.b.clane,
            )
        },
    }
}

/// One panel-kernel call.
pub open spec fn sme_call_line(kernel: Seq<char>, ap: Seq<char>, b: Seq<char>, out: Seq<char>, stride: int, cols: int, c: u64, kc: u64) -> Seq<char> {
    line_text(
        "call void @"@ + kernel + "(ptr "@ + ap + ", ptr "@ + b + ", ptr "@ + out + ", i64 "@ + num::dec_nat(stride as nat)
            + ", i64 "@ + num::dec_nat(cols as nat) + ", i64 "@ + num::dec_nat(c as nat) + ", i64 "@ + num::dec_nat(
            kc as nat,
        ) + ")"@,
    )
}

/// The first k block (`k0 == 0`, tested into `q+2`) stores, every later
/// one adds; both arms rejoin at `s+17`.
#[verifier::opaque]
pub open spec fn sme_diamond_text(s: nat, l: nat, q: nat, store: Seq<char>, acc: Seq<char>) -> Seq<char> {
    op_line(tmp_name(q + 2), "icmp eq"@, tmp_name(l + 2), "0"@) + branch_line(tmp_name(q + 2), label_name(s + 15), label_name(s + 16))
        + label_text(label_name(s + 15)) + store + jump_line(label_name(s + 17)) + label_text(label_name(s + 16)) + acc
        + jump_line(label_name(s + 17)) + label_text(label_name(s + 17))
}

/// The output block `out[i0·c + j0]` into `q`, `q+1`, then the call: the
/// first k block stores, every later one adds (blocked), or the one store.
#[verifier::opaque]
pub open spec fn sme_out_call_text(
    t: nat,
    s: nat,
    l: nat,
    p: nat,
    q: nat,
    site: TileSite,
    x: SmeCtx,
    stride: int,
    cols: int,
    blocked: bool,
) -> Seq<char> {
    let kc = sme_kc(site, x);
    let bp = tmp_name((q - 1) as nat);
    let store = sme_call_line(x.store_kernel@, scratch_name(t), bp, tmp_name(q + 1), stride, cols, site.c, kc);
    let acc = sme_call_line(x.acc_kernel@, scratch_name(t), bp, tmp_name(q + 1), stride, cols, site.c, kc);
    op_line(tmp_name(q), "add"@, tmp_name(p + 7), tmp_name(p + 8)) + gep_line(tmp_name(q + 1), x.out_llt@, x.out_ptr@, tmp_name(q))
        + if blocked {
        sme_diamond_text(s, l, q, store, acc)
    } else {
        store
    }
}

/// The j, i (and, blocked, k-block) latches, ordinals from `v`.
#[verifier::opaque]
pub open spec fn sme_tails_text(t: nat, s: nat, l: nat, m: nat, p: nat, v: nat, site: TileSite, x: SmeCtx, blocked: bool) -> Seq<char> {
    step_text(
        tmp_name(v),
        tmp_name(p + 8),
        num::dec_nat((x.block_j * x.side) as nat),
        scratch_name(t + 2),
        label_name(s + 9),
        label_name(s + 11),
    ) + step_text(
        tmp_name(v + 1),
        tmp_name(m),
        num::dec_nat((x.block_i * x.side) as nat),
        scratch_name(t + 1),
        label_name(s),
        label_name(s + 2),
    ) + if blocked {
        step_text(
            tmp_name(v + 2),
            tmp_name(l + 2),
            num::dec_nat(sme_kc(site, x) as nat),
            scratch_name(t + 5),
            label_name(s + 12),
            label_name(s + 14),
        )
    } else {
        Seq::empty()
    }
}

/// The ordinals of the emission from `t`: the first label `s`, the row
/// range `l`, the i-panel counter value `m`, and the first ordinal of the
/// `a` index `n`.
pub open spec fn sme_s(t: nat, blocked: bool) -> nat {
    t + 5 + bit(blocked)
}

pub open spec fn sme_l(t: nat, blocked: bool) -> nat {
    sme_s(t, blocked) + 12 + 6 * bit(blocked)
}

pub open spec fn sme_m(t: nat, blocked: bool) -> nat {
    sme_l(t, blocked) + 2 + 2 * bit(blocked)
}

/// Everything up to the j-panel loop's body: the row range (and k-block
/// loop), the i-panel loop, the A pack, and the j-panel loop's opening;
/// with the ordinal it leaves.
pub open spec fn sme_front_text(t: nat, site: TileSite, x: SmeCtx, lo: Seq<char>, hi: Seq<char>) -> (nat, Seq<char>) {
    let blocked = sme_blocked(site, x);
    let s = sme_s(t, blocked);
    let l = sme_l(t, blocked);
    let m = sme_m(t, blocked);
    let a = sme_a_index(m + 7 + bit(blocked), m, l, site, blocked);
    let p = a.0;
    (
        p,
        sme_head_text(t, s, l, site, lo, hi, blocked) + sme_i_open_text(t, s, l, m) + sme_pi_open_text(
            t,
            s,
            m,
            (x.block_i * x.side) as u64,
        ) + sme_depth_open_text(t, s, m, sme_kc(site, x)) + ((if blocked {
            op_line(tmp_name(m + 7), "add"@, tmp_name(l + 2), tmp_name(m + 5))
        } else {
            Seq::empty()
        }) + a.2) + sme_pack_text(t, s, m, p, index_or_zero(a.1), site, x) + sme_cols_open_text(t, s, m, p, site),
    )
}

/// The j-panel loop's body and every latch, from ordinal `p` (the front's
/// end); with the ordinal it leaves.
pub open spec fn sme_back_text(t: nat, p: nat, site: TileSite, x: SmeCtx) -> (nat, Seq<char>) {
    let blocked = sme_blocked(site, x);
    let bn = bit(blocked);
    let s = sme_s(t, blocked);
    let l = sme_l(t, blocked);
    let m = sme_m(t, blocked);
    let b = sme_b_panel(p, l, site, x, blocked);
    let q = b.0;
    let v = q + 2 + bn;
    (
        v + 2 + bn,
        b.1 + sme_out_call_text(t, s, l, p, q, site, x, b.2, b.3, blocked) + sme_tails_text(t, s, l, m, p, v, site, x, blocked),
    )
}

/// The whole streaming-matrix emission from ordinal `t` over the row range
/// `lo/c .. hi/c`, with the counter it leaves. The A panel is `%s<t>`, the
/// counters `%s<t+1>..`, the labels from `s = t + 5 (+1 blocked)`:
///
/// ```text
/// [for k0 in (0..k).step(kc):]
/// for i0 in (lo/c..hi/c).step(ti·t):
///     for pi in 0..ti·t: for pk in 0..kc:
///         ap[pk·ti·t + pi] = a[a.base + a.ci·(i0+pi) + a.ck·(k0+pk)]
///     for j0 in (0..c).step(tj·t):
///         kernel(ap, b-panel(j0, k0), &out[i0·c + j0], stride, blocks, c, kc)
/// ```
#[verifier::opaque]
pub open spec fn sme_text(t: nat, site: TileSite, x: SmeCtx, lo: Seq<char>, hi: Seq<char>) -> (nat, Seq<char>) {
    let front = sme_front_text(t, site, x, lo, hi);
    let back = sme_back_text(t, front.0, site, x);
    (back.0, front.1 + back.1)
}

/// The entry-block allocations: the A panel (`align 64`) and the four (five
/// blocked) `i64` counters.
#[verifier::opaque]
pub open spec fn sme_allocas(e: FnEmit, t: nat, site: TileSite, x: SmeCtx) -> Seq<char> {
    e.alloc_text(scratch_name(t), sme_panel_llt(site, x), Some(64)) + scratch_alloca(t + 1) + scratch_alloca(t + 2)
        + scratch_alloca(t + 3) + scratch_alloca(t + 4) + if sme_blocked(site, x) {
        scratch_alloca(t + 5)
    } else {
        Seq::empty()
    }
}

/// The sizes the emission writes out fit a `u64`.
pub open spec fn sme_fits(site: TileSite, x: SmeCtx) -> bool {
    &&& x.block_i * x.side <= u64::MAX
    &&& x.block_j * x.side <= u64::MAX
    &&& x.block_i * x.side * site.k <= u64::MAX
    &&& site.rows * site.c <= u64::MAX
    &&& x.pack_w * site.k <= u64::MAX
    &&& x.side * site.b.clane <= u64::MAX
}

/// `v` holds the scratch names `%s<t>`, `%s<t+1>`, ...
pub open spec fn scratch_run(v: Seq<String>, t: nat) -> bool {
    forall|i: int| 0 <= i < v.len() ==> #[trigger] v[i]@ == scratch_name((t + i) as nat)
}

/// `v` holds the labels `bb<s>`, `bb<s+1>`, ...
pub open spec fn label_run(v: Seq<String>, s: nat) -> bool {
    forall|i: int| 0 <= i < v.len() ==> #[trigger] v[i]@ == label_name((s + i) as nat)
}

impl<'a> FnEmit<'a> {
    /// The row range, then (blocked) the k-block loop's opening; returns
    /// `i_lo`, `i_hi` and, blocked, `k0`.
    #[verifier::spinoff_prover]
    fn emit_sme_head(
        &mut self,
        site: &TileSite,
        lo: &str,
        hi: &str,
        blocked: bool,
        ctrs: &[String],
        labs: &[String],
        Ghost(t): Ghost<nat>,
        Ghost(s): Ghost<nat>,
    ) -> (r: (String, String, String))
        requires
            old(self).next + 4 <= u32::MAX,
            ctrs@.len() == 5 + bit(blocked),
            labs@.len() == 12 + 6 * bit(blocked),
            scratch_run(ctrs@, t),
            label_run(labs@, s),
        ensures
            r.0@ == tmp_name(old(self).next as nat),
            r.1@ == tmp_name(old(self).next as nat + 1),
            blocked ==> r.2@ == tmp_name(old(self).next as nat + 2),
            final(self).body@ == old(self).body@ + sme_head_text(t, s, old(self).next as nat, *site, lo@, hi@, blocked),
            final(self).next == old(self).next + 2 + 2 * bit(blocked),
            final(self).allocas == old(self).allocas,
            final(self).heap_used == old(self).heap_used,
            final(self).same_setup(*old(self)),
    {
        reveal(sme_head_text);
        let ghost l = old(self).next as nat;
        let ghost o = old(self).body@;
        let c = num::u64_to_string(site.c);
        let i_lo = self.emit_op("udiv", lo, c.as_str());
        let i_hi = self.emit_op("udiv", hi, c.as_str());
        let ghost w = op_line(tmp_name(l), "udiv"@, lo@, c@) + op_line(tmp_name(l + 1), "udiv"@, hi@, c@);
        proof {
            lemma_concat_associative(o, op_line(tmp_name(l), "udiv"@, lo@, c@), op_line(tmp_name(l + 1), "udiv"@, hi@, c@));
        }
        if !blocked {
            assert(self.body@ =~= o + sme_head_text(t, s, l, *site, lo@, hi@, blocked));
            return (i_lo, i_hi, String::from_str(""));
        }
        let ghost o2 = self.body@;
        assert(ctrs@[5]@ == scratch_name(t + 5));
        assert(labs@[12]@ == label_name(s + 12));
        assert(labs@[13]@ == label_name(s + 13));
        assert(labs@[14]@ == label_name(s + 14));
        self.emit_store("i64", "0", ctrs[5].as_str());
        self.jump(labs[12].as_str());
        self.label_line(labs[12].as_str());
        let k0 = self.emit_load("i64", ctrs[5].as_str());
        let kk = num::u64_to_string(site.k);
        let k_end = self.emit_op("icmp uge", k0.as_str(), kk.as_str());
        self.branch(k_end.as_str(), labs[14].as_str(), labs[13].as_str());
        self.label_line(labs[13].as_str());
        let ghost k_text = store_line("i64"@, "0"@, scratch_name(t + 5)) + jump_line(label_name(s + 12)) + label_text(label_name(s + 12))
            + load_line(tmp_name(l + 2), "i64"@, scratch_name(t + 5)) + op_line(
            tmp_name(l + 3),
            "icmp uge"@,
            tmp_name(l + 2),
            num::dec_nat(site.k as nat),
        ) + branch_line(tmp_name(l + 3), label_name(s + 14), label_name(s + 13)) + label_text(label_name(s + 13));
        assert(self.body@ =~= o2 + k_text);
        proof {
            lemma_concat_associative(o, w, k_text);
        }
        (i_lo, i_hi, k0)
    }

    /// The i-panel loop's opening; returns `i0`.
    #[verifier::spinoff_prover]
    fn emit_sme_i_open(
        &mut self,
        i_lo: &str,
        i_hi: &str,
        ctrs: &[String],
        labs: &[String],
        Ghost(t): Ghost<nat>,
        Ghost(s): Ghost<nat>,
        Ghost(l): Ghost<nat>,
    ) -> (r: String)
        requires
            old(self).next + 2 <= u32::MAX,
            ctrs@.len() >= 5,
            labs@.len() >= 12,
            scratch_run(ctrs@, t),
            label_run(labs@, s),
            i_lo@ == tmp_name(l),
            i_hi@ == tmp_name(l + 1),
        ensures
            r@ == tmp_name(old(self).next as nat),
            final(self).body@ == old(self).body@ + sme_i_open_text(t, s, l, old(self).next as nat),
            final(self).next == old(self).next + 2,
            final(self).allocas == old(self).allocas,
            final(self).heap_used == old(self).heap_used,
            final(self).same_setup(*old(self)),
    {
        reveal(sme_i_open_text);
        let ghost m = old(self).next as nat;
        let ghost o = old(self).body@;
        assert(ctrs@[1]@ == scratch_name(t + 1));
        assert(labs@[0]@ == label_name(s + 0));
        assert(labs@[1]@ == label_name(s + 1));
        assert(labs@[2]@ == label_name(s + 2));
        self.emit_store("i64", i_lo, ctrs[1].as_str());
        self.jump(labs[0].as_str());
        self.label_line(labs[0].as_str());
        let i0 = self.emit_load("i64", ctrs[1].as_str());
        let rows_done = self.emit_op("icmp uge", i0.as_str(), i_hi);
        self.branch(rows_done.as_str(), labs[2].as_str(), labs[1].as_str());
        self.label_line(labs[1].as_str());
        assert(self.body@ =~= o + sme_i_open_text(t, s, l, m));
        i0
    }

    /// The pack row loop's opening; returns `pi`.
    #[verifier::spinoff_prover]
    fn emit_sme_pi_open(
        &mut self,
        panel_rows: u64,
        ctrs: &[String],
        labs: &[String],
        Ghost(t): Ghost<nat>,
        Ghost(s): Ghost<nat>,
        Ghost(m): Ghost<nat>,
    ) -> (r: String)
        requires
            old(self).next == m + 2,
            old(self).next + 2 <= u32::MAX,
            ctrs@.len() >= 5,
            labs@.len() >= 12,
            scratch_run(ctrs@, t),
            label_run(labs@, s),
        ensures
            r@ == tmp_name(m + 2),
            final(self).body@ == old(self).body@ + sme_pi_open_text(t, s, m, panel_rows),
            final(self).next == old(self).next + 2,
            final(self).allocas == old(self).allocas,
            final(self).heap_used == old(self).heap_used,
            final(self).same_setup(*old(self)),
    {
        reveal(sme_pi_open_text);
        let ghost o = old(self).body@;
        assert(ctrs@[4]@ == scratch_name(t + 4));
        assert(labs@[6]@ == label_name(s + 6));
        assert(labs@[7]@ == label_name(s + 7));
        assert(labs@[8]@ == label_name(s + 8));
        self.emit_store("i64", "0", ctrs[4].as_str());
        self.jump(labs[6].as_str());
        self.label_line(labs[6].as_str());
        let pi = self.emit_load("i64", ctrs[4].as_str());
        let pr = num::u64_to_string(panel_rows);
        let pi_end = self.emit_op("icmp uge", pi.as_str(), pr.as_str());
        self.branch(pi_end.as_str(), labs[8].as_str(), labs[7].as_str());
        self.label_line(labs[7].as_str());
        assert(self.body@ =~= o + sme_pi_open_text(t, s, m, panel_rows));
        pi
    }

    /// The packed row and the pack's k loop opening; returns `row`, `pk`.
    #[verifier::spinoff_prover]
    #[verifier::rlimit(40)]
    fn emit_sme_depth_open(
        &mut self,
        i0: &str,
        pi: &str,
        kc: u64,
        ctrs: &[String],
        labs: &[String],
        Ghost(t): Ghost<nat>,
        Ghost(s): Ghost<nat>,
        Ghost(m): Ghost<nat>,
    ) -> (r: (String, String))
        requires
            old(self).next == m + 4,
            old(self).next + 3 <= u32::MAX,
            ctrs@.len() >= 5,
            labs@.len() >= 12,
            scratch_run(ctrs@, t),
            label_run(labs@, s),
            i0@ == tmp_name(m),
            pi@ == tmp_name(m + 2),
        ensures
            r.0@ == tmp_name(m + 4),
            r.1@ == tmp_name(m + 5),
            final(self).body@ == old(self).body@ + sme_depth_open_text(t, s, m, kc),
            final(self).next == old(self).next + 3,
            final(self).allocas == old(self).allocas,
            final(self).heap_used == old(self).heap_used,
            final(self).same_setup(*old(self)),
    {
        reveal(sme_depth_open_text);
        let ghost o = old(self).body@;
        assert(ctrs@[3]@ == scratch_name(t + 3));
        assert(labs@[3]@ == label_name(s + 3));
        assert(labs@[4]@ == label_name(s + 4));
        assert(labs@[5]@ == label_name(s + 5));
        let row = self.emit_op("add", i0, pi);
        self.emit_store("i64", "0", ctrs[3].as_str());
        self.jump(labs[3].as_str());
        self.label_line(labs[3].as_str());
        let pk = self.emit_load("i64", ctrs[3].as_str());
        let kcs = num::u64_to_string(kc);
        let pk_end = self.emit_op("icmp uge", pk.as_str(), kcs.as_str());
        self.branch(pk_end.as_str(), labs[5].as_str(), labs[4].as_str());
        self.label_line(labs[4].as_str());
        assert(self.body@ =~= o + sme_depth_open_text(t, s, m, kc));
        (row, pk)
    }

    /// The `a` element's index (and, blocked, the absolute k before it).
    #[verifier::spinoff_prover]
    fn emit_sme_a_index(
        &mut self,
        site: &TileSite,
        row: &str,
        pk: &str,
        k0: &str,
        blocked: bool,
        Ghost(l): Ghost<nat>,
        Ghost(m): Ghost<nat>,
    ) -> (r: String)
        requires
            old(self).next == m + 7,
            old(self).next + 5 <= u32::MAX,
            row@ == tmp_name(m + 4),
            pk@ == tmp_name(m + 5),
            blocked ==> k0@ == tmp_name(l + 2),
        ensures
            ({
                let a = sme_a_index(m + 7 + bit(blocked), m, l, *site, blocked);
                &&& r@ == index_or_zero(a.1)
                &&& final(self).next == a.0
                &&& final(self).body@ == old(self).body@ + (if blocked {
                    op_line(tmp_name(m + 7), "add"@, tmp_name(l + 2), tmp_name(m + 5))
                } else {
                    Seq::empty()
                }) + a.2
            }),
            final(self).allocas == old(self).allocas,
            final(self).heap_used == old(self).heap_used,
            final(self).same_setup(*old(self)),
    {
        let ghost o = old(self).body@;
        let a_k = if blocked {
            self.emit_op("add", k0, pk)
        } else {
            String::from_str(pk)
        };
        let ghost pre = if blocked {
            op_line(tmp_name(m + 7), "add"@, tmp_name(l + 2), tmp_name(m + 5))
        } else {
            Seq::empty()
        };
        assert(self.body@ =~= o + pre);
        assert(a_k@ == sme_a_k(l, m, blocked));
        let terms = [(site.a.ci, row), (site.a.ck, a_k.as_str())];
        assert(term_views(terms@) =~= seq![(site.a.ci, tmp_name(m + 4)), (site.a.ck, sme_a_k(l, m, blocked))]);
        let ix = self.emit_tile_index(Self::base_option(site.a.base), &terms);
        proof {
            lemma_concat_associative(o, pre, sme_a_index(m + 7 + bit(blocked), m, l, *site, blocked).2);
        }
        match ix {
            Some(i) => i,
            None => String::from_str("0"),
        }
    }

    /// One element of the A pack and the k and row latches.
    #[verifier::spinoff_prover]
    fn emit_sme_pack(
        &mut self,
        site: &TileSite,
        x: &SmeCtx,
        ap_llt: &str,
        a_index: &str,
        pk: &str,
        pi: &str,
        ctrs: &[String],
        labs: &[String],
        Ghost(t): Ghost<nat>,
        Ghost(s): Ghost<nat>,
        Ghost(m): Ghost<nat>,
    )
        requires
            old(self).next + 7 <= u32::MAX,
            x.block_i * x.side <= u64::MAX,
            ctrs@.len() >= 5,
            labs@.len() >= 12,
            scratch_run(ctrs@, t),
            label_run(labs@, s),
            ap_llt@ == sme_panel_llt(*site, *x),
            pk@ == tmp_name(m + 5),
            pi@ == tmp_name(m + 2),
        ensures
            final(self).body@ == old(self).body@ + sme_pack_text(t, s, m, old(self).next as nat, a_index@, *site, *x),
            final(self).next == old(self).next + 7,
            final(self).allocas == old(self).allocas,
            final(self).heap_used == old(self).heap_used,
            final(self).same_setup(*old(self)),
    {
        reveal(sme_pack_text);
        let ghost p = old(self).next as nat;
        let ghost o = old(self).body@;
        assert(ctrs@[0]@ == scratch_name(t + 0));
        assert(ctrs@[3]@ == scratch_name(t + 3));
        assert(ctrs@[4]@ == scratch_name(t + 4));
        assert(labs@[3]@ == label_name(s + 3));
        assert(labs@[5]@ == label_name(s + 5));
        assert(labs@[6]@ == label_name(s + 6));
        assert(labs@[8]@ == label_name(s + 8));
        let a_elem = self.emit_gep(x.a_llt.as_str(), x.a_ptr.as_str(), a_index);
        let a_value = self.emit_load(x.elem_llt.as_str(), a_elem.as_str());
        let pr = num::u64_to_string(x.block_i * x.side);
        let ap_row = self.emit_op("mul", pk, pr.as_str());
        let ap_index = self.emit_op("add", ap_row.as_str(), pi);
        let ap_elem = self.emit_gep(ap_llt, ctrs[0].as_str(), ap_index.as_str());
        self.emit_store(x.elem_llt.as_str(), a_value.as_str(), ap_elem.as_str());
        let ghost mid = self.body@;
        self.emit_loop_tail(ctrs[3].as_str(), pk, labs[3].as_str(), labs[5].as_str());
        self.emit_loop_tail(ctrs[4].as_str(), pi, labs[6].as_str(), labs[8].as_str());
        assert(self.body@ =~= o + sme_pack_text(t, s, m, p, a_index@, *site, *x));
    }

    /// The output row and the j-panel loop's opening; returns `out_row`, `j0`.
    #[verifier::spinoff_prover]
    fn emit_sme_cols_open(
        &mut self,
        site: &TileSite,
        i0: &str,
        ctrs: &[String],
        labs: &[String],
        Ghost(t): Ghost<nat>,
        Ghost(s): Ghost<nat>,
        Ghost(m): Ghost<nat>,
        Ghost(p): Ghost<nat>,
    ) -> (r: (String, String))
        requires
            old(self).next == p + 7,
            old(self).next + 3 <= u32::MAX,
            ctrs@.len() >= 5,
            labs@.len() >= 12,
            scratch_run(ctrs@, t),
            label_run(labs@, s),
            i0@ == tmp_name(m),
        ensures
            r.0@ == tmp_name(p + 7),
            r.1@ == tmp_name(p + 8),
            final(self).body@ == old(self).body@ + sme_cols_open_text(t, s, m, p, *site),
            final(self).next == old(self).next + 3,
            final(self).allocas == old(self).allocas,
            final(self).heap_used == old(self).heap_used,
            final(self).same_setup(*old(self)),
    {
        reveal(sme_cols_open_text);
        let ghost o = old(self).body@;
        assert(ctrs@[2]@ == scratch_name(t + 2));
        assert(labs@[9]@ == label_name(s + 9));
        assert(labs@[10]@ == label_name(s + 10));
        assert(labs@[11]@ == label_name(s + 11));
        let c = num::u64_to_string(site.c);
        let out_row = self.emit_op("mul", i0, c.as_str());
        self.emit_store("i64", "0", ctrs[2].as_str());
        self.jump(labs[9].as_str());
        self.label_line(labs[9].as_str());
        let ghost w1 = op_line(tmp_name(p + 7), "mul"@, tmp_name(m), c@) + store_line("i64"@, "0"@, scratch_name(t + 2))
            + jump_line(label_name(s + 9)) + label_text(label_name(s + 9));
        assert(self.body@ =~= o + w1);
        let ghost mid = self.body@;
        let j0 = self.emit_load("i64", ctrs[2].as_str());
        let cols_done = self.emit_op("icmp uge", j0.as_str(), c.as_str());
        self.branch(cols_done.as_str(), labs[11].as_str(), labs[10].as_str());
        self.label_line(labs[10].as_str());
        let ghost w2 = load_line(tmp_name(p + 8), "i64"@, scratch_name(t + 2)) + op_line(tmp_name(p + 9), "icmp uge"@, tmp_name(p + 8), c@)
            + branch_line(tmp_name(p + 9), label_name(s + 11), label_name(s + 10)) + label_text(label_name(s + 10));
        assert(self.body@ =~= mid + w2);
        proof {
            lemma_concat_associative(o, w1, w2);
        }
        assert(sme_cols_open_text(t, s, m, p, *site) =~= w1 + w2);
        (out_row, j0)
    }

    /// The packed `b` panel's address.
    #[verifier::spinoff_prover]
    fn emit_sme_b_packed(
        &mut self,
        site: &TileSite,
        x: &SmeCtx,
        packed: &PackedBuffer,
        j0: &str,
        k0: &str,
        blocked: bool,
        Ghost(l): Ghost<nat>,
        Ghost(p): Ghost<nat>,
    ) -> (r: String)
        requires
            x.packed == Some(*packed),
            old(self).next == p + 10,
            old(self).next + 5 <= u32::MAX,
            j0@ == tmp_name(p + 8),
            blocked ==> k0@ == tmp_name(l + 2),
        ensures
            ({
                let b = sme_b_panel(p, l, *site, *x, blocked);
                &&& final(self).next == b.0
                &&& final(self).body@ == old(self).body@ + b.1
                &&& r@ == tmp_name((b.0 - 1) as nat)
                &&& p + 12 <= b.0 <= p + 14
            }),
            final(self).allocas == old(self).allocas,
            final(self).heap_used == old(self).heap_used,
            final(self).same_setup(*old(self)),
    {
        let ghost o = old(self).body@;
        let kk = num::u64_to_string(site.k);
        let index = self.emit_op("mul", j0, kk.as_str());
        let index = if blocked {
            let pw = num::u64_to_string(x.pack_w);
            let koff = self.emit_op("mul", k0, pw.as_str());
            self.emit_op("add", index.as_str(), koff.as_str())
        } else {
            index
        };
        let ptr = self.emit_gep(packed.llt.as_str(), packed.ptr.as_str(), index.as_str());
        assert(self.body@ =~= o + sme_b_panel(p, l, *site, *x, blocked).1);
        ptr
    }

    /// The in-place `b` panel's address.
    #[verifier::spinoff_prover]
    fn emit_sme_b_in_place(
        &mut self,
        site: &TileSite,
        x: &SmeCtx,
        j0: &str,
        k0: &str,
        blocked: bool,
        Ghost(l): Ghost<nat>,
        Ghost(p): Ghost<nat>,
    ) -> (r: String)
        requires
            x.packed is None,
            old(self).next == p + 10,
            old(self).next + 5 <= u32::MAX,
            j0@ == tmp_name(p + 8),
            blocked ==> k0@ == tmp_name(l + 2),
        ensures
            ({
                let b = sme_b_panel(p, l, *site, *x, blocked);
                &&& final(self).next == b.0
                &&& final(self).body@ == old(self).body@ + b.1
                &&& r@ == tmp_name((b.0 - 1) as nat)
                &&& p + 11 <= b.0 <= p + 15
            }),
            final(self).allocas == old(self).allocas,
            final(self).heap_used == old(self).heap_used,
            final(self).same_setup(*old(self)),
    {
        let ghost o = old(self).body@;
        let ghost terms = sme_b_terms(p, l, *site, blocked);
        proof {
            lemma_tile_index_counter(p + 10, base_text(site.b.base), terms, terms.len() as int);
        }
        let ix = if blocked {
            let tv = [(site.b.clane, j0), (site.b.ck, k0)];
            assert(term_views(tv@) =~= terms);
            self.emit_tile_index(Self::base_option(site.b.base), &tv)
        } else {
            let tv = [(site.b.clane, j0)];
            assert(term_views(tv@) =~= terms);
            self.emit_tile_index(Self::base_option(site.b.base), &tv)
        };
        let index = match ix {
            Some(i) => i,
            None => String::from_str("0"),
        };
        let ptr = self.emit_gep(x.b_llt.as_str(), x.b_ptr.as_str(), index.as_str());
        let ghost ixs = tile_index_upto(p + 10, base_text(site.b.base), terms, terms.len() as int);
        proof {
            lemma_concat_associative(o, ixs.2, gep_line(tmp_name(ixs.0), x.b_llt@, x.b_ptr@, index_or_zero(ixs.1)));
        }
        ptr
    }

    /// One panel-kernel call line.
    fn emit_sme_call(&mut self, kernel: &str, ap: &str, b: &str, out: &str, stride: u64, cols: u64, c: u64, kc: u64)
        ensures
            final(self).body@ == old(self).body@ + sme_call_line(kernel@, ap@, b@, out@, stride as int, cols as int, c, kc),
            final(self).next == old(self).next,
            final(self).allocas == old(self).allocas,
            final(self).heap_used == old(self).heap_used,
            final(self).same_setup(*old(self)),
    {
        let mut line = String::from_str("call void @");
        line.append(kernel);
        line.append("(ptr ");
        line.append(ap);
        line.append(", ptr ");
        line.append(b);
        line.append(", ptr ");
        line.append(out);
        line.append(", i64 ");
        line.append(num::u64_to_string(stride).as_str());
        line.append(", i64 ");
        line.append(num::u64_to_string(cols).as_str());
        line.append(", i64 ");
        line.append(num::u64_to_string(c).as_str());
        line.append(", i64 ");
        line.append(num::u64_to_string(kc).as_str());
        line.append(")");
        self.line(line.as_str());
        assert(line_text(line@) =~= sme_call_line(kernel@, ap@, b@, out@, stride as int, cols as int, c, kc));
    }

    /// The store/accumulate diamond.
    #[verifier::spinoff_prover]
    fn emit_sme_diamond(
        &mut self,
        x: &SmeCtx,
        k0: &str,
        b_panel: &str,
        out_panel: &str,
        stride: u64,
        cols: u64,
        c: u64,
        kc: u64,
        ctrs: &[String],
        labs: &[String],
        Ghost(t): Ghost<nat>,
        Ghost(s): Ghost<nat>,
        Ghost(l): Ghost<nat>,
    )
        requires
            old(self).next >= 2,
            old(self).next + 1 <= u32::MAX,
            ctrs@.len() >= 1,
            labs@.len() == 18,
            scratch_run(ctrs@, t),
            label_run(labs@, s),
            k0@ == tmp_name(l + 2),
        ensures
            final(self).body@ == old(self).body@ + sme_diamond_text(
                s,
                l,
                (old(self).next - 2) as nat,
                sme_call_line(x.store_kernel@, scratch_name(t), b_panel@, out_panel@, stride as int, cols as int, c, kc),
                sme_call_line(x.acc_kernel@, scratch_name(t), b_panel@, out_panel@, stride as int, cols as int, c, kc),
            ),
            final(self).next == old(self).next + 1,
            final(self).allocas == old(self).allocas,
            final(self).heap_used == old(self).heap_used,
            final(self).same_setup(*old(self)),
    {
        reveal(sme_diamond_text);
        let ghost o = old(self).body@;
        assert(ctrs@[0]@ == scratch_name(t + 0));
        assert(labs@[15]@ == label_name(s + 15));
        assert(labs@[16]@ == label_name(s + 16));
        assert(labs@[17]@ == label_name(s + 17));
        let first = self.emit_op("icmp eq", k0, "0");
        self.branch(first.as_str(), labs[15].as_str(), labs[16].as_str());
        self.label_line(labs[15].as_str());
        self.emit_sme_call(x.store_kernel.as_str(), ctrs[0].as_str(), b_panel, out_panel, stride, cols, c, kc);
        self.jump(labs[17].as_str());
        self.label_line(labs[16].as_str());
        self.emit_sme_call(x.acc_kernel.as_str(), ctrs[0].as_str(), b_panel, out_panel, stride, cols, c, kc);
        self.jump(labs[17].as_str());
        self.label_line(labs[17].as_str());
        assert(self.body@ =~= o + sme_diamond_text(
            s,
            l,
            (old(self).next - 2) as nat,
            sme_call_line(x.store_kernel@, scratch_name(t), b_panel@, out_panel@, stride as int, cols as int, c, kc),
            sme_call_line(x.acc_kernel@, scratch_name(t), b_panel@, out_panel@, stride as int, cols as int, c, kc),
        ));
    }

    /// The output block, then the kernel call (the store/accumulate diamond
    /// when blocked).
    #[verifier::spinoff_prover]
    fn emit_sme_out_call(
        &mut self,
        site: &TileSite,
        x: &SmeCtx,
        kc: u64,
        b_panel: &str,
        stride: u64,
        cols: u64,
        out_row: &str,
        j0: &str,
        k0: &str,
        blocked: bool,
        ctrs: &[String],
        labs: &[String],
        Ghost(t): Ghost<nat>,
        Ghost(s): Ghost<nat>,
        Ghost(l): Ghost<nat>,
        Ghost(p): Ghost<nat>,
    )
        requires
            old(self).next >= 1,
            old(self).next + 3 <= u32::MAX,
            kc == sme_kc(*site, *x),
            blocked == sme_blocked(*site, *x),
            ctrs@.len() >= 1,
            labs@.len() == 12 + 6 * bit(blocked),
            scratch_run(ctrs@, t),
            label_run(labs@, s),
            b_panel@ == tmp_name((old(self).next - 1) as nat),
            out_row@ == tmp_name(p + 7),
            j0@ == tmp_name(p + 8),
            blocked ==> k0@ == tmp_name(l + 2),
        ensures
            final(self).body@ == old(self).body@ + sme_out_call_text(
                t,
                s,
                l,
                p,
                old(self).next as nat,
                *site,
                *x,
                stride as int,
                cols as int,
                blocked,
            ),
            final(self).next == old(self).next + 2 + bit(blocked),
            final(self).allocas == old(self).allocas,
            final(self).heap_used == old(self).heap_used,
            final(self).same_setup(*old(self)),
    {
        reveal(sme_out_call_text);
        let ghost q = old(self).next as nat;
        let ghost o = old(self).body@;
        assert(ctrs@[0]@ == scratch_name(t + 0));
        let out_index = self.emit_op("add", out_row, j0);
        let out_panel = self.emit_gep(x.out_llt.as_str(), x.out_ptr.as_str(), out_index.as_str());
        let ghost w1 = op_line(tmp_name(q), "add"@, tmp_name(p + 7), tmp_name(p + 8)) + gep_line(tmp_name(q + 1), x.out_llt@, x.out_ptr@, tmp_name(q));
        assert(self.body@ =~= o + w1);
        let ghost mid = self.body@;
        let ghost store = sme_call_line(x.store_kernel@, scratch_name(t), tmp_name((q - 1) as nat), tmp_name(q + 1), stride as int, cols as int, site.c, kc);
        let ghost acc = sme_call_line(x.acc_kernel@, scratch_name(t), tmp_name((q - 1) as nat), tmp_name(q + 1), stride as int, cols as int, site.c, kc);
        if blocked {
            self.emit_sme_diamond(x, k0, b_panel, out_panel.as_str(), stride, cols, site.c, kc, ctrs, labs, Ghost(t), Ghost(s), Ghost(l));
            proof {
                lemma_concat_associative(o, w1, sme_diamond_text(s, l, q, store, acc));
            }
        } else {
            self.emit_sme_call(x.store_kernel.as_str(), ctrs[0].as_str(), b_panel, out_panel.as_str(), stride, cols, site.c, kc);
            proof {
                lemma_concat_associative(o, w1, store);
            }
        }
    }

    /// `<next> = add i64 <iv>, <step>`, stored back, back to `head`, then `exit`.
    fn emit_step(&mut self, iv: &str, step: &str, ctr: &str, head: &str, exit: &str)
        requires
            old(self).next < u32::MAX,
        ensures
            final(self).body@ == old(self).body@ + step_text(tmp_name(old(self).next as nat), iv@, step@, ctr@, head@, exit@),
            final(self).next == old(self).next + 1,
            final(self).allocas == old(self).allocas,
            final(self).heap_used == old(self).heap_used,
            final(self).same_setup(*old(self)),
    {
        let ghost o = old(self).body@;
        let next = self.emit_op("add", iv, step);
        self.emit_store("i64", next.as_str(), ctr);
        self.jump(head);
        self.label_line(exit);
        assert(self.body@ =~= o + step_text(next@, iv@, step@, ctr@, head@, exit@));
    }

    /// The j, i and (blocked) k-block latches.
    #[verifier::spinoff_prover]
    fn emit_sme_tails(
        &mut self,
        site: &TileSite,
        x: &SmeCtx,
        kc: u64,
        j0: &str,
        i0: &str,
        k0: &str,
        blocked: bool,
        ctrs: &[String],
        labs: &[String],
        Ghost(t): Ghost<nat>,
        Ghost(s): Ghost<nat>,
        Ghost(l): Ghost<nat>,
        Ghost(m): Ghost<nat>,
        Ghost(p): Ghost<nat>,
    )
        requires
            old(self).next + 3 <= u32::MAX,
            x.block_i * x.side <= u64::MAX,
            x.block_j * x.side <= u64::MAX,
            kc == sme_kc(*site, *x),
            ctrs@.len() == 5 + bit(blocked),
            labs@.len() == 12 + 6 * bit(blocked),
            scratch_run(ctrs@, t),
            label_run(labs@, s),
            j0@ == tmp_name(p + 8),
            i0@ == tmp_name(m),
            blocked ==> k0@ == tmp_name(l + 2),
        ensures
            final(self).body@ == old(self).body@ + sme_tails_text(t, s, l, m, p, old(self).next as nat, *site, *x, blocked),
            final(self).next == old(self).next + 2 + bit(blocked),
            final(self).allocas == old(self).allocas,
            final(self).heap_used == old(self).heap_used,
            final(self).same_setup(*old(self)),
    {
        reveal(sme_tails_text);
        let ghost v = old(self).next as nat;
        let ghost o = old(self).body@;
        assert(ctrs@[1]@ == scratch_name(t + 1));
        assert(ctrs@[2]@ == scratch_name(t + 2));
        assert(labs@[0]@ == label_name(s + 0));
        assert(labs@[2]@ == label_name(s + 2));
        assert(labs@[9]@ == label_name(s + 9));
        assert(labs@[11]@ == label_name(s + 11));
        let pc = num::u64_to_string(x.block_j * x.side);
        self.emit_step(j0, pc.as_str(), ctrs[2].as_str(), labs[9].as_str(), labs[11].as_str());
        let ghost s1 = step_text(
            tmp_name(v),
            tmp_name(p + 8),
            num::dec_nat((x.block_j * x.side) as nat),
            scratch_name(t + 2),
            label_name(s + 9),
            label_name(s + 11),
        );
        let pr = num::u64_to_string(x.block_i * x.side);
        self.emit_step(i0, pr.as_str(), ctrs[1].as_str(), labs[0].as_str(), labs[2].as_str());
        let ghost s2 = step_text(
            tmp_name(v + 1),
            tmp_name(m),
            num::dec_nat((x.block_i * x.side) as nat),
            scratch_name(t + 1),
            label_name(s),
            label_name(s + 2),
        );
        proof {
            lemma_concat_associative(o, s1, s2);
        }
        if blocked {
            assert(ctrs@[5]@ == scratch_name(t + 5));
            assert(labs@[12]@ == label_name(s + 12));
            assert(labs@[14]@ == label_name(s + 14));
            let kcs = num::u64_to_string(kc);
            self.emit_step(k0, kcs.as_str(), ctrs[5].as_str(), labs[12].as_str(), labs[14].as_str());
            let ghost s3 = step_text(
                tmp_name(v + 2),
                tmp_name(l + 2),
                num::dec_nat(kc as nat),
                scratch_name(t + 5),
                label_name(s + 12),
                label_name(s + 14),
            );
            proof {
                lemma_concat_associative(o, s1 + s2, s3);
            }
        } else {
            assert(self.body@ =~= o + (s1 + s2) + Seq::<char>::empty());
        }
    }

    /// Everything up to the j-panel loop's body.
    #[verifier::spinoff_prover]
    #[verifier::rlimit(40)]
    fn emit_sme_front(
        &mut self,
        site: &TileSite,
        x: &SmeCtx,
        kc: u64,
        blocked: bool,
        lo: &str,
        hi: &str,
        ap_llt: &str,
        ctrs: &[String],
        labs: &[String],
        Ghost(t): Ghost<nat>,
    ) -> (r: (String, String, String, String))
        requires
            old(self).next == sme_l(t, blocked),
            old(self).next + 40 <= u32::MAX,
            sme_fits(*site, *x),
            blocked == sme_blocked(*site, *x),
            kc == sme_kc(*site, *x),
            ap_llt@ == sme_panel_llt(*site, *x),
            ctrs@.len() == 5 + bit(blocked),
            labs@.len() == 12 + 6 * bit(blocked),
            scratch_run(ctrs@, t),
            label_run(labs@, sme_s(t, blocked)),
        ensures
            ({
                let f = sme_front_text(t, *site, *x, lo@, hi@);
                &&& final(self).next == f.0 + 10
                &&& final(self).body@ == old(self).body@ + f.1
                &&& sme_m(t, blocked) + 7 <= f.0 <= sme_m(t, blocked) + 12
                &&& r.0@ == tmp_name(sme_m(t, blocked))
                &&& r.1@ == tmp_name(f.0 + 7)
                &&& r.2@ == tmp_name(f.0 + 8)
                &&& blocked ==> r.3@ == tmp_name(sme_l(t, blocked) + 2)
            }),
            final(self).allocas == old(self).allocas,
            final(self).heap_used == old(self).heap_used,
            final(self).same_setup(*old(self)),
    {
        let ghost bn = bit(blocked);
        let ghost s = sme_s(t, blocked);
        let ghost l = sme_l(t, blocked);
        let ghost m = sme_m(t, blocked);
        let ghost o = self.body@;
        let (i_lo, i_hi, k0) = self.emit_sme_head(site, lo, hi, blocked, ctrs, labs, Ghost(t), Ghost(s));
        let ghost w1 = sme_head_text(t, s, l, *site, lo@, hi@, blocked);
        let i0 = self.emit_sme_i_open(i_lo.as_str(), i_hi.as_str(), ctrs, labs, Ghost(t), Ghost(s), Ghost(l));
        let ghost w2 = sme_i_open_text(t, s, l, m);
        proof {
            lemma_concat_associative(o, w1, w2);
        }
        let pi = self.emit_sme_pi_open(x.block_i * x.side, ctrs, labs, Ghost(t), Ghost(s), Ghost(m));
        let ghost w3 = sme_pi_open_text(t, s, m, (x.block_i * x.side) as u64);
        proof {
            lemma_concat_associative(o, w1 + w2, w3);
        }
        let (row, pk) = self.emit_sme_depth_open(i0.as_str(), pi.as_str(), kc, ctrs, labs, Ghost(t), Ghost(s), Ghost(m));
        let ghost w4 = sme_depth_open_text(t, s, m, kc);
        proof {
            lemma_concat_associative(o, w1 + w2 + w3, w4);
            lemma_tile_index_counter(
                m + 7 + bn,
                base_text(site.a.base),
                seq![(site.a.ci, tmp_name(m + 4)), (site.a.ck, sme_a_k(l, m, blocked))],
                2,
            );
        }
        let ghost acc4 = w1 + w2 + w3 + w4;
        let a_index = self.emit_sme_a_index(site, row.as_str(), pk.as_str(), k0.as_str(), blocked, Ghost(l), Ghost(m));
        let ghost a = sme_a_index(m + 7 + bn, m, l, *site, blocked);
        let ghost w5 = (if blocked {
            op_line(tmp_name(m + 7), "add"@, tmp_name(l + 2), tmp_name(m + 5))
        } else {
            Seq::empty()
        }) + a.2;
        proof {
            lemma_concat_associative(o, acc4, w5);
        }
        let ghost p = a.0;
        self.emit_sme_pack(site, x, ap_llt, a_index.as_str(), pk.as_str(), pi.as_str(), ctrs, labs, Ghost(t), Ghost(s), Ghost(m));
        let ghost w6 = sme_pack_text(t, s, m, p, index_or_zero(a.1), *site, *x);
        proof {
            lemma_concat_associative(o, acc4 + w5, w6);
        }
        let (out_row, j0) = self.emit_sme_cols_open(site, i0.as_str(), ctrs, labs, Ghost(t), Ghost(s), Ghost(m), Ghost(p));
        let ghost w7 = sme_cols_open_text(t, s, m, p, *site);
        proof {
            lemma_concat_associative(o, acc4 + w5 + w6, w7);
        }
        (i0, out_row, j0, k0)
    }

    /// The j-panel loop's body and every latch.
    #[verifier::spinoff_prover]
    #[verifier::rlimit(40)]
    fn emit_sme_back(
        &mut self,
        site: &TileSite,
        x: &SmeCtx,
        kc: u64,
        blocked: bool,
        i0: &str,
        out_row: &str,
        j0: &str,
        k0: &str,
        ctrs: &[String],
        labs: &[String],
        Ghost(t): Ghost<nat>,
        Ghost(p): Ghost<nat>,
    )
        requires
            old(self).next == p + 10,
            old(self).next + 15 <= u32::MAX,
            sme_fits(*site, *x),
            blocked == sme_blocked(*site, *x),
            kc == sme_kc(*site, *x),
            ctrs@.len() == 5 + bit(blocked),
            labs@.len() == 12 + 6 * bit(blocked),
            scratch_run(ctrs@, t),
            label_run(labs@, sme_s(t, blocked)),
            i0@ == tmp_name(sme_m(t, blocked)),
            out_row@ == tmp_name(p + 7),
            j0@ == tmp_name(p + 8),
            blocked ==> k0@ == tmp_name(sme_l(t, blocked) + 2),
        ensures
            ({
                let b = sme_back_text(t, p, *site, *x);
                &&& final(self).next == b.0
                &&& final(self).body@ == old(self).body@ + b.1
            }),
            final(self).allocas == old(self).allocas,
            final(self).heap_used == old(self).heap_used,
            final(self).same_setup(*old(self)),
    {
        let ghost s = sme_s(t, blocked);
        let ghost l = sme_l(t, blocked);
        let ghost m = sme_m(t, blocked);
        let ghost o = self.body@;
        let (b_panel, stride, cols) = match &x.packed {
            Some(packed) => {
                let b = self.emit_sme_b_packed(site, x, packed, j0, k0, blocked, Ghost(l), Ghost(p));
                (b, x.pack_w, x.pack_w * site.k)
            },
            None => {
                let b = self.emit_sme_b_in_place(site, x, j0, k0, blocked, Ghost(l), Ghost(p));
                (b, site.b.ck, x.side * site.b.clane)
            },
        };
        let ghost bp = sme_b_panel(p, l, *site, *x, blocked);
        assert(stride == bp.2 && cols == bp.3);
        let ghost q = bp.0;
        self.emit_sme_out_call(
            site, x, kc, b_panel.as_str(), stride, cols, out_row, j0, k0, blocked, ctrs, labs, Ghost(t), Ghost(s),
            Ghost(l), Ghost(p),
        );
        let ghost w2 = sme_out_call_text(t, s, l, p, q, *site, *x, bp.2, bp.3, blocked);
        proof {
            lemma_concat_associative(o, bp.1, w2);
        }
        let ghost v = q + 2 + bit(blocked);
        self.emit_sme_tails(site, x, kc, j0, i0, k0, blocked, ctrs, labs, Ghost(t), Ghost(s), Ghost(l), Ghost(m), Ghost(p));
        proof {
            lemma_concat_associative(o, bp.1 + w2, sme_tails_text(t, s, l, m, p, v, *site, *x, blocked));
        }
    }

    /// The A panel `%s<t>`, one k block deep, in the entry block; returns its
    /// type and name.
    #[verifier::spinoff_prover]
    fn emit_sme_panel(&mut self, site: &TileSite, x: &SmeCtx, kc: u64) -> (r: (String, String))
        requires
            old(self).next < u32::MAX,
            sme_fits(*site, *x),
            kc == sme_kc(*site, *x),
            llt::llt_ok(sme_panel_llt(*site, *x)),
        ensures
            r.0@ == sme_panel_llt(*site, *x),
            r.1@ == scratch_name(old(self).next as nat),
            final(self).allocas@ == old(self).allocas@ + old(self).alloc_text(
                scratch_name(old(self).next as nat),
                sme_panel_llt(*site, *x),
                Some(64),
            ),
            final(self).heap_used == (old(self).heap_used || old(self).alloc_heap(sme_panel_llt(*site, *x))),
            final(self).next == old(self).next + 1,
            final(self).body == old(self).body,
            final(self).same_setup(*old(self)),
    {
        let ghost start = *old(self);
        let panel_rows = x.block_i * x.side;
        proof {
            assert(panel_rows * kc <= panel_rows * site.k) by (nonlinear_arith)
                requires
                    kc <= site.k,
            ;
        }
        let mut ap_llt = String::from_str("[");
        ap_llt.append(num::u64_to_string(panel_rows * kc).as_str());
        ap_llt.append(" x ");
        ap_llt.append(x.elem_llt.as_str());
        ap_llt.append("]");
        assert(ap_llt@ =~= sme_panel_llt(*site, *x));
        let n = self.fresh();
        let mut ap = String::from_str("%s");
        ap.append(num::u64_to_string(n as u64).as_str());
        assert(start.alloc_text(ap@, ap_llt@, Some(64)) == self.alloc_text(ap@, ap_llt@, Some(64)));
        assert(start.alloc_heap(ap_llt@) == self.alloc_heap(ap_llt@));
        self.entry_alloc(ap.as_str(), ap_llt.as_str(), Some(64));
        (ap_llt, ap)
    }

    /// The panel `ap` followed by four fresh `i64` counters (five blocked).
    #[verifier::spinoff_prover]
    fn emit_sme_counters(&mut self, ap: String, blocked: bool, Ghost(t): Ghost<nat>) -> (ctrs: Vec<String>)
        requires
            old(self).next == t + 1,
            old(self).next + 5 <= u32::MAX,
            ap@ == scratch_name(t),
        ensures
            ctrs@.len() == 5 + bit(blocked),
            scratch_run(ctrs@, t),
            final(self).allocas@ == old(self).allocas@ + scratch_alloca(t + 1) + scratch_alloca(t + 2) + scratch_alloca(t + 3)
                + scratch_alloca(t + 4) + if blocked {
                scratch_alloca(t + 5)
            } else {
                Seq::empty()
            },
            final(self).next == old(self).next + 4 + bit(blocked),
            final(self).body == old(self).body,
            final(self).heap_used == old(self).heap_used,
            final(self).same_setup(*old(self)),
    {
        let ghost a = old(self).allocas@;
        let c1 = self.scratch("i64");
        assert(self.allocas@ =~= a + scratch_alloca(t + 1));
        let c2 = self.scratch("i64");
        assert(self.allocas@ =~= a + scratch_alloca(t + 1) + scratch_alloca(t + 2));
        let c3 = self.scratch("i64");
        assert(self.allocas@ =~= a + scratch_alloca(t + 1) + scratch_alloca(t + 2) + scratch_alloca(t + 3));
        let c4 = self.scratch("i64");
        let ghost w4 = a + scratch_alloca(t + 1) + scratch_alloca(t + 2) + scratch_alloca(t + 3) + scratch_alloca(t + 4);
        assert(self.allocas@ =~= w4);
        let mut ctrs: Vec<String> = vec![ap, c1, c2, c3, c4];
        if blocked {
            let c5 = self.scratch("i64");
            assert(self.allocas@ =~= w4 + scratch_alloca(t + 5));
            ctrs.push(c5);
        } else {
            assert(self.allocas@ =~= w4 + Seq::<char>::empty());
        }
        assert forall|i: int| 0 <= i < ctrs@.len() implies #[trigger] ctrs@[i]@ == scratch_name((t + i) as nat) by {
            if i == 0 {
            } else if i == 1 {
            } else if i == 2 {
            } else if i == 3 {
            } else if i == 4 {
            } else {
            }
        }
        ctrs
    }

    /// `n` fresh labels, in order.
    fn emit_labels(&mut self, n: usize) -> (labs: Vec<String>)
        requires
            old(self).next + n <= u32::MAX,
        ensures
            labs@.len() == n,
            label_run(labs@, old(self).next as nat),
            final(self).next == old(self).next + n,
            final(self).body == old(self).body,
            final(self).allocas == old(self).allocas,
            final(self).heap_used == old(self).heap_used,
            final(self).same_setup(*old(self)),
    {
        let mut labs: Vec<String> = Vec::new();
        while labs.len() < n
            invariant
                labs@.len() <= n,
                old(self).next + n <= u32::MAX,
                label_run(labs@, old(self).next as nat),
                self.next == old(self).next + labs@.len(),
                self.body == old(self).body,
                self.allocas == old(self).allocas,
                self.heap_used == old(self).heap_used,
                self.same_setup(*old(self)),
            decreases n - labs@.len(),
        {
            let lab = self.label();
            labs.push(lab);
        }
        labs
    }

    /// The A panel, the counters and the labels; returns the panel's type,
    /// the panel and counters, the labels, the k-block depth and whether the
    /// k axis is blocked.
    #[verifier::spinoff_prover]
    fn emit_sme_setup(&mut self, site: &TileSite, x: &SmeCtx) -> (r: (String, Vec<String>, Vec<String>, u64, bool))
        requires
            old(self).next + 80 <= u32::MAX,
            sme_fits(*site, *x),
            llt::llt_ok(sme_panel_llt(*site, *x)),
        ensures
            ({
                let t = old(self).next as nat;
                &&& r.4 == sme_blocked(*site, *x)
                &&& r.3 == sme_kc(*site, *x)
                &&& r.0@ == sme_panel_llt(*site, *x)
                &&& r.1@.len() == 5 + bit(r.4)
                &&& r.2@.len() == 12 + 6 * bit(r.4)
                &&& scratch_run(r.1@, t)
                &&& label_run(r.2@, sme_s(t, r.4))
                &&& final(self).next == sme_l(t, r.4)
                &&& final(self).body == old(self).body
                &&& final(self).allocas@ == old(self).allocas@ + sme_allocas(*old(self), t, *site, *x)
                &&& final(self).heap_used == (old(self).heap_used || old(self).alloc_heap(sme_panel_llt(*site, *x)))
            }),
            final(self).same_setup(*old(self)),
    {
        let ghost t = old(self).next as nat;
        let ghost a0 = old(self).allocas@;
        let ghost start = *old(self);
        let blocked = x.kc_nest && site.k > x.kc_budget && is_multiple(site.k, x.kc_budget);
        let kc = if blocked { x.kc_budget } else { site.k };
        let (ap_llt, ap) = self.emit_sme_panel(site, x, kc);
        let ghost a1 = a0 + start.alloc_text(scratch_name(t), sme_panel_llt(*site, *x), Some(64));
        let ctrs = self.emit_sme_counters(ap, blocked, Ghost(t));
        proof {
            reveal(sme_allocas);
        }
        assert(self.allocas@ =~= a0 + sme_allocas(start, t, *site, *x));
        let nlabs: usize = if blocked { 18 } else { 12 };
        let labs = self.emit_labels(nlabs);
        (ap_llt, ctrs, labs, kc, blocked)
    }

    /// Emit the site as a grid of `ti·t × tj·t` streaming panels over the
    /// row range (the task slice when the range is split), as `sme_text`
    /// spells it: the A panel (one k block deep) goes to the entry block with
    /// `align 64`, followed by four `i64` counters (five when the k axis is
    /// blocked).
    #[verifier::spinoff_prover]
    pub fn emit_tiled_map_sme(&mut self, site: &TileSite, x: &SmeCtx)
        requires
            old(self).next + 80 <= u32::MAX,
            sme_fits(*site, *x),
            llt::llt_ok(sme_panel_llt(*site, *x)),
        ensures
            ({
                let t = old(self).next as nat;
                let bounds = pack_bounds(old(self).split_range, (site.rows * site.c) as nat);
                let r = sme_text(t, *site, *x, bounds.0, bounds.1);
                &&& final(self).next == r.0
                &&& final(self).body@ == old(self).body@ + r.1
                &&& final(self).allocas@ == old(self).allocas@ + sme_allocas(*old(self), t, *site, *x)
                &&& final(self).heap_used == (old(self).heap_used || old(self).alloc_heap(sme_panel_llt(*site, *x)))
            }),
            final(self).same_setup(*old(self)),
    {
        let ghost t = old(self).next as nat;
        let (ap_llt, ctrs, labs, kc, blocked) = self.emit_sme_setup(site, x);
        let (lo, hi) = self.bulk_bounds(site.rows * site.c);
        let ghost bounds = pack_bounds(old(self).split_range, (site.rows * site.c) as nat);
        assert(lo@ == bounds.0 && hi@ == bounds.1);
        let (i0, out_row, j0, k0) = self.emit_sme_front(
            site, x, kc, blocked, lo.as_str(), hi.as_str(), ap_llt.as_str(), ctrs.as_slice(), labs.as_slice(), Ghost(t),
        );
        let ghost f = sme_front_text(t, *site, *x, lo@, hi@);
        self.emit_sme_back(
            site, x, kc, blocked, i0.as_str(), out_row.as_str(), j0.as_str(), k0.as_str(), ctrs.as_slice(),
            labs.as_slice(), Ghost(t), Ghost(f.0),
        );
        proof {
            reveal(sme_text);
            lemma_concat_associative(old(self).body@, f.1, sme_back_text(t, f.0, *site, *x).1);
        }
    }
}

} // verus!
