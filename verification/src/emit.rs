//! The text side of a function emitter: the entry-block allocation buffer,
//! the body buffer, and the single ordinal counter that names every
//! temporary, label and scratch slot.
use vstd::prelude::*;
use vstd::string::*;
use crate::llt;
use crate::num;
use crate::frame::FrameLayout;
use crate::host::HostEmit;
use crate::ir;
use crate::ir::{CategoryIr, ElemSrc, GuardSite, Operation, Ty};
use crate::site::TileSite;
use crate::guard;

verus! {

/// Host guards call the trap runtime; task and task-body guards record into the run.
pub enum GuardFlavor {
    Host,
    Task,
    TaskBody(u32),
}

pub struct FnEmit<'a> {
    pub ir: &'a CategoryIr,
    /// The function being emitted.
    pub f: usize,
    /// Each object's storage slot, once known (by object id).
    pub slots: Vec<Option<String>>,
    /// The shared frame of a parallel entry.
    pub frame: Option<FrameLayout>,
    /// Frame-field addresses resolved so far.
    pub frame_geps: String,
    /// A task-flavor body wrote runtime state.
    pub runtime_write: bool,
    /// Entry-block allocations.
    pub allocas: String,
    /// Body instructions.
    pub body: String,
    /// The next ordinal: shared by temporaries, labels and scratch slots.
    pub next: u32,
    pub guard_flavor: GuardFlavor,
    /// Collection loops run over `%lo..%hi` rather than `0..n`.
    pub split_range: bool,
    pub perf_timing: bool,
    /// The move-panel traversal's `(width, block)`, when enabled.
    pub move_panel: Option<(u64, u64)>,
    /// Entry blocks of at least this many bytes go to the arena.
    pub heap_min_bytes: u64,
    /// This emitter's entry block runs once per program, so it may use the arena.
    pub heap_ok: bool,
    /// At least one block went to the arena: a teardown is owed.
    pub heap_used: bool,
    /// Each array's element law, when it has one (by object id).
    pub elem: Vec<Option<ElemSrc>>,
    /// The arrays no one needs materialized: every consumer rebuilds the
    /// element from its law (by object id).
    pub elided_arrays: Vec<bool>,
    /// The results of in-place updates, which get no storage of their own
    /// (by object id).
    pub elided_updates: Vec<bool>,
    /// Each in-place update's result, aliased to the array it overwrote (by
    /// object id).
    pub update_aliases: Vec<Option<usize>>,
    /// The waits a parallel entry's host injects into its walk.
    pub host: Option<HostEmit>,
    /// What the IR's analyses and the emit options decided for this function.
    pub plan: EmitPlan,
}

/// The per-function plans and options an emitter starts from.
pub struct EmitPlan {
    /// The morphisms only one arm of a gated conditional needs (by morphism
    /// id): the walk leaves them to their branch.
    pub gated: Vec<bool>,
    /// Each gated conditional, at its `Phi` (by morphism id).
    pub guard_sites: Vec<Option<GuardSite>>,
    /// The function's tile sites (by morphism id), when tiling is on.
    pub tile_plan: Option<Vec<Option<TileSite>>>,
    /// The packing rung may run.
    pub packing: bool,
    /// Floating-point contraction is allowed.
    pub contract: bool,
    /// The k-blocked nests may run.
    pub kc_nest: bool,
}

/// `%t<n>`.
pub open spec fn tmp_name(n: nat) -> Seq<char> {
    "%t"@ + num::dec_nat(n)
}

/// `bb<n>`.
pub open spec fn label_name(n: nat) -> Seq<char> {
    "bb"@ + num::dec_nat(n)
}

/// `%s<n>`.
pub open spec fn scratch_name(n: nat) -> Seq<char> {
    "%s"@ + num::dec_nat(n)
}

/// Names minted from different ordinals differ, and a temporary, a label and
/// a scratch slot never share a name. Since `fresh` hands out each ordinal
/// once (the counter only grows), every name an emitter mints over any
/// sequence of calls is distinct from every other.
pub proof fn lemma_names_distinct(a: nat, b: nat)
    ensures
        a != b ==> tmp_name(a) != tmp_name(b),
        a != b ==> label_name(a) != label_name(b),
        a != b ==> scratch_name(a) != scratch_name(b),
        tmp_name(a) != label_name(b),
        tmp_name(a) != scratch_name(b),
        label_name(a) != scratch_name(b),
{
    reveal_strlit("%t");
    reveal_strlit("bb");
    reveal_strlit("%s");
    num::lemma_dec_nat_injective(a, b);
    let (da, db) = (num::dec_nat(a), num::dec_nat(b));
    if tmp_name(a) == tmp_name(b) {
        assert(tmp_name(a).subrange(2, tmp_name(a).len() as int) =~= da);
        assert(tmp_name(b).subrange(2, tmp_name(b).len() as int) =~= db);
    }
    if label_name(a) == label_name(b) {
        assert(label_name(a).subrange(2, label_name(a).len() as int) =~= da);
        assert(label_name(b).subrange(2, label_name(b).len() as int) =~= db);
    }
    if scratch_name(a) == scratch_name(b) {
        assert(scratch_name(a).subrange(2, scratch_name(a).len() as int) =~= da);
        assert(scratch_name(b).subrange(2, scratch_name(b).len() as int) =~= db);
    }
    assert(tmp_name(a)[0] == '%' && label_name(b)[0] == 'b');
    assert(tmp_name(a)[1] == 't' && scratch_name(b)[1] == 's');
    assert(label_name(a)[0] == 'b' && scratch_name(b)[0] == '%');
}

/// One indented body line.
pub open spec fn line_text(s: Seq<char>) -> Seq<char> {
    "  "@ + s + "\n"@
}

/// A block label line.
pub open spec fn label_text(name: Seq<char>) -> Seq<char> {
    name + ":\n"@
}

/// `<t> = <code> i64 <lhs>, <rhs>` as a body line.
pub open spec fn op_line(t: Seq<char>, code: Seq<char>, lhs: Seq<char>, rhs: Seq<char>) -> Seq<char> {
    line_text(t + " = "@ + code + " i64 "@ + lhs + ", "@ + rhs)
}

/// The move-panel index: the counter `p = ((rb*CB + cb)*B + dr)*B + dc`
/// decomposed, and `(rb*B + dr)*W + cb*B + dc` recomposed.
pub open spec fn panel_perm(p: int, w: int, b: int) -> int {
    let dc = p % b;
    let q = p / b;
    let dr = q % b;
    let q2 = q / b;
    let cb = q2 % (w / b);
    let rb = q2 / (w / b);
    (rb * b + dr) * w + cb * b + dc
}

/// The move-panel traversal applies: the `b x b` panel tiles the
/// `(n / w) x w` geometry both ways, with at least two rows.
pub open spec fn panel_applies(w: u64, b: u64, n: u64) -> bool {
    w != 0 && b != 0 && n % w == 0 && n / w >= 2 && w % b == 0 && (n / w) % b == 0
}

/// `body` followed by the text `move_panel_index` appends, its first
/// temporary numbered `t`.
pub open spec fn panel_text(body: Seq<char>, t: nat, iv: Seq<char>, w: u64, b: u64) -> Seq<char> {
    let cbs = num::dec_nat((w / b) as nat);
    let bs = num::dec_nat(b as nat);
    body + op_line(tmp_name(t), "urem"@, iv, bs) + op_line(tmp_name(t + 1), "udiv"@, iv, bs) + op_line(
        tmp_name(t + 2),
        "urem"@,
        tmp_name(t + 1),
        bs,
    ) + op_line(tmp_name(t + 3), "udiv"@, tmp_name(t + 1), bs) + op_line(
        tmp_name(t + 4),
        "urem"@,
        tmp_name(t + 3),
        cbs,
    ) + op_line(tmp_name(t + 5), "udiv"@, tmp_name(t + 3), cbs) + op_line(
        tmp_name(t + 6),
        "mul"@,
        tmp_name(t + 5),
        bs,
    ) + op_line(tmp_name(t + 7), "add"@, tmp_name(t + 6), tmp_name(t + 2)) + op_line(
        tmp_name(t + 8),
        "mul"@,
        tmp_name(t + 7),
        num::dec_nat(w as nat),
    ) + op_line(tmp_name(t + 9), "mul"@, tmp_name(t + 4), bs) + op_line(
        tmp_name(t + 10),
        "add"@,
        tmp_name(t + 8),
        tmp_name(t + 9),
    ) + op_line(tmp_name(t + 11), "add"@, tmp_name(t + 10), tmp_name(t))
}

/// `<t> = select i1 <cond>, i64 <a>, i64 <b>` as a body line.
pub open spec fn select_line(t: Seq<char>, cond: Seq<char>, a: Seq<char>, b: Seq<char>) -> Seq<char> {
    line_text(t + " = select i1 "@ + cond + ", i64 "@ + a + ", i64 "@ + b)
}

/// The text `emit_row_window` appends, its first temporary numbered `t`:
/// `jw_lo = max(0, lo - row0)` into `t+2` and `jw_hi = min(c, hi - row0)`
/// into `t+5`, both comparisons signed.
pub open spec fn row_window_text(t: nat, lo: Seq<char>, hi: Seq<char>, row0: Seq<char>, c: u64) -> Seq<char> {
    let cs = num::dec_nat(c as nat);
    op_line(tmp_name(t), "sub"@, lo, row0) + op_line(tmp_name(t + 1), "icmp slt"@, tmp_name(t), "0"@) + select_line(
        tmp_name(t + 2),
        tmp_name(t + 1),
        "0"@,
        tmp_name(t),
    ) + op_line(tmp_name(t + 3), "sub"@, hi, row0) + op_line(tmp_name(t + 4), "icmp sgt"@, tmp_name(t + 3), cs)
        + select_line(tmp_name(t + 5), tmp_name(t + 4), cs, tmp_name(t + 3))
}

/// The memcpy of one `llt` value from `src` to `dst`, as a body line.
pub open spec fn memcpy_line(dst: Seq<char>, src: Seq<char>, llt: Seq<char>) -> Seq<char> {
    line_text(
        "call void @llvm.memcpy.p0.p0.i64(ptr "@ + dst + ", ptr "@ + src
            + ", i64 ptrtoint (ptr getelementptr ("@ + llt + ", ptr null, i64 1) to i64), i1 false)"@,
    )
}

/// The guard that branches to a trap block when `cond` holds, its labels
/// numbered `t` (trap) and `t + 1` (continue).
pub open spec fn trap_text(t: nat, cond: Seq<char>, kind: u32) -> Seq<char> {
    line_text(
        "br i1 "@ + cond + ", label %"@ + label_name(t) + ", label %"@ + label_name(t + 1),
    ) + label_text(label_name(t)) + line_text(
        "call void @mapal_trap(i32 "@ + num::dec_nat(kind as nat) + ")"@,
    ) + line_text("unreachable"@) + label_text(label_name(t + 1))
}

/// Where the move-panel counter `p` came from: the inverse of `panel_perm`.
pub open spec fn panel_inv(t: int, w: int, b: int) -> int {
    let row = t / w;
    let col = t % w;
    ((row / b * (w / b) + col / b) * b + row % b) * b + col % b
}

proof fn lemma_split(x: int, d: int, q: int, r: int)
    requires
        d > 0,
        0 <= r < d,
        x == q * d + r,
    ensures
        x / d == q,
        x % d == r,
{
    vstd::arithmetic::div_mod::lemma_fundamental_div_mod_converse_div(x, d, q, r);
    vstd::arithmetic::div_mod::lemma_fundamental_div_mod_converse_mod(x, d, q, r);
}

proof fn lemma_place(a: int, ab: int, r: int, d: int)
    requires
        0 <= a < ab,
        0 <= r < d,
    ensures
        0 <= a * d + r < ab * d,
{
    assert(0 <= a * d + r < ab * d) by (nonlinear_arith)
        requires
            0 <= a < ab,
            0 <= r < d,
    ;
}

proof fn lemma_split_nonneg(x: int, d: int)
    requires
        d > 0,
        x >= 0,
    ensures
        x == (x / d) * d + x % d,
        0 <= x % d < d,
        x / d >= 0,
{
    vstd::arithmetic::div_mod::lemma_fundamental_div_mod(x, d);
    vstd::arithmetic::div_mod::lemma_mod_bound(x, d);
    assert(x / d >= 0) by (nonlinear_arith)
        requires
            d > 0,
            x >= 0,
            x == d * (x / d) + x % d,
            x % d < d,
    ;
    assert(x == (x / d) * d + x % d) by (nonlinear_arith)
        requires
            x == d * (x / d) + x % d,
    ;
}

/// The geometry of an applicable panel: `w = CB*b`, `n = (RB*b)*w`.
proof fn lemma_panel_geometry(w: u64, b: u64, n: u64)
    requires
        panel_applies(w, b, n),
    ensures
        w as int == (w as int / b as int) * b,
        n as int == (n as int / w as int) * w,
        n as int / w as int == (n as int / w as int / b as int) * b,
        w as int / b as int > 0,
        n as int / w as int / b as int > 0,
{
    lemma_split_nonneg(w as int, b as int);
    lemma_split_nonneg(n as int, w as int);
    lemma_split_nonneg(n as int / w as int, b as int);
    assert(w as int / b as int > 0) by (nonlinear_arith)
        requires
            w as int == (w as int / b as int) * b,
            w > 0,
            b > 0,
            w as int / b as int >= 0,
    ;
    let r = n as int / w as int;
    assert(r / b as int > 0) by (nonlinear_arith)
        requires
            r == (r / b as int) * b,
            r >= 2,
            b > 0,
            r / b as int >= 0,
    ;
}

/// Each counter value `p < n` lands inside `[0, n)`, and `panel_inv` brings it back.
proof fn lemma_panel_forward(w: u64, b: u64, n: u64, p: int)
    requires
        panel_applies(w, b, n),
        0 <= p < n,
    ensures
        0 <= panel_perm(p, w as int, b as int) < n,
        panel_inv(panel_perm(p, w as int, b as int), w as int, b as int) == p,
{
    lemma_panel_geometry(w, b, n);
    let (wi, bi, ni) = (w as int, b as int, n as int);
    let cbs = wi / bi;
    let rows = ni / wi;
    let rbs = rows / bi;
    lemma_split_nonneg(p, bi);
    let dc = p % bi;
    let q = p / bi;
    lemma_split_nonneg(q, bi);
    let dr = q % bi;
    let q2 = q / bi;
    lemma_split_nonneg(q2, cbs);
    let cb = q2 % cbs;
    let rb = q2 / cbs;
    assert(rb < rbs) by (nonlinear_arith)
        requires
            p == q * bi + dc,
            q == q2 * bi + dr,
            q2 == rb * cbs + cb,
            0 <= dc,
            0 <= dr,
            0 <= cb,
            p < ni,
            ni == rows * wi,
            rows == rbs * bi,
            wi == cbs * bi,
            bi > 0,
            cbs > 0,
    ;
    lemma_place(rb, rbs, dr, bi);
    lemma_place(cb, cbs, dc, bi);
    let row = rb * bi + dr;
    let col = cb * bi + dc;
    lemma_place(row, rows, col, wi);
    let t = row * wi + col;
    assert(panel_perm(p, wi, bi) == t);
    lemma_split(t, wi, row, col);
    lemma_split(row, bi, rb, dr);
    lemma_split(col, bi, cb, dc);
}

/// Each target `t < n` is `panel_perm` of the counter value `panel_inv(t) < n`.
proof fn lemma_panel_backward(w: u64, b: u64, n: u64, t: int)
    requires
        panel_applies(w, b, n),
        0 <= t < n,
    ensures
        0 <= panel_inv(t, w as int, b as int) < n,
        panel_perm(panel_inv(t, w as int, b as int), w as int, b as int) == t,
{
    lemma_panel_geometry(w, b, n);
    let (wi, bi, ni) = (w as int, b as int, n as int);
    let cbs = wi / bi;
    let rows = ni / wi;
    let rbs = rows / bi;
    lemma_split_nonneg(t, wi);
    let row = t / wi;
    let col = t % wi;
    assert(row < rows) by (nonlinear_arith)
        requires
            t == row * wi + col,
            0 <= col,
            t < ni,
            ni == rows * wi,
            wi > 0,
    ;
    lemma_split_nonneg(row, bi);
    lemma_split_nonneg(col, bi);
    let rb = row / bi;
    let dr = row % bi;
    let cb = col / bi;
    let dc = col % bi;
    assert(rb < rbs && cb < cbs) by (nonlinear_arith)
        requires
            row == rb * bi + dr,
            col == cb * bi + dc,
            0 <= dr,
            0 <= dc,
            row < rows,
            col < wi,
            rows == rbs * bi,
            wi == cbs * bi,
            bi > 0,
    ;
    lemma_place(rb, rbs, cb, cbs);
    let q2 = rb * cbs + cb;
    lemma_place(q2, rbs * cbs, dr, bi);
    let q = q2 * bi + dr;
    lemma_place(q, rbs * cbs * bi, dc, bi);
    let p = q * bi + dc;
    assert(rbs * cbs * bi * bi == ni) by (nonlinear_arith)
        requires
            ni == rows * wi,
            rows == rbs * bi,
            wi == cbs * bi,
    ;
    assert(panel_inv(t, wi, bi) == p);
    lemma_split(p, bi, q, dc);
    lemma_split(q, bi, q2, dr);
    lemma_split(q2, cbs, rb, cb);
    assert(panel_perm(p, wi, bi) == (rb * bi + dr) * wi + cb * bi + dc);
}

/// The move-panel traversal visits every element exactly once: on an
/// applicable geometry the index it computes is a permutation of `[0, n)`.
pub proof fn lemma_panel_perm_bijective(w: u64, b: u64, n: u64)
    requires
        panel_applies(w, b, n),
    ensures
        forall|p: int| 0 <= p < n ==> 0 <= #[trigger] panel_perm(p, w as int, b as int) < n,
        forall|p1: int, p2: int|
            0 <= p1 < n && 0 <= p2 < n && #[trigger] panel_perm(p1, w as int, b as int)
                == #[trigger] panel_perm(p2, w as int, b as int) ==> p1 == p2,
        forall|t: int|
            0 <= t < n ==> 0 <= #[trigger] panel_inv(t, w as int, b as int) < n && panel_perm(
                panel_inv(t, w as int, b as int),
                w as int,
                b as int,
            ) == t,
{
    assert forall|p: int| 0 <= p < n implies 0 <= #[trigger] panel_perm(p, w as int, b as int) < n by {
        lemma_panel_forward(w, b, n, p);
    }
    assert forall|p1: int, p2: int|
        0 <= p1 < n && 0 <= p2 < n && #[trigger] panel_perm(p1, w as int, b as int)
            == #[trigger] panel_perm(p2, w as int, b as int) implies p1 == p2 by {
        lemma_panel_forward(w, b, n, p1);
        lemma_panel_forward(w, b, n, p2);
    }
    assert forall|t: int| 0 <= t < n implies 0 <= #[trigger] panel_inv(t, w as int, b as int) < n
        && panel_perm(panel_inv(t, w as int, b as int), w as int, b as int) == t by {
        lemma_panel_backward(w, b, n, t);
    }
}

/// A packed tile buffer: its pointer and its array type.
pub struct PackedBuffer {
    pub ptr: String,
    pub llt: String,
}

/// Shared emission context for one gated tiled site's lane-loop trio: every
/// SSA name and lowered type the seed/k/store loops need, built once per site.
pub struct TileCtx {
    pub acc: String,
    pub acc_llt: String,
    pub elem_llt: String,
    pub seed: String,
    pub mul_op: &'static str,
    pub add_op: &'static str,
    pub a_ptr: String,
    pub b_ptr: String,
    pub out_ptr: String,
    pub a_llt: String,
    pub b_llt: String,
    pub out_llt: String,
    pub k_ctr: String,
    pub lane_ctr: String,
    /// The j-tile width in lanes.
    pub tile_j: u64,
    /// The rung's block factor.
    pub tile_i: u64,
    /// The k-panel depth.
    pub tile_kc: u64,
    pub packed: Option<PackedBuffer>,
    pub contract_flag: &'static str,
}

/// `<tile_j x elem>`.
pub open spec fn vec_text(elem: Seq<char>, tile_j: u64) -> Seq<char> {
    "<"@ + num::dec_nat(tile_j as nat) + " x "@ + elem + ">"@
}

/// Splatting `scalar` across `<tile_j x elem>`: inserted into lane 0 of
/// `tmp(t)`, then shuffled across every lane of `tmp(t+1)`.
pub open spec fn splat_text(t: nat, elem: Seq<char>, tile_j: u64, scalar: Seq<char>) -> Seq<char> {
    let vllt = vec_text(elem, tile_j);
    line_text(tmp_name(t) + " = insertelement "@ + vllt + " poison, "@ + elem + " "@ + scalar + ", i64 0"@)
        + line_text(
        tmp_name(t + 1) + " = shufflevector "@ + vllt + " "@ + tmp_name(t) + ", "@ + vllt + " poison, <"@
            + num::dec_nat(tile_j as nat) + " x i32> zeroinitializer"@,
    )
}

/// The vector accumulator type of one j-tile: `<TJ x elem>`, the full tile
/// width (LLVM legalizes it to the machine's vectors).
pub fn tile_vec_llt(ctx: &TileCtx) -> (r: String)
    ensures
        r@ == "<"@ + num::dec_nat(ctx.tile_j as nat) + " x "@ + ctx.elem_llt@ + ">"@,
{
    let r = llt::vec_llt(ctx.elem_llt.as_str(), ctx.tile_j);
    proof {
        reveal_strlit("<");
        reveal_strlit(" x ");
        reveal_strlit(">");
        assert(r@ =~= "<"@ + num::dec_nat(ctx.tile_j as nat) + " x "@ + ctx.elem_llt@ + ">"@);
    }
    r
}

/// The text of an optional string.
pub open spec fn opt_text(s: Option<String>) -> Option<Seq<char>> {
    match s {
        Some(s) => Some(s@),
        None => None,
    }
}

/// The index terms with their variables' texts.
pub open spec fn term_views(terms: Seq<(u64, &str)>) -> Seq<(u64, Seq<char>)> {
    Seq::new(terms.len(), |i: int| (terms[i].0, terms[i].1@))
}

/// The text `emit_tile_index` appends for the first `k` terms, with the
/// counter and running index it leaves: `(next, index, text)`.
pub open spec fn tile_index_upto(
    t0: nat,
    index: Option<Seq<char>>,
    terms: Seq<(u64, Seq<char>)>,
    k: int,
) -> (nat, Option<Seq<char>>, Seq<char>)
    decreases k,
{
    if k <= 0 {
        (t0, index, Seq::empty())
    } else {
        let prev = tile_index_upto(t0, index, terms, k - 1);
        let t = prev.0;
        let coefficient = terms[k - 1].0;
        let variable = terms[k - 1].1;
        if coefficient == 0 {
            prev
        } else {
            let scaled = if coefficient == 1 {
                (t, variable, prev.2)
            } else {
                (
                    t + 1,
                    tmp_name(t),
                    prev.2 + op_line(tmp_name(t), "mul"@, variable, num::dec_nat(coefficient as nat)),
                )
            };
            match prev.1 {
                Some(base) => (
                    scaled.0 + 1,
                    Some(tmp_name(scaled.0)),
                    scaled.2 + op_line(tmp_name(scaled.0), "add"@, base, scaled.1),
                ),
                None => (scaled.0, Some(scaled.1), scaled.2),
            }
        }
    }
}

pub(crate) proof fn lemma_tile_index_counter(t0: nat, index: Option<Seq<char>>, terms: Seq<(u64, Seq<char>)>, k: int)
    requires
        0 <= k,
    ensures
        t0 <= tile_index_upto(t0, index, terms, k).0 <= t0 + 2 * k,
    decreases k,
{
    if k > 0 {
        lemma_tile_index_counter(t0, index, terms, k - 1);
    }
}

/// Morphism `m` traps in function `f`: an integer `Div`/`Mod`, an `Index` the
/// bounds proof does not cover, or an `Update`.
pub open spec fn local_trap(ir: CategoryIr, f: usize, m: usize) -> bool {
    let morph = ir.morphisms@[m as int];
    match morph.op {
        Operation::Div | Operation::Mod => ir.objects@[morph.target as int].ty is Int,
        Operation::Index => !ir.funcs@[f as int].proven@.contains(m),
        Operation::Update => true,
        _ => false,
    }
}

/// The first index of `m` in `s` (meaningful when `s` contains it).
pub open spec fn first_index(s: Seq<usize>, m: usize) -> int {
    choose|i: int| 0 <= i < s.len() && s[i] == m && forall|j: int| 0 <= j < i ==> s[j] != m
}

pub(crate) proof fn lemma_first_index(s: Seq<usize>, m: usize, i: int)
    requires
        0 <= i < s.len(),
        s[i] == m,
        forall|j: int| 0 <= j < i ==> s[j] != m,
    ensures
        first_index(s, m) == i,
{
    let k = first_index(s, m);
    assert(0 <= k < s.len() && s[k] == m && forall|j: int| 0 <= j < k ==> s[j] != m);
    if k < i {
        assert(s[k] != m);
    } else if k > i {
        assert(s[i] != m);
    }
}

/// The site number a task-side guard reports for `m`.
pub open spec fn task_site_of(ir: CategoryIr, f: usize, flavor: GuardFlavor, m: usize) -> u32 {
    match flavor {
        GuardFlavor::TaskBody(topo) => topo,
        _ => first_index(ir.funcs@[f as int].topo@, m) as u32,
    }
}

/// The captures of the first `Map`/`Fold` site at or after `i` whose body is `f`; 0 when none.
pub open spec fn captures_of_body(ms: Seq<crate::ir::Morphism>, f: usize, i: int) -> u32
    decreases ms.len() - i,
{
    if i < 0 || i >= ms.len() {
        0
    } else {
        match ms[i].op {
            Operation::MapEach { body, captures } => if body == f {
                captures
            } else {
                captures_of_body(ms, f, i + 1)
            },
            Operation::Fold { body, captures } => if body == f {
                captures
            } else {
                captures_of_body(ms, f, i + 1)
            },
            _ => captures_of_body(ms, f, i + 1),
        }
    }
}

/// The two texts are the same characters.
pub(crate) fn same_text(a: &str, b: &str) -> (r: bool)
    ensures
        r == (a@ == b@),
{
    let n = a.unicode_len();
    if n != b.unicode_len() {
        return false;
    }
    let mut i: usize = 0;
    while i < n
        invariant
            n == a@.len() == b@.len(),
            0 <= i <= n,
            forall|j: int| 0 <= j < i ==> a@[j] == b@[j],
        decreases n - i,
    {
        if a.get_char(i) != b.get_char(i) {
            return false;
        }
        i += 1;
    }
    assert(a@ =~= b@);
    true
}

impl<'a> FnEmit<'a> {
    /// A fresh emitter for function `f` of `ir`: empty buffers, ordinal 0, no
    /// slot resolved, nothing elided or aliased, the host guard flavor, the
    /// whole range, no timing, no frame or host waits, and no arena until the
    /// driver allows it. Of the guard plan only the gated conditionals count:
    /// each one's arm-only morphisms are marked gated and the site is kept at
    /// its `Phi` (a later site at the same `Phi` replaces an earlier one). The
    /// tile plan is kept when tiling is on. `elem` is the function's element
    /// plan (by object id); `move_panel` and `heap_min_bytes` come from the
    /// target profile.
    pub fn new(
        ir: &'a CategoryIr,
        f: usize,
        guard_plan: Vec<GuardSite>,
        tile_plan: Vec<Option<TileSite>>,
        elem: Vec<Option<ElemSrc>>,
        tiling: bool,
        packing: bool,
        contract: bool,
        kc_nest: bool,
        move_panel: Option<(u64, u64)>,
        heap_min_bytes: u64,
    ) -> (r: FnEmit<'a>)
        ensures
            r.ir == ir,
            r.f == f,
            r.slots@.len() == ir.objects.len(),
            forall|o: int| 0 <= o < r.slots@.len() ==> r.slots@[o] is None,
            r.frame is None,
            r.frame_geps@ == Seq::<char>::empty(),
            !r.runtime_write,
            r.allocas@ == Seq::<char>::empty(),
            r.body@ == Seq::<char>::empty(),
            r.next == 0,
            r.guard_flavor is Host,
            !r.split_range,
            !r.perf_timing,
            r.move_panel == move_panel,
            r.heap_min_bytes == heap_min_bytes,
            !r.heap_ok,
            !r.heap_used,
            r.elem@ == elem@,
            r.elided_arrays@.len() == ir.objects.len(),
            forall|o: int| 0 <= o < r.elided_arrays@.len() ==> !r.elided_arrays@[o],
            r.elided_updates@.len() == ir.objects.len(),
            forall|o: int| 0 <= o < r.elided_updates@.len() ==> !r.elided_updates@[o],
            r.update_aliases@.len() == ir.objects.len(),
            forall|o: int| 0 <= o < r.update_aliases@.len() ==> r.update_aliases@[o] is None,
            r.host is None,
            r.plan.gated@.len() == ir.morphisms.len(),
            forall|m: int| 0 <= m < r.plan.gated@.len() ==> #[trigger] r.plan.gated@[m] == guard::gated_by(guard_plan@, m as usize, guard_plan@.len() as int),
            r.plan.guard_sites@.len() == ir.morphisms.len(),
            forall|p: int| 0 <= p < r.plan.guard_sites@.len() ==> #[trigger] r.plan.guard_sites@[p] == guard::site_at(guard_plan@, p as usize, guard_plan@.len() as int),
            tiling ==> r.plan.tile_plan == Some(tile_plan),
            !tiling ==> r.plan.tile_plan is None,
            r.plan.packing == packing,
            r.plan.contract == contract,
            r.plan.kc_nest == kc_nest,
    {
        let n = ir.objects.len();
        let mut slots: Vec<Option<String>> = Vec::new();
        let mut elided_arrays: Vec<bool> = Vec::new();
        let mut elided_updates: Vec<bool> = Vec::new();
        let mut update_aliases: Vec<Option<usize>> = Vec::new();
        let mut i: usize = 0;
        while i < n
            invariant
                0 <= i <= n,
                slots@.len() == i && elided_arrays@.len() == i && elided_updates@.len() == i
                    && update_aliases@.len() == i,
                forall|o: int| 0 <= o < i ==> #[trigger] slots@[o] is None,
                forall|o: int| 0 <= o < i ==> !#[trigger] elided_arrays@[o],
                forall|o: int| 0 <= o < i ==> !#[trigger] elided_updates@[o],
                forall|o: int| 0 <= o < i ==> #[trigger] update_aliases@[o] is None,
            decreases n - i,
        {
            slots.push(None);
            elided_arrays.push(false);
            elided_updates.push(false);
            update_aliases.push(None);
            assert(slots@[i as int] is None);
            assert(update_aliases@[i as int] is None);
            i += 1;
        }
        let (gated, guard_sites) = guard::gate_plan(guard_plan, ir.morphisms.len());
        FnEmit {
            ir,
            f,
            slots,
            frame: None,
            frame_geps: String::new(),
            runtime_write: false,
            allocas: String::new(),
            body: String::new(),
            next: 0,
            guard_flavor: GuardFlavor::Host,
            split_range: false,
            perf_timing: false,
            move_panel,
            heap_min_bytes,
            heap_ok: false,
            heap_used: false,
            elem,
            elided_arrays,
            elided_updates,
            update_aliases,
            host: None,
            plan: EmitPlan {
                gated,
                guard_sites,
                tile_plan: if tiling { Some(tile_plan) } else { None },
                packing,
                contract,
                kc_nest,
            },
        }
    }

    /// Everything but the two buffers, the counter and the arena debt.
    pub open spec fn same_setup(self, other: FnEmit<'a>) -> bool {
        self == (FnEmit {
            allocas: self.allocas,
            body: self.body,
            next: self.next,
            heap_used: self.heap_used,
            ..other
        })
    }

    pub fn set_perf_timing(&mut self, perf_timing: bool)
        ensures
            *final(self) == (FnEmit { perf_timing: perf_timing, ..*old(self) }),
    {
        self.perf_timing = perf_timing;
    }

    pub fn set_task_body_site(&mut self, topo: u32)
        ensures
            *final(self) == (FnEmit { guard_flavor: GuardFlavor::TaskBody(topo), ..*old(self) }),
    {
        self.guard_flavor = GuardFlavor::TaskBody(topo);
    }

    /// The next ordinal.
    pub fn fresh(&mut self) -> (n: u32)
        requires
            old(self).next < u32::MAX,
        ensures
            n == old(self).next,
            final(self).next == old(self).next + 1,
            final(self).allocas == old(self).allocas,
            final(self).body == old(self).body,
            final(self).heap_used == old(self).heap_used,
            final(self).same_setup(*old(self)),
    {
        let n = self.next;
        self.next = self.next + 1;
        n
    }

    /// A fresh temporary `%tN`.
    pub fn tmp(&mut self) -> (t: String)
        requires
            old(self).next < u32::MAX,
        ensures
            t@ == tmp_name(old(self).next as nat),
            final(self).next == old(self).next + 1,
            final(self).allocas == old(self).allocas,
            final(self).body == old(self).body,
            final(self).heap_used == old(self).heap_used,
            final(self).same_setup(*old(self)),
    {
        let n = self.fresh();
        let mut t = String::from_str("%t");
        t.append(num::u64_to_string(n as u64).as_str());
        t
    }

    /// A fresh block label `bbN` (bare, no `%`).
    pub fn label(&mut self) -> (l: String)
        requires
            old(self).next < u32::MAX,
        ensures
            l@ == label_name(old(self).next as nat),
            final(self).next == old(self).next + 1,
            final(self).allocas == old(self).allocas,
            final(self).body == old(self).body,
            final(self).heap_used == old(self).heap_used,
            final(self).same_setup(*old(self)),
    {
        let n = self.fresh();
        let mut l = String::from_str("bb");
        l.append(num::u64_to_string(n as u64).as_str());
        l
    }

    /// Append one indented body instruction line.
    pub fn line(&mut self, s: &str)
        ensures
            final(self).body@ == old(self).body@ + line_text(s@),
            final(self).next == old(self).next,
            final(self).allocas == old(self).allocas,
            final(self).heap_used == old(self).heap_used,
            final(self).same_setup(*old(self)),
    {
        self.body.append("  ");
        self.body.append(s);
        self.body.append("\n");
        assert(self.body@ =~= old(self).body@ + line_text(s@));
    }

    /// Append a bare block label line (`name:`), no indent.
    pub fn label_line(&mut self, name: &str)
        ensures
            final(self).body@ == old(self).body@ + label_text(name@),
            final(self).next == old(self).next,
            final(self).allocas == old(self).allocas,
            final(self).heap_used == old(self).heap_used,
            final(self).same_setup(*old(self)),
    {
        self.body.append(name);
        self.body.append(":\n");
        assert(self.body@ =~= old(self).body@ + label_text(name@));
    }

    /// A fresh scratch alloca of `llt` in the entry block; returns its name.
    pub fn scratch(&mut self, llt: &str) -> (name: String)
        requires
            old(self).next < u32::MAX,
        ensures
            name@ == scratch_name(old(self).next as nat),
            final(self).allocas@ == old(self).allocas@ + "  "@ + name@ + " = alloca "@ + llt@
                + "\n"@,
            final(self).next == old(self).next + 1,
            final(self).body == old(self).body,
            final(self).heap_used == old(self).heap_used,
            final(self).same_setup(*old(self)),
    {
        let n = self.fresh();
        let mut name = String::from_str("%s");
        name.append(num::u64_to_string(n as u64).as_str());
        self.allocas.append("  ");
        self.allocas.append(name.as_str());
        self.allocas.append(" = alloca ");
        self.allocas.append(llt);
        self.allocas.append("\n");
        assert(self.allocas@ =~= old(self).allocas@ + "  "@ + name@ + " = alloca "@ + llt@ + "\n"@);
        name
    }

    /// Does a block of `bytes` belong in the arena rather than on the stack?
    /// Records the teardown debt when it does.
    pub fn heap_block(&mut self, bytes: u64) -> (heap: bool)
        ensures
            heap == (old(self).heap_ok && bytes >= old(self).heap_min_bytes),
            final(self).heap_used == (old(self).heap_used || heap),
            final(self).next == old(self).next,
            final(self).allocas == old(self).allocas,
            final(self).body == old(self).body,
            final(self).same_setup(*old(self)),
    {
        let heap = self.heap_ok && bytes >= self.heap_min_bytes;
        self.heap_used = self.heap_used || heap;
        heap
    }

    /// A block of type `llt` goes to the arena rather than the stack.
    pub open spec fn alloc_heap(self, llt: Seq<char>) -> bool {
        self.heap_ok && llt::llt_size(llt) >= self.heap_min_bytes
    }

    /// The entry-block line that allocates `name` of type `llt`: an arena
    /// call sized and aligned for the type (or `align`), or an `alloca`.
    pub open spec fn alloc_text(self, name: Seq<char>, llt: Seq<char>, align: Option<u64>) -> Seq<
        char,
    > {
        if self.alloc_heap(llt) {
            let a = match align {
                Some(a) => a as nat,
                None => llt::llt_algn(llt),
            };
            "  "@ + name + " = call ptr @mapal_rt_alloc(i64 "@ + num::dec_nat(llt::llt_size(llt))
                + ", i64 "@ + num::dec_nat(a) + ")\n"@
        } else {
            match align {
                Some(a) => "  "@ + name + " = alloca "@ + llt + ", align "@ + num::dec_nat(a as nat)
                    + "\n"@,
                None => "  "@ + name + " = alloca "@ + llt + "\n"@,
            }
        }
    }

    /// One named entry-block allocation of `llt`: an `alloca` (with the
    /// explicit `align` when one is given), or an arena block once the type is
    /// at least `heap_min_bytes` large and the emitter may use the arena.
    pub fn entry_alloc(&mut self, name: &str, llt: &str, align: Option<u64>)
        requires
            llt::llt_ok(llt@),
        ensures
            final(self).allocas@ == old(self).allocas@ + old(self).alloc_text(name@, llt@, align),
            final(self).heap_used == (old(self).heap_used || old(self).alloc_heap(llt@)),
            final(self).next == old(self).next,
            final(self).body == old(self).body,
            final(self).same_setup(*old(self)),
    {
        let bytes = llt::llt_bytes(llt);
        let mut text = String::from_str("  ");
        text.append(name);
        if self.heap_block(bytes) {
            let align = match align {
                Some(a) => a,
                None => {
                    proof {
                        llt::lemma_ok_implies_align_ok(llt@);
                    }
                    llt::llt_align(llt)
                },
            };
            text.append(" = call ptr @mapal_rt_alloc(i64 ");
            text.append(num::u64_to_string(bytes).as_str());
            text.append(", i64 ");
            text.append(num::u64_to_string(align).as_str());
            text.append(")\n");
        } else {
            text.append(" = alloca ");
            text.append(llt);
            match align {
                Some(a) => {
                    text.append(", align ");
                    text.append(num::u64_to_string(a).as_str());
                    text.append("\n");
                },
                None => {
                    text.append("\n");
                },
            }
        }
        self.allocas.append(text.as_str());
        assert(self.allocas@ =~= old(self).allocas@ + text@);
    }

    /// `<t> = <code> i64 <lhs>, <rhs>` into a fresh temporary.
    pub(crate) fn emit_op(&mut self, code: &str, lhs: &str, rhs: &str) -> (t: String)
        requires
            old(self).next < u32::MAX,
        ensures
            t@ == tmp_name(old(self).next as nat),
            final(self).body@ == old(self).body@ + op_line(t@, code@, lhs@, rhs@),
            final(self).next == old(self).next + 1,
            final(self).allocas == old(self).allocas,
            final(self).heap_used == old(self).heap_used,
            final(self).same_setup(*old(self)),
    {
        let t = self.tmp();
        let mut s = String::from_str(t.as_str());
        s.append(" = ");
        s.append(code);
        s.append(" i64 ");
        s.append(lhs);
        s.append(", ");
        s.append(rhs);
        self.line(s.as_str());
        assert(s@ =~= t@ + " = "@ + code@ + " i64 "@ + lhs@ + ", "@ + rhs@);
        t
    }

    /// `<t> = select i1 <cond>, i64 <a>, i64 <b>` into a fresh temporary.
    pub(crate) fn emit_select(&mut self, cond: &str, a: &str, b: &str) -> (t: String)
        requires
            old(self).next < u32::MAX,
        ensures
            t@ == tmp_name(old(self).next as nat),
            final(self).body@ == old(self).body@ + select_line(t@, cond@, a@, b@),
            final(self).next == old(self).next + 1,
            final(self).allocas == old(self).allocas,
            final(self).heap_used == old(self).heap_used,
            final(self).same_setup(*old(self)),
    {
        let t = self.tmp();
        let mut s = String::from_str(t.as_str());
        s.append(" = select i1 ");
        s.append(cond);
        s.append(", i64 ");
        s.append(a);
        s.append(", i64 ");
        s.append(b);
        self.line(s.as_str());
        assert(s@ =~= t@ + " = select i1 "@ + cond@ + ", i64 "@ + a@ + ", i64 "@ + b@);
        t
    }

    /// Copy an aggregate value between allocas; nothing when the two are the same slot.
    pub fn emit_memcpy(&mut self, dst: &str, src: &str, llt: &str)
        ensures
            final(self).body@ == old(self).body@ + if dst@ == src@ {
                Seq::empty()
            } else {
                memcpy_line(dst@, src@, llt@)
            },
            final(self).next == old(self).next,
            final(self).allocas == old(self).allocas,
            final(self).heap_used == old(self).heap_used,
            final(self).same_setup(*old(self)),
    {
        if same_text(dst, src) {
            assert(self.body@ =~= old(self).body@ + Seq::<char>::empty());
            return ;
        }
        let mut s = String::from_str("call void @llvm.memcpy.p0.p0.i64(ptr ");
        s.append(dst);
        s.append(", ptr ");
        s.append(src);
        s.append(", i64 ptrtoint (ptr getelementptr (");
        s.append(llt);
        s.append(", ptr null, i64 1) to i64), i1 false)");
        self.line(s.as_str());
        assert(line_text(s@) =~= memcpy_line(dst@, src@, llt@));
    }

    /// Branch to a trap block when `cond` is true; continue otherwise
    /// (`kind`: 0 = division by zero, 1 = index out of bounds).
    pub fn trap_if(&mut self, cond: &str, kind: u32)
        requires
            old(self).next < u32::MAX - 1,
        ensures
            final(self).body@ == old(self).body@ + trap_text(old(self).next as nat, cond@, kind),
            final(self).next == old(self).next + 2,
            final(self).allocas == old(self).allocas,
            final(self).heap_used == old(self).heap_used,
            final(self).same_setup(*old(self)),
    {
        let trap = self.label();
        let cont = self.label();
        let mut br = String::from_str("br i1 ");
        br.append(cond);
        br.append(", label %");
        br.append(trap.as_str());
        br.append(", label %");
        br.append(cont.as_str());
        self.line(br.as_str());
        self.label_line(trap.as_str());
        let mut call = String::from_str("call void @mapal_trap(i32 ");
        call.append(num::u64_to_string(kind as u64).as_str());
        call.append(")");
        self.line(call.as_str());
        self.line("unreachable");
        self.label_line(cont.as_str());
        assert(br@ =~= "br i1 "@ + cond@ + ", label %"@ + trap@ + ", label %"@ + cont@);
        assert(call@ =~= "call void @mapal_trap(i32 "@ + num::dec_nat(kind as nat) + ")"@);
        assert(self.body@ =~= old(self).body@ + trap_text(old(self).next as nat, cond@, kind));
    }

    /// A collection loop's bounds: the task slice `%lo..%hi` when the range is
    /// split, `0..n` otherwise.
    pub fn bulk_bounds(&self, n: u64) -> (r: (String, String))
        ensures
            self.split_range ==> r.0@ == "%lo"@ && r.1@ == "%hi"@,
            !self.split_range ==> r.0@ == "0"@ && r.1@ == num::dec_nat(n as nat),
    {
        if self.split_range {
            (String::from_str("%lo"), String::from_str("%hi"))
        } else {
            (String::from_str("0"), num::u64_to_string(n))
        }
    }

    /// The accumulator's flat offset for one (subrow `r`, lane):
    /// `acc_base + r*stride + lane`, minting only the additions it needs.
    pub fn emit_acc_lane(&mut self, lane: &str, acc_base: Option<&str>, r: u64, stride: u64) -> (o: String)
        requires
            old(self).next < u32::MAX - 1,
            r == 0 || r * stride <= u64::MAX,
        ensures
            final(self).allocas == old(self).allocas,
            final(self).heap_used == old(self).heap_used,
            final(self).same_setup(*old(self)),
            ({
                let t = old(self).next as nat;
                let rs = num::dec_nat((r * stride) as nat);
                match acc_base {
                    None => if r == 0 {
                        o@ == lane@ && final(self).body == old(self).body && final(self).next
                            == old(self).next
                    } else {
                        o@ == tmp_name(t) && final(self).body@ == old(self).body@ + op_line(
                            tmp_name(t),
                            "add"@,
                            lane@,
                            rs,
                        ) && final(self).next == t + 1
                    },
                    Some(base) => if r == 0 {
                        o@ == tmp_name(t) && final(self).body@ == old(self).body@ + op_line(
                            tmp_name(t),
                            "add"@,
                            lane@,
                            base@,
                        ) && final(self).next == t + 1
                    } else {
                        o@ == tmp_name(t + 1) && final(self).body@ == old(self).body@ + op_line(
                            tmp_name(t),
                            "add"@,
                            base@,
                            rs,
                        ) + op_line(tmp_name(t + 1), "add"@, lane@, tmp_name(t))
                            && final(self).next == t + 2
                    },
                }
            }),
    {
        match acc_base {
            None => {
                if r == 0 {
                    String::from_str(lane)
                } else {
                    let rs = num::u64_to_string(r * stride);
                    self.emit_op("add", lane, rs.as_str())
                }
            },
            Some(base) => {
                if r == 0 {
                    self.emit_op("add", lane, base)
                } else {
                    let rs = num::u64_to_string(r * stride);
                    let based = self.emit_op("add", base, rs.as_str());
                    let offset = self.emit_op("add", lane, based.as_str());
                    assert(based@ == tmp_name(old(self).next as nat));
                    offset
                }
            },
        }
    }

    /// This row's live column window, clipped to the task's flat range:
    /// `[max(0, lo - row0), min(c, hi - row0))`, both comparisons signed.
    pub fn emit_row_window(&mut self, site: &TileSite, lo: &str, hi: &str, row0: &str) -> (r: (
        String,
        String,
    ))
        requires
            old(self).next as int + 6 <= u32::MAX,
        ensures
            r.0@ == tmp_name(old(self).next as nat + 2),
            r.1@ == tmp_name(old(self).next as nat + 5),
            final(self).body@ == old(self).body@ + row_window_text(old(self).next as nat, lo@, hi@, row0@, site.c),
            final(self).next == old(self).next + 6,
            final(self).allocas == old(self).allocas,
            final(self).heap_used == old(self).heap_used,
            final(self).same_setup(*old(self)),
    {
        let ghost t = old(self).next as nat;
        let ghost o = old(self).body@;
        let ghost cs = num::dec_nat(site.c as nat);
        let c = num::u64_to_string(site.c);
        let jw_lo_raw = self.emit_op("sub", lo, row0);
        let ghost p1 = op_line(tmp_name(t), "sub"@, lo@, row0@);
        let jw_lo_negative = self.emit_op("icmp slt", jw_lo_raw.as_str(), "0");
        let ghost p2 = op_line(tmp_name(t + 1), "icmp slt"@, tmp_name(t), "0"@);
        proof {
            vstd::seq_lib::lemma_concat_associative(o, p1, p2);
        }
        let jw_lo = self.emit_select(jw_lo_negative.as_str(), "0", jw_lo_raw.as_str());
        let ghost p3 = select_line(tmp_name(t + 2), tmp_name(t + 1), "0"@, tmp_name(t));
        proof {
            vstd::seq_lib::lemma_concat_associative(o, p1 + p2, p3);
        }
        let jw_hi_raw = self.emit_op("sub", hi, row0);
        let ghost p4 = op_line(tmp_name(t + 3), "sub"@, hi@, row0@);
        proof {
            vstd::seq_lib::lemma_concat_associative(o, p1 + p2 + p3, p4);
        }
        let jw_hi_past_c = self.emit_op("icmp sgt", jw_hi_raw.as_str(), c.as_str());
        let ghost p5 = op_line(tmp_name(t + 4), "icmp sgt"@, tmp_name(t + 3), cs);
        proof {
            vstd::seq_lib::lemma_concat_associative(o, p1 + p2 + p3 + p4, p5);
        }
        let jw_hi = self.emit_select(jw_hi_past_c.as_str(), c.as_str(), jw_hi_raw.as_str());
        proof {
            vstd::seq_lib::lemma_concat_associative(o, p1 + p2 + p3 + p4 + p5, select_line(tmp_name(t + 5), tmp_name(t + 4), cs, tmp_name(t + 3)));
        }
        (jw_lo, jw_hi)
    }

    /// The move-panel traversal: permute a bulk map's loop counter `iv` so
    /// the `n` iterations visit the `(n / w) x w` geometry in `b x b` panels.
    /// Returns the index to use on this trip; declines (returning `iv`) unless
    /// the panel tiles the geometry both ways.
    #[verifier::spinoff_prover]
    #[verifier::rlimit(40)]
    pub fn move_panel_index(&mut self, iv: &str, n: u64) -> (r: String)
        requires
            old(self).next as int + 12 <= u32::MAX,
        ensures
            final(self).allocas == old(self).allocas,
            final(self).heap_used == old(self).heap_used,
            final(self).same_setup(*old(self)),
            ({
                let mp = old(self).move_panel;
                let wb = mp.unwrap();
                if mp is Some && panel_applies(wb.0, wb.1, n) {
                    &&& r@ == tmp_name(old(self).next as nat + 11)
                    &&& final(self).body@ == panel_text(
                        old(self).body@,
                        old(self).next as nat,
                        iv@,
                        wb.0,
                        wb.1,
                    )
                    &&& final(self).next == old(self).next + 12
                } else {
                    &&& r@ == iv@
                    &&& final(self).body == old(self).body
                    &&& final(self).next == old(self).next
                }
            }),
    {
        let (w, b) = match self.move_panel {
            Some(wb) => wb,
            None => return String::from_str(iv),
        };
        if w == 0 || b == 0 || n % w != 0 {
            return String::from_str(iv);
        }
        let rows = n / w;
        if rows < 2 || w % b != 0 || rows % b != 0 {
            return String::from_str(iv);
        }
        let col_blocks = w / b;
        let bs = num::u64_to_string(b);
        let cbs = num::u64_to_string(col_blocks);
        let ws = num::u64_to_string(w);
        let dc = self.emit_op("urem", iv, bs.as_str());
        let q = self.emit_op("udiv", iv, bs.as_str());
        let dr = self.emit_op("urem", q.as_str(), bs.as_str());
        let q2 = self.emit_op("udiv", q.as_str(), bs.as_str());
        let cb = self.emit_op("urem", q2.as_str(), cbs.as_str());
        let rb = self.emit_op("udiv", q2.as_str(), cbs.as_str());
        let row = self.emit_op("mul", rb.as_str(), bs.as_str());
        let row = self.emit_op("add", row.as_str(), dr.as_str());
        let row = self.emit_op("mul", row.as_str(), ws.as_str());
        let col = self.emit_op("mul", cb.as_str(), bs.as_str());
        let idx = self.emit_op("add", row.as_str(), col.as_str());
        let out = self.emit_op("add", idx.as_str(), dc.as_str());
        out
    }

    /// The storage slot of object `o`: one already known; else, in a
    /// parallel entry, its frame field's slot (shared with the field's owner),
    /// resolving the field's address on first use; `None` when it has neither.
    pub fn slot(&mut self, o: usize) -> (r: Option<String>)
        requires
            (o as int) < old(self).slots.len(),
            old(self).frame matches Some(fr) ==> fr.owners_below(old(self).slots@.len()),
        ensures
            final(self).body == old(self).body,
            final(self).allocas == old(self).allocas,
            final(self).next == old(self).next,
            final(self).heap_used == old(self).heap_used,
            final(self).frame == old(self).frame,
            final(self).ir == old(self).ir,
            final(self).f == old(self).f,
            final(self).runtime_write == old(self).runtime_write,
            final(self).guard_flavor == old(self).guard_flavor,
            final(self).split_range == old(self).split_range,
            final(self).perf_timing == old(self).perf_timing,
            final(self).move_panel == old(self).move_panel,
            final(self).heap_min_bytes == old(self).heap_min_bytes,
            final(self).heap_ok == old(self).heap_ok,
            final(self).slots.len() == old(self).slots.len(),
            old(self).slot_resolution(*final(self), o),
            final(self).slot_of(o) == old(self).slot_of(o),
            r == final(self).slots@[o as int],
            ({
                let slots = old(self).slots@;
                match slots[o as int] {
                    Some(s) => r == Some(s) && final(self).slots == old(self).slots && final(self).frame_geps == old(self).frame_geps,
                    None => match old(self).frame {
                        None => r is None && final(self).slots == old(self).slots && final(self).frame_geps == old(self).frame_geps,
                        Some(fr) => if (o as int) < fr.fields.len() && fr.fields@[o as int] is Some {
                            let field = fr.fields@[o as int].unwrap();
                            match slots[field.owner as int] {
                                Some(s) => r == Some(s) && final(self).slots@ == slots.update(
                                    o as int,
                                    Some(s),
                                ) && final(self).frame_geps == old(self).frame_geps,
                                None => {
                                    let name = "%o"@ + num::dec_nat(field.ordinal as nat);
                                    &&& r is Some && r.unwrap()@ == name
                                    &&& final(self).slots@ == slots.update(
                                        field.owner as int,
                                        r,
                                    ).update(o as int, r)
                                    &&& final(self).frame_geps@ == old(self).frame_geps@ + "  "@
                                        + name + " = getelementptr %Frame, ptr %frame, i32 0, i32 "@
                                        + num::dec_nat(field.index as nat) + "\n"@
                                }
                            }
                        } else {
                            r is None && final(self).slots == old(self).slots && final(self).frame_geps == old(self).frame_geps
                        },
                    },
                }
            }),
    {
        if let Some(slot) = &self.slots[o] {
            return Some(slot.clone());
        }
        let field = match &self.frame {
            None => return None,
            Some(frame) => {
                if o >= frame.fields.len() {
                    return None;
                }
                match &frame.fields[o] {
                    None => return None,
                    Some(field) => (field.owner, field.ordinal, field.index),
                }
            },
        };
        let (owner, ordinal, index) = field;
        if let Some(slot) = &self.slots[owner] {
            let slot = slot.clone();
            self.slots.set(o, Some(slot.clone()));
            return Some(slot);
        }
        let mut slot = String::from_str("%o");
        slot.append(num::u64_to_string(ordinal as u64).as_str());
        self.frame_geps.append("  ");
        self.frame_geps.append(slot.as_str());
        self.frame_geps.append(" = getelementptr %Frame, ptr %frame, i32 0, i32 ");
        self.frame_geps.append(num::u64_to_string(index as u64).as_str());
        self.frame_geps.append("\n");
        self.slots.set(owner, Some(slot.clone()));
        self.slots.set(o, Some(slot.clone()));
        Some(slot)
    }

    /// The slot-`k` feeder of the product object `agg`.
    pub fn pair_source(&self, agg: usize, k: u32) -> (r: Option<usize>)
        requires
            self.ir.wf(),
            agg < self.ir.objects.len(),
        ensures
            r == ir::pair_source(*self.ir, agg, k),
    {
        ir::pair_source_ir(self.ir, agg, k)
    }

    /// A `Pair` array component `k` of `agg` is only ever read as an
    /// address: it is an array, fed by a `Pair`, and every use of `agg`
    /// reads that component by address (`Index`/`Update` their slot 0, `Zip`
    /// its first two, a map its captures, a fold its captures and its
    /// array, a call all of them). Such a component stages a pointer.
    pub fn pointer_only_array_component(&self, agg: usize, k: u32) -> (r: bool)
        requires
            self.ir.wf(),
            agg < self.ir.objects.len(),
        ensures
            r == ir::pointer_only_component(*self.ir, agg, k),
    {
        let is_array = match &self.ir.objects[agg].ty {
            Ty::Tuple(ts) => (k as usize) < ts.len() && match &ts[k as usize] {
                Ty::Array { .. } => true,
                _ => false,
            },
            Ty::Struct { fields, .. } => (k as usize) < fields.len() && match &fields[k as usize].1 {
                Ty::Array { .. } => true,
                _ => false,
            },
            _ => false,
        };
        if !is_array || self.pair_source(agg, k).is_none() {
            return false;
        }
        let uses = &self.ir.out_edges[agg];
        if uses.len() == 0 {
            return false;
        }
        let mut i: usize = 0;
        while i < uses.len()
            invariant
                self.ir.wf(),
                agg < self.ir.objects.len(),
                uses@ == self.ir.out_edges@[agg as int]@,
                0 <= i <= uses.len(),
                forall|j: int| 0 <= j < i ==> #[trigger] ir::reads_as_address(self.ir.morphisms@[uses@[j] as int].op, k),
            decreases uses.len() - i,
        {
            let m = uses[i];
            let ok = match self.ir.morphisms[m].op {
                Operation::Index | Operation::Update => k == 0,
                Operation::Zip => k <= 1,
                Operation::MapEach { captures, .. } => k <= captures,
                Operation::Fold { captures, .. } => k < captures || k as u64 == captures as u64 + 1,
                Operation::Call(_) => true,
                _ => false,
            };
            assert(ok == ir::reads_as_address(self.ir.morphisms@[uses@[i as int] as int].op, k));
            if !ok {
                return false;
            }
            i += 1;
        }
        true
    }

    /// Morphism `m` traps in this function: an integer `Div`/`Mod`, an
    /// `Index` its bounds proof does not cover, or an `Update`.
    #[verifier::loop_isolation(false)]
    pub fn local_trap_site(&self, m: usize) -> (r: bool)
        requires
            self.ir.wf(),
            m < self.ir.morphisms.len(),
            self.f < self.ir.funcs.len(),
        ensures
            r == local_trap(*self.ir, self.f, m),
    {
        let morph = &self.ir.morphisms[m];
        assert(self.ir.morphisms@[m as int].source < self.ir.objects.len());
        match &morph.op {
            Operation::Div | Operation::Mod => match &self.ir.objects[morph.target].ty {
                Ty::Int { .. } => true,
                _ => false,
            },
            Operation::Index => {
                let proven = &self.ir.funcs[self.f].proven;
                let mut i: usize = 0;
                while i < proven.len()
                    invariant
                        0 <= i <= proven.len(),
                        forall|j: int| 0 <= j < i ==> proven@[j] != m,
                    decreases proven.len() - i,
                {
                    if proven[i] == m {
                        return false;
                    }
                    i += 1;
                }
                true
            },
            Operation::Update => true,
            _ => false,
        }
    }

    /// The run-wide site number a task-side trap or watermark reports: the
    /// body's own site, or `m`'s place in the entry function's topological order.
    #[verifier::loop_isolation(false)]
    pub fn task_site(&self, m: usize) -> (r: u32)
        requires
            !(self.guard_flavor is Host),
            self.f < self.ir.funcs.len(),
            self.guard_flavor is Task ==> self.ir.funcs@[self.f as int].topo@.contains(m),
        ensures
            r == task_site_of(*self.ir, self.f, self.guard_flavor, m),
    {
        match self.guard_flavor {
            GuardFlavor::TaskBody(topo) => topo,
            _ => {
                let topo = &self.ir.funcs[self.f].topo;
                let mut i: usize = 0;
                while i < topo.len()
                    invariant
                        0 <= i <= topo.len(),
                        topo@.contains(m),
                        forall|j: int| 0 <= j < i ==> topo@[j] != m,
                    decreases topo.len() - i,
                {
                    if topo[i] == m {
                        assert(first_index(topo@, m) == i) by {
                            lemma_first_index(topo@, m, i as int);
                        }
                        return i as u32;
                    }
                    i += 1;
                }
                proof {
                    let j = choose|j: int| 0 <= j < topo@.len() && topo@[j] == m;
                    assert(topo@[j] != m);
                }
                0
            },
        }
    }

    /// Record a trap of `kind` at `m` into the parallel run.
    pub fn record_trap(&mut self, m: usize, kind: u32)
        requires
            !(old(self).guard_flavor is Host),
            old(self).f < old(self).ir.funcs.len(),
            old(self).guard_flavor is Task ==> old(self).ir.funcs@[old(self).f as int].topo@.contains(
                m,
            ),
        ensures
            final(self).body@ == old(self).body@ + line_text(
                "call void @mapal_par_trap(i64 "@ + num::dec_nat(
                    task_site_of(*old(self).ir, old(self).f, old(self).guard_flavor, m) as nat,
                ) + ", i32 "@ + num::dec_nat(kind as nat) + ")"@,
            ),
            final(self).runtime_write,
            final(self).next == old(self).next,
            final(self).allocas == old(self).allocas,
            final(self).heap_used == old(self).heap_used,
            final(self).ir == old(self).ir,
            final(self).f == old(self).f,
            final(self).slots == old(self).slots,
            final(self).frame == old(self).frame,
            final(self).frame_geps == old(self).frame_geps,
            final(self).guard_flavor == old(self).guard_flavor,
    {
        let topo = self.task_site(m);
        let mut s = String::from_str("call void @mapal_par_trap(i64 ");
        s.append(num::u64_to_string(topo as u64).as_str());
        s.append(", i32 ");
        s.append(num::u64_to_string(kind as u64).as_str());
        s.append(")");
        self.line(s.as_str());
        self.runtime_write = true;
    }

    /// Publish a task's progress past `m`.
    pub fn emit_watermark(&mut self, m: usize)
        requires
            !(old(self).guard_flavor is Host),
            old(self).f < old(self).ir.funcs.len(),
            old(self).guard_flavor is Task ==> old(self).ir.funcs@[old(self).f as int].topo@.contains(
                m,
            ),
        ensures
            final(self).body@ == old(self).body@ + line_text(
                "call void @mapal_par_watermark(i64 "@ + num::dec_nat(
                    task_site_of(*old(self).ir, old(self).f, old(self).guard_flavor, m) as nat,
                ) + ")"@,
            ),
            final(self).runtime_write,
            final(self).next == old(self).next,
            final(self).allocas == old(self).allocas,
            final(self).heap_used == old(self).heap_used,
            final(self).ir == old(self).ir,
            final(self).f == old(self).f,
            final(self).slots == old(self).slots,
            final(self).frame == old(self).frame,
            final(self).frame_geps == old(self).frame_geps,
            final(self).guard_flavor == old(self).guard_flavor,
    {
        let topo = self.task_site(m);
        let mut s = String::from_str("call void @mapal_par_watermark(i64 ");
        s.append(num::u64_to_string(topo as u64).as_str());
        s.append(")");
        self.line(s.as_str());
        self.runtime_write = true;
    }

    /// The slot object `o` resolves to: one already known, else its frame
    /// field's (its owner's known slot, or the field's own `%o<ordinal>`).
    pub open spec fn slot_of(self, o: usize) -> Option<Seq<char>> {
        let slots = self.slots@;
        match slots[o as int] {
            Some(s) => Some(s@),
            None => match self.frame {
                Some(fr) => if (o as int) < fr.fields.len() && fr.fields@[o as int] is Some {
                    let field = fr.fields@[o as int].unwrap();
                    match slots[field.owner as int] {
                        Some(s) => Some(s@),
                        None => Some("%o"@ + num::dec_nat(field.ordinal as nat)),
                    }
                } else {
                    None
                },
                None => None,
            },
        }
    }

    /// `next` is this emitter after resolving `o`'s slot: nothing changes when
    /// the slot is known or there is no frame field; a field whose owner has a
    /// slot shares it; otherwise the field's `%o<ordinal>` address is resolved
    /// (its GEP added to `frame_geps`) and becomes the slot of both.
    pub open spec fn slot_resolution(self, next: FnEmit<'a>, o: usize) -> bool {
        let slots = self.slots@;
        let unchanged = next.slots == self.slots && next.frame_geps == self.frame_geps;
        match slots[o as int] {
            Some(_) => unchanged,
            None => match self.frame {
                None => unchanged,
                Some(fr) => if (o as int) < fr.fields.len() && fr.fields@[o as int] is Some {
                    let field = fr.fields@[o as int].unwrap();
                    match slots[field.owner as int] {
                        Some(s) => next.slots@ == slots.update(o as int, Some(s))
                            && next.frame_geps == self.frame_geps,
                        None => {
                            let name = "%o"@ + num::dec_nat(field.ordinal as nat);
                            let r = next.slots@[o as int];
                            &&& r is Some && r.unwrap()@ == name
                            &&& next.slots@ == slots.update(field.owner as int, r).update(o as int, r)
                            &&& next.frame_geps@ == self.frame_geps@ + "  "@ + name
                                + " = getelementptr %Frame, ptr %frame, i32 0, i32 "@ + num::dec_nat(
                                field.index as nat,
                            ) + "\n"@
                        },
                    }
                } else {
                    unchanged
                },
            },
        }
    }

    /// The line `store_obj` appends: a store when `o` has a slot, nothing otherwise.
    pub open spec fn store_text(self, o: usize, llt: Seq<char>, val: Seq<char>) -> Seq<char> {
        match self.slot_of(o) {
            Some(s) => line_text("store "@ + llt + " "@ + val + ", ptr "@ + s),
            None => Seq::empty(),
        }
    }

    /// Store `val` of type `llt` into `o`'s slot, when `o` has one.
    pub fn store_obj(&mut self, o: usize, llt: &str, val: &str)
        requires
            (o as int) < old(self).slots.len(),
            old(self).frame matches Some(fr) ==> fr.owners_below(old(self).slots@.len()),
        ensures
            final(self).next == old(self).next,
            final(self).allocas == old(self).allocas,
            final(self).slots.len() == old(self).slots.len(),
            final(self).frame == old(self).frame,
            final(self).body@ == old(self).body@ + old(self).store_text(o, llt@, val@),
            final(self).slot_of(o) == old(self).slot_of(o),
            old(self).slot_resolution(*final(self), o),
            final(self).heap_used == old(self).heap_used,
            final(self).ir == old(self).ir,
            final(self).f == old(self).f,
            final(self).runtime_write == old(self).runtime_write,
            final(self).guard_flavor == old(self).guard_flavor,
            final(self).split_range == old(self).split_range,
            final(self).perf_timing == old(self).perf_timing,
            final(self).move_panel == old(self).move_panel,
            final(self).heap_min_bytes == old(self).heap_min_bytes,
            final(self).heap_ok == old(self).heap_ok,
    {
        if let Some(slot) = self.slot(o) {
            let mut s = String::from_str("store ");
            s.append(llt);
            s.append(" ");
            s.append(val);
            s.append(", ptr ");
            s.append(slot.as_str());
            self.line(s.as_str());
        } else {
            assert(self.body@ =~= old(self).body@ + Seq::<char>::empty());
        }
    }

    /// The affine index `index + sum of coefficient * variable`, minting a
    /// `mul` for each coefficient other than 0 and 1 and an `add` for each
    /// term after the first; zero-coefficient terms vanish. `None` when no
    /// base is given and every coefficient is 0.
    pub fn emit_tile_index(&mut self, index: Option<String>, terms: &[(u64, &str)]) -> (r: Option<String>)
        requires
            old(self).next as int + 2 * terms@.len() <= u32::MAX,
        ensures
            ({
                let res = tile_index_upto(
                    old(self).next as nat,
                    opt_text(index),
                    term_views(terms@),
                    terms@.len() as int,
                );
                &&& final(self).next == res.0
                &&& final(self).body@ == old(self).body@ + res.2
                &&& match r {
                    Some(s) => res.1 == Some(s@),
                    None => res.1 is None,
                }
            }),
            final(self).allocas == old(self).allocas,
            final(self).heap_used == old(self).heap_used,
            final(self).same_setup(*old(self)),
    {
        let ghost idx0 = opt_text(index);
        let mut index = index;
        let mut i: usize = 0;
        while i < terms.len()
            invariant
                0 <= i <= terms.len(),
                old(self).next as int + 2 * terms@.len() <= u32::MAX,
                ({
                    let res = tile_index_upto(old(self).next as nat, idx0, term_views(terms@), i as int);
                    &&& self.next == res.0
                    &&& self.body@ == old(self).body@ + res.2
                    &&& match index {
                        Some(s) => res.1 == Some(s@),
                        None => res.1 is None,
                    }
                }),
                self.allocas == old(self).allocas,
                self.heap_used == old(self).heap_used,
                self.same_setup(*old(self)),
            decreases terms.len() - i,
        {
            proof {
                lemma_tile_index_counter(old(self).next as nat, idx0, term_views(terms@), i as int);
            }
            let (coefficient, variable) = terms[i];
            if coefficient != 0 {
                let term = if coefficient == 1 {
                    String::from_str(variable)
                } else {
                    let c = num::u64_to_string(coefficient);
                    self.emit_op("mul", variable, c.as_str())
                };
                index = match index {
                    Some(base) => Some(self.emit_op("add", base.as_str(), term.as_str())),
                    None => Some(term),
                };
            }
            proof {
                assert(self.body@ =~= old(self).body@ + tile_index_upto(
                    old(self).next as nat,
                    idx0,
                    term_views(terms@),
                    i + 1,
                ).2);
            }
            i += 1;
        }
        index
    }

    /// The out-of-bounds test of an i64 index against `[0, size)`.
    pub fn index_oob(&mut self, i64idx: &str, size: u64) -> (oob: String)
        requires
            old(self).next as int + 3 <= u32::MAX,
        ensures
            oob@ == tmp_name(old(self).next as nat + 2),
            final(self).body@ == old(self).body@ + op_line(
                tmp_name(old(self).next as nat),
                "icmp slt"@,
                i64idx@,
                "0"@,
            ) + op_line(
                tmp_name(old(self).next as nat + 1),
                "icmp sge"@,
                i64idx@,
                num::dec_nat(size as nat),
            ) + line_text(
                tmp_name(old(self).next as nat + 2) + " = or i1 "@ + tmp_name(old(self).next as nat)
                    + ", "@ + tmp_name(old(self).next as nat + 1),
            ),
            final(self).next == old(self).next + 3,
            final(self).allocas == old(self).allocas,
            final(self).heap_used == old(self).heap_used,
            final(self).same_setup(*old(self)),
    {
        let lo = self.emit_op("icmp slt", i64idx, "0");
        let sz = num::u64_to_string(size);
        let hi = self.emit_op("icmp sge", i64idx, sz.as_str());
        let oob = self.tmp();
        let mut s = String::from_str(oob.as_str());
        s.append(" = or i1 ");
        s.append(lo.as_str());
        s.append(", ");
        s.append(hi.as_str());
        self.line(s.as_str());
        assert(s@ =~= oob@ + " = or i1 "@ + lo@ + ", "@ + hi@);
        oob
    }

    /// Trap when the i64 index is out of `[0, size)` (signed, so a
    /// zero-extended unsigned index is checked correctly too).
    pub fn guard_index(&mut self, i64idx: &str, size: u64)
        requires
            old(self).next as int + 5 <= u32::MAX,
        ensures
            ({
                let t = old(self).next as nat;
                final(self).body@ == old(self).body@ + op_line(tmp_name(t), "icmp slt"@, i64idx@, "0"@)
                    + op_line(tmp_name(t + 1), "icmp sge"@, i64idx@, num::dec_nat(size as nat))
                    + line_text(tmp_name(t + 2) + " = or i1 "@ + tmp_name(t) + ", "@ + tmp_name(t + 1))
                    + trap_text(t + 3, tmp_name(t + 2), 1)
            }),
            final(self).next == old(self).next + 5,
            final(self).allocas == old(self).allocas,
            final(self).heap_used == old(self).heap_used,
            final(self).same_setup(*old(self)),
    {
        let oob = self.index_oob(i64idx, size);
        self.trap_if(oob.as_str(), 1);
    }

    /// Splat `scalar` across a `<tile_j x elem>` vector.
    pub fn emit_splat(&mut self, elem_llt: &str, tile_j: u64, scalar: &str) -> (r: String)
        requires
            old(self).next as int + 2 <= u32::MAX,
        ensures
            r@ == tmp_name(old(self).next as nat + 1),
            final(self).body@ == old(self).body@ + splat_text(old(self).next as nat, elem_llt@, tile_j, scalar@),
            final(self).next == old(self).next + 2,
            final(self).allocas == old(self).allocas,
            final(self).heap_used == old(self).heap_used,
            final(self).same_setup(*old(self)),
    {
        let vllt = llt::vec_llt(elem_llt, tile_j);
        proof {
            reveal_strlit("<");
            reveal_strlit(" x ");
            reveal_strlit(">");
            assert(vllt@ =~= "<"@ + num::dec_nat(tile_j as nat) + " x "@ + elem_llt@ + ">"@);
        }
        let one = self.tmp();
        let mut s1 = String::from_str(one.as_str());
        s1.append(" = insertelement ");
        s1.append(vllt.as_str());
        s1.append(" poison, ");
        s1.append(elem_llt);
        s1.append(" ");
        s1.append(scalar);
        s1.append(", i64 0");
        self.line(s1.as_str());
        let all = self.tmp();
        let mut s2 = String::from_str(all.as_str());
        s2.append(" = shufflevector ");
        s2.append(vllt.as_str());
        s2.append(" ");
        s2.append(one.as_str());
        s2.append(", ");
        s2.append(vllt.as_str());
        s2.append(" poison, <");
        s2.append(num::u64_to_string(tile_j).as_str());
        s2.append(" x i32> zeroinitializer");
        self.line(s2.as_str());
        assert(s1@ =~= one@ + " = insertelement "@ + vllt@ + " poison, "@ + elem_llt@ + " "@ + scalar@
            + ", i64 0"@);
        assert(s2@ =~= all@ + " = shufflevector "@ + vllt@ + " "@ + one@ + ", "@ + vllt@ + " poison, <"@
            + num::dec_nat(tile_j as nat) + " x i32> zeroinitializer"@);
        all
    }

    /// Splat `scalar` across the site's accumulator vector type.
    pub fn emit_vec_splat(&mut self, ctx: &TileCtx, scalar: &str) -> (r: String)
        requires
            old(self).next as int + 2 <= u32::MAX,
        ensures
            r@ == tmp_name(old(self).next as nat + 1),
            final(self).body@ == old(self).body@ + splat_text(old(self).next as nat, ctx.elem_llt@, ctx.tile_j, scalar@),
            final(self).next == old(self).next + 2,
            final(self).allocas == old(self).allocas,
            final(self).heap_used == old(self).heap_used,
            final(self).same_setup(*old(self)),
    {
        self.emit_splat(ctx.elem_llt.as_str(), ctx.tile_j, scalar)
    }

    /// A packed panel's base: `(j0 / TJ) * (k * TJ)`.
    pub fn emit_tile_panel_base(&mut self, site: &TileSite, ctx: &TileCtx, j0: &str) -> (r: String)
        requires
            old(self).next as int + 2 <= u32::MAX,
            site.k * ctx.tile_j <= u64::MAX,
        ensures
            ({
                let t = old(self).next as nat;
                &&& r@ == tmp_name(t + 1)
                &&& final(self).body@ == old(self).body@ + op_line(
                    tmp_name(t),
                    "udiv"@,
                    j0@,
                    num::dec_nat(ctx.tile_j as nat),
                ) + op_line(
                    tmp_name(t + 1),
                    "mul"@,
                    tmp_name(t),
                    num::dec_nat((site.k * ctx.tile_j) as nat),
                )
            }),
            final(self).next == old(self).next + 2,
            final(self).allocas == old(self).allocas,
            final(self).heap_used == old(self).heap_used,
            final(self).same_setup(*old(self)),
    {
        let tj = num::u64_to_string(ctx.tile_j);
        let jt = self.emit_op("udiv", j0, tj.as_str());
        let panel = num::u64_to_string(site.k * ctx.tile_j);
        self.emit_op("mul", jt.as_str(), panel.as_str())
    }

    /// The KC nest's accumulator offset: `acc_base + r*nc + lane`.
    pub fn emit_tile_kc_acc_lane(&mut self, lane: &str, acc_base: &str, r: u64, nc: u64) -> (o: String)
        requires
            old(self).next < u32::MAX - 1,
            r == 0 || r * nc <= u64::MAX,
        ensures
            ({
                let t = old(self).next as nat;
                if r == 0 {
                    o@ == tmp_name(t) && final(self).body@ == old(self).body@ + op_line(
                        tmp_name(t),
                        "add"@,
                        lane@,
                        acc_base@,
                    ) && final(self).next == t + 1
                } else {
                    o@ == tmp_name(t + 1) && final(self).body@ == old(self).body@ + op_line(
                        tmp_name(t),
                        "add"@,
                        acc_base@,
                        num::dec_nat((r * nc) as nat),
                    ) + op_line(tmp_name(t + 1), "add"@, lane@, tmp_name(t)) && final(self).next
                        == t + 2
                }
            }),
            final(self).allocas == old(self).allocas,
            final(self).heap_used == old(self).heap_used,
            final(self).same_setup(*old(self)),
    {
        self.emit_acc_lane(lane, Some(acc_base), r, nc)
    }

    /// The capture count of the map/fold site that runs this function as its
    /// body (the first such site); 0 when none does.
    pub fn body_captures(&self) -> (r: u32)
        ensures
            r == captures_of_body(self.ir.morphisms@, self.f, 0),
    {
        let ms = &self.ir.morphisms;
        let mut i: usize = 0;
        while i < ms.len()
            invariant
                ms@ == self.ir.morphisms@,
                0 <= i <= ms.len(),
                captures_of_body(ms@, self.f, 0) == captures_of_body(ms@, self.f, i as int),
            decreases ms.len() - i,
        {
            match ms[i].op {
                Operation::MapEach { body, captures } | Operation::Fold { body, captures } => {
                    if body == self.f {
                        return captures;
                    }
                },
                _ => {},
            }
            i += 1;
        }
        0
    }

    /// Store the runtime clock (ms, a `double`) into `target`.
    pub fn emit_time_ms(&mut self, target: usize)
        requires
            (target as int) < old(self).slots.len(),
            old(self).frame matches Some(fr) ==> fr.owners_below(old(self).slots@.len()),
            old(self).next < u32::MAX,
        ensures
            final(self).next == old(self).next + 1,
            final(self).allocas == old(self).allocas,
            final(self).body@ == old(self).body@ + line_text(
                tmp_name(old(self).next as nat) + " = call double @mapal_time_ms()"@,
            ) + old(self).store_text(
                target,
                "double"@,
                tmp_name(old(self).next as nat),
            ),
    {
        let r = self.tmp();
        let mut s = String::from_str(r.as_str());
        s.append(" = call double @mapal_time_ms()");
        self.line(s.as_str());
        self.store_obj(target, "double", r.as_str());
    }

    /// Release the arena, if this emitter filled any of it.
    pub fn heap_teardown(&mut self)
        ensures
            final(self).body@ == old(self).body@ + if old(self).heap_used {
                line_text("call void @mapal_rt_free_all()"@)
            } else {
                Seq::empty()
            },
            final(self).next == old(self).next,
            final(self).allocas == old(self).allocas,
            final(self).heap_used == old(self).heap_used,
            final(self).same_setup(*old(self)),
    {
        if self.heap_used {
            self.line("call void @mapal_rt_free_all()");
        } else {
            assert(self.body@ =~= old(self).body@ + Seq::<char>::empty());
        }
    }
}

} // verus!
