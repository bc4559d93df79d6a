//! What the emitted scalar instructions compute, and what the IR's scalar
//! operations mean, stated independently; the laws tie the instruction the
//! emitter picks for an operation to that operation's meaning.
//!
//! An `iN` value is held as its unsigned representation `0 <= a < 2^N`; the
//! signed reading of it is `signed_view`. A floating-point value is modelled
//! as an exactly ordered quantity or NaN (`None`); rounding is outside the
//! model.
use vstd::prelude::*;
use vstd::arithmetic::power2::{pow2, lemma_pow2_pos, lemma_pow2_unfold, lemma_pow2_strictly_increases};
use vstd::string::*;
use crate::arith::{bin_line, compare_op, div_instr, float_instr, float_pred, int_instr, int_pred, signed_int};
use crate::emit::{FnEmit, line_text, op_line, tmp_name};
use crate::access::{index_ext, oob_text};
use crate::num;
use crate::ir;
use crate::ir::{Operation, Ty};

verus! {

// ---------------------------------------------------------------------------
// Integers of N bits
// ---------------------------------------------------------------------------

/// `x` reduced to `N` bits: its unsigned representation.
pub open spec fn wrap(x: int, bits: nat) -> int {
    x % (pow2(bits) as int)
}

/// The representation `a` read as a two's-complement signed integer.
pub open spec fn signed_view(a: int, bits: nat) -> int {
    if bits >= 1 && a >= pow2((bits - 1) as nat) {
        a - pow2(bits)
    } else {
        a
    }
}

/// The representation `a` read as signed or unsigned.
pub open spec fn view(a: int, bits: nat, signed: bool) -> int {
    if signed {
        signed_view(a, bits)
    } else {
        a
    }
}

/// `a` is the representation of an `N`-bit value.
pub open spec fn in_range(a: int, bits: nat) -> bool {
    0 <= a < pow2(bits)
}

/// Division rounding toward zero.
pub open spec fn trunc_div(x: int, y: int) -> int {
    if (x >= 0) == (y > 0) || x == 0 {
        let q = (if x >= 0 { x } else { -x }) / (if y >= 0 { y } else { -y });
        q
    } else {
        -((if x >= 0 { x } else { -x }) / (if y >= 0 { y } else { -y }))
    }
}

/// The remainder that goes with `trunc_div`: it has the sign of `x`.
pub open spec fn trunc_rem(x: int, y: int) -> int {
    x - y * trunc_div(x, y)
}

/// What an LLVM integer binary instruction yields on the representations `a`
/// and `b` (`None`: not such an instruction, or undefined on these inputs —
/// a zero divisor, or a signed `MIN / -1`).
pub open spec fn llvm_int_op(instr: Seq<char>, bits: nat, a: int, b: int) -> Option<int> {
    let sa = signed_view(a, bits);
    let sb = signed_view(b, bits);
    let overflow = bits >= 1 && sa == -pow2((bits - 1) as nat) && sb == -1;
    if instr == "add"@ {
        Some(wrap(a + b, bits))
    } else if instr == "sub"@ {
        Some(wrap(a - b, bits))
    } else if instr == "mul"@ {
        Some(wrap(a * b, bits))
    } else if instr == "udiv"@ {
        if b == 0 { None } else { Some(a / b) }
    } else if instr == "urem"@ {
        if b == 0 { None } else { Some(a % b) }
    } else if instr == "sdiv"@ {
        if sb == 0 || overflow { None } else { Some(wrap(trunc_div(sa, sb), bits)) }
    } else if instr == "srem"@ {
        if sb == 0 || overflow { None } else { Some(wrap(trunc_rem(sa, sb), bits)) }
    } else {
        None
    }
}

/// What an LLVM `icmp` predicate says of the representations `a` and `b`.
pub open spec fn llvm_icmp(pred: Seq<char>, bits: nat, a: int, b: int) -> Option<bool> {
    let sa = signed_view(a, bits);
    let sb = signed_view(b, bits);
    if pred == "eq"@ {
        Some(a == b)
    } else if pred == "ne"@ {
        Some(a != b)
    } else if pred == "slt"@ {
        Some(sa < sb)
    } else if pred == "sle"@ {
        Some(sa <= sb)
    } else if pred == "sgt"@ {
        Some(sa > sb)
    } else if pred == "sge"@ {
        Some(sa >= sb)
    } else if pred == "ult"@ {
        Some(a < b)
    } else if pred == "ule"@ {
        Some(a <= b)
    } else if pred == "ugt"@ {
        Some(a > b)
    } else if pred == "uge"@ {
        Some(a >= b)
    } else {
        None
    }
}

/// What an arithmetic operation of the IR means on two integers: the sum,
/// difference and product; division rounding toward zero and its remainder.
pub open spec fn int_op_value(op: Operation, x: int, y: int) -> int {
    match op {
        Operation::Add => x + y,
        Operation::Sub => x - y,
        Operation::Mul => x * y,
        Operation::Div => trunc_div(x, y),
        _ => trunc_rem(x, y),
    }
}

/// What a comparison of the IR means on two ordered values.
pub open spec fn holds(op: Operation, x: int, y: int) -> bool {
    match op {
        Operation::Eq => x == y,
        Operation::Neq => x != y,
        Operation::Lt => x < y,
        Operation::Gt => x > y,
        Operation::Le => x <= y,
        _ => x >= y,
    }
}

/// The instruction `emit_arith` uses for an integer operation of the given
/// signedness: the wrapping `add`/`sub`/`mul`, or the division of `div_instr`.
pub open spec fn int_arith_instr(op: Operation, signed: bool) -> Seq<char> {
    if op is Add || op is Sub || op is Mul {
        int_instr(op)
    } else {
        div_instr(signed, op is Div)
    }
}

// ---------------------------------------------------------------------------
// Floating point (ordered model, NaN as `None`)
// ---------------------------------------------------------------------------

/// What an LLVM `fcmp` predicate says: the ordered predicates are false when
/// either side is NaN, `une` is true then.
pub open spec fn llvm_fcmp(pred: Seq<char>, x: Option<int>, y: Option<int>) -> Option<bool> {
    let both = x is Some && y is Some;
    let (p, q) = (x.unwrap_or(0), y.unwrap_or(0));
    if pred == "oeq"@ {
        Some(both && p == q)
    } else if pred == "une"@ {
        Some(!both || p != q)
    } else if pred == "olt"@ {
        Some(both && p < q)
    } else if pred == "ogt"@ {
        Some(both && p > q)
    } else if pred == "ole"@ {
        Some(both && p <= q)
    } else if pred == "oge"@ {
        Some(both && p >= q)
    } else {
        None
    }
}

/// What a comparison of the IR means on floating-point values: as on ordered
/// values, except that anything compared with NaN is unequal and unordered.
pub open spec fn float_holds(op: Operation, x: Option<int>, y: Option<int>) -> bool {
    match (x, y) {
        (Some(p), Some(q)) => holds(op, p, q),
        _ => op is Neq,
    }
}

/// What an LLVM floating-point binary instruction yields, before rounding.
pub open spec fn llvm_float_op(instr: Seq<char>, x: int, y: int) -> Option<int> {
    if instr == "fadd"@ {
        Some(x + y)
    } else if instr == "fsub"@ {
        Some(x - y)
    } else if instr == "fmul"@ {
        Some(x * y)
    } else {
        None
    }
}

/// What an LLVM floating-point division or remainder relates: `fdiv` gives
/// the `r` with `r * y == x`, `frem` the remainder of the quotient rounded
/// toward zero; both only for a non-zero divisor.
pub open spec fn llvm_float_div_rel(instr: Seq<char>, x: int, y: int, r: int) -> bool {
    if instr == "fdiv"@ {
        y != 0 && r * y == x
    } else if instr == "frem"@ {
        y != 0 && r == trunc_rem(x, y)
    } else {
        false
    }
}

/// What floating-point `Div` and `Mod` mean: the quotient, and the
/// remainder whose quotient rounds toward zero.
pub open spec fn float_div_means(op: Operation, x: int, y: int, r: int) -> bool {
    y != 0 && if op is Div {
        r * y == x
    } else {
        r == trunc_rem(x, y)
    }
}

// ---------------------------------------------------------------------------
// Facts about the integer model
// ---------------------------------------------------------------------------

proof fn lemma_pow2_halves(bits: nat)
    requires
        bits >= 1,
    ensures
        pow2(bits) == 2 * pow2((bits - 1) as nat),
        pow2((bits - 1) as nat) >= 1,
{
    lemma_pow2_unfold(bits);
    lemma_pow2_pos((bits - 1) as nat);
}

/// The signed and unsigned readings of a representation differ by a whole
/// number of `2^N`, and the signed one is the representation's residue.
proof fn lemma_view_congruent(a: int, bits: nat, signed: bool)
    requires
        bits >= 1,
        in_range(a, bits),
    ensures
        wrap(view(a, bits, signed), bits) == a,
        view(a, bits, signed) == a || view(a, bits, signed) == a - pow2(bits),
        signed ==> -pow2((bits - 1) as nat) <= view(a, bits, signed) < pow2((bits - 1) as nat),
{
    lemma_pow2_halves(bits);
    let m = pow2(bits) as int;
    if view(a, bits, signed) == a - m {
        vstd::arithmetic::div_mod::lemma_mod_add_multiples_vanish(a - m, m);
        assert(a - m + m == a);
    }
    vstd::arithmetic::div_mod::lemma_small_mod(a as nat, m as nat);
}

/// Adding a multiple of `2^N` does not change the `N`-bit residue.
proof fn lemma_wrap_shift(x: int, k: int, bits: nat)
    ensures
        wrap(x + k * pow2(bits), bits) == wrap(x, bits),
{
    lemma_pow2_pos(bits);
    vstd::arithmetic::div_mod::lemma_mod_multiples_vanish(k, x, pow2(bits) as int);
    assert(x + k * pow2(bits) == pow2(bits) * k + x) by (nonlinear_arith);
}

/// The wrapping operations give the same residue on either reading.
proof fn lemma_wrap_views(op: Operation, a: int, b: int, bits: nat, signed: bool)
    requires
        bits >= 1,
        in_range(a, bits),
        in_range(b, bits),
        op is Add || op is Sub || op is Mul,
    ensures
        wrap(int_op_value(op, a, b), bits) == wrap(int_op_value(op, view(a, bits, signed), view(b, bits, signed)), bits),
{
    lemma_view_congruent(a, bits, signed);
    lemma_view_congruent(b, bits, signed);
    let m = pow2(bits) as int;
    let x = view(a, bits, signed);
    let y = view(b, bits, signed);
    let i: int = if x == a { 0 } else { 1 };
    let j: int = if y == b { 0 } else { 1 };
    assert(a == x + i * m);
    assert(b == y + j * m);
    match op {
        Operation::Add => {
            assert(a + b == (x + y) + (i + j) * m) by (nonlinear_arith)
                requires a == x + i * m, b == y + j * m;
            lemma_wrap_shift(x + y, i + j, bits);
        },
        Operation::Sub => {
            assert(a - b == (x - y) + (i - j) * m) by (nonlinear_arith)
                requires a == x + i * m, b == y + j * m;
            lemma_wrap_shift(x - y, i - j, bits);
        },
        _ => {
            assert(a * b == x * y + (x * j + y * i + i * j * m) * m) by (nonlinear_arith)
                requires a == x + i * m, b == y + j * m;
            lemma_wrap_shift(x * y, x * j + y * i + i * j * m, bits);
        },
    }
}

proof fn lemma_literals()
    ensures
        "add"@ != "sub"@,
        "add"@ != "mul"@,
        "sub"@ != "mul"@,
        "add"@ != "udiv"@ && "sub"@ != "udiv"@ && "mul"@ != "udiv"@,
        "add"@ != "urem"@ && "sub"@ != "urem"@ && "mul"@ != "urem"@ && "udiv"@ != "urem"@,
        "add"@ != "sdiv"@ && "sub"@ != "sdiv"@ && "mul"@ != "sdiv"@ && "udiv"@ != "sdiv"@ && "urem"@ != "sdiv"@,
        "add"@ != "srem"@ && "sub"@ != "srem"@ && "mul"@ != "srem"@ && "udiv"@ != "srem"@ && "urem"@ != "srem"@
            && "sdiv"@ != "srem"@,
{
    reveal_strlit("add");
    reveal_strlit("sub");
    reveal_strlit("mul");
    reveal_strlit("udiv");
    reveal_strlit("urem");
    reveal_strlit("sdiv");
    reveal_strlit("srem");
    assert("add"@[0] != "sub"@[0]);
    assert("add"@[0] != "mul"@[0]);
    assert("sub"@[0] != "mul"@[0]);
    assert("add"@.len() != "udiv"@.len());
    assert("sub"@.len() != "udiv"@.len());
    assert("mul"@.len() != "udiv"@.len());
    assert("add"@.len() != "urem"@.len());
    assert("sub"@.len() != "urem"@.len());
    assert("mul"@.len() != "urem"@.len());
    assert("udiv"@[1] != "urem"@[1]);
    assert("add"@.len() != "sdiv"@.len());
    assert("sub"@.len() != "sdiv"@.len());
    assert("mul"@.len() != "sdiv"@.len());
    assert("udiv"@[0] != "sdiv"@[0]);
    assert("urem"@[0] != "sdiv"@[0]);
    assert("add"@.len() != "srem"@.len());
    assert("sub"@.len() != "srem"@.len());
    assert("mul"@.len() != "srem"@.len());
    assert("udiv"@[0] != "srem"@[0]);
    assert("urem"@[0] != "srem"@[0]);
    assert("sdiv"@[1] != "srem"@[1]);
}

proof fn lemma_pred_literals()
    ensures
        "eq"@ != "ne"@,
        "eq"@ != "slt"@ && "ne"@ != "slt"@,
        "eq"@ != "sle"@ && "ne"@ != "sle"@ && "slt"@ != "sle"@,
        "eq"@ != "sgt"@ && "ne"@ != "sgt"@ && "slt"@ != "sgt"@ && "sle"@ != "sgt"@,
        "eq"@ != "sge"@ && "ne"@ != "sge"@ && "slt"@ != "sge"@ && "sle"@ != "sge"@ && "sgt"@ != "sge"@,
        "eq"@ != "ult"@ && "ne"@ != "ult"@ && "slt"@ != "ult"@ && "sle"@ != "ult"@ && "sgt"@ != "ult"@
            && "sge"@ != "ult"@,
        "eq"@ != "ule"@ && "ne"@ != "ule"@ && "slt"@ != "ule"@ && "sle"@ != "ule"@ && "sgt"@ != "ule"@
            && "sge"@ != "ule"@ && "ult"@ != "ule"@,
        "eq"@ != "ugt"@ && "ne"@ != "ugt"@ && "slt"@ != "ugt"@ && "sle"@ != "ugt"@ && "sgt"@ != "ugt"@
            && "sge"@ != "ugt"@ && "ult"@ != "ugt"@ && "ule"@ != "ugt"@,
        "eq"@ != "uge"@ && "ne"@ != "uge"@ && "slt"@ != "uge"@ && "sle"@ != "uge"@ && "sgt"@ != "uge"@
            && "sge"@ != "uge"@ && "ult"@ != "uge"@ && "ule"@ != "uge"@ && "ugt"@ != "uge"@,
{
    reveal_strlit("eq");
    reveal_strlit("ne");
    reveal_strlit("slt");
    reveal_strlit("sle");
    reveal_strlit("sgt");
    reveal_strlit("sge");
    reveal_strlit("ult");
    reveal_strlit("ule");
    reveal_strlit("ugt");
    reveal_strlit("uge");
    assert("eq"@[0] != "ne"@[0]);
    assert("eq"@.len() != "slt"@.len());
    assert("eq"@.len() != "sle"@.len());
    assert("eq"@.len() != "sgt"@.len());
    assert("eq"@.len() != "sge"@.len());
    assert("eq"@.len() != "ult"@.len());
    assert("eq"@.len() != "ule"@.len());
    assert("eq"@.len() != "ugt"@.len());
    assert("eq"@.len() != "uge"@.len());
    assert("ne"@.len() != "slt"@.len());
    assert("ne"@.len() != "sle"@.len());
    assert("ne"@.len() != "sgt"@.len());
    assert("ne"@.len() != "sge"@.len());
    assert("ne"@.len() != "ult"@.len());
    assert("ne"@.len() != "ule"@.len());
    assert("ne"@.len() != "ugt"@.len());
    assert("ne"@.len() != "uge"@.len());
    assert("slt"@[2] != "sle"@[2]);
    assert("slt"@[1] != "sgt"@[1]);
    assert("slt"@[1] != "sge"@[1]);
    assert("slt"@[0] != "ult"@[0]);
    assert("slt"@[0] != "ule"@[0]);
    assert("slt"@[0] != "ugt"@[0]);
    assert("slt"@[0] != "uge"@[0]);
    assert("sle"@[1] != "sgt"@[1]);
    assert("sle"@[1] != "sge"@[1]);
    assert("sle"@[0] != "ult"@[0]);
    assert("sle"@[0] != "ule"@[0]);
    assert("sle"@[0] != "ugt"@[0]);
    assert("sle"@[0] != "uge"@[0]);
    assert("sgt"@[2] != "sge"@[2]);
    assert("sgt"@[0] != "ult"@[0]);
    assert("sgt"@[0] != "ule"@[0]);
    assert("sgt"@[0] != "ugt"@[0]);
    assert("sgt"@[0] != "uge"@[0]);
    assert("sge"@[0] != "ult"@[0]);
    assert("sge"@[0] != "ule"@[0]);
    assert("sge"@[0] != "ugt"@[0]);
    assert("sge"@[0] != "uge"@[0]);
    assert("ult"@[2] != "ule"@[2]);
    assert("ult"@[1] != "ugt"@[1]);
    assert("ult"@[1] != "uge"@[1]);
    assert("ule"@[1] != "ugt"@[1]);
    assert("ule"@[1] != "uge"@[1]);
    assert("ugt"@[2] != "uge"@[2]);
}

// ---------------------------------------------------------------------------
// The laws
// ---------------------------------------------------------------------------

/// Integer `Add`, `Sub` and `Mul` wrap: for every width and every pair of
/// operands, the instruction the emitter picks yields the `N`-bit residue of
/// the true sum, difference or product, read signed or unsigned alike.
pub proof fn lemma_int_wrapping_meaning(op: Operation, bits: nat, a: int, b: int, signed: bool)
    requires
        op is Add || op is Sub || op is Mul,
        bits >= 1,
        in_range(a, bits),
        in_range(b, bits),
    ensures
        llvm_int_op(int_arith_instr(op, signed), bits, a, b) == Some(
            wrap(int_op_value(op, view(a, bits, signed), view(b, bits, signed)), bits),
        ),
{
    lemma_literals();
    lemma_wrap_views(op, a, b, bits, signed);
}

/// Integer `Div` and `Mod` round toward zero: for every width and every pair
/// of operands on which the division is defined (a non-zero divisor, and not
/// the signed `MIN / -1`), the instruction the emitter picks for the operand
/// signedness yields the quotient or remainder of the values read that way.
pub proof fn lemma_int_division_meaning(op: Operation, bits: nat, a: int, b: int, signed: bool)
    requires
        op is Div || op is Mod,
        bits >= 1,
        in_range(a, bits),
        in_range(b, bits),
        view(b, bits, signed) != 0,
        !(signed && view(a, bits, signed) == -pow2((bits - 1) as nat) && view(b, bits, signed) == -1),
    ensures
        llvm_int_op(int_arith_instr(op, signed), bits, a, b) == Some(
            wrap(int_op_value(op, view(a, bits, signed), view(b, bits, signed)), bits),
        ),
{
    lemma_literals();
    lemma_pow2_halves(bits);
    if !signed {
        vstd::arithmetic::div_mod::lemma_div_pos_is_pos(a, b);
        vstd::arithmetic::div_mod::lemma_div_is_ordered_by_denominator(a, 1, b);
        assert(a / 1 == a);
        vstd::arithmetic::div_mod::lemma_small_mod((a / b) as nat, pow2(bits));
        vstd::arithmetic::div_mod::lemma_mod_bound(a, b);
        vstd::arithmetic::div_mod::lemma_small_mod((a % b) as nat, pow2(bits));
        vstd::arithmetic::div_mod::lemma_fundamental_div_mod(a, b);
        assert(trunc_div(a, b) == a / b);
        assert(trunc_rem(a, b) == a % b);
    }
}

/// An integer comparison yields exactly what the comparison means on the
/// operands read with their signedness: for every width, every pair of
/// operands and every comparison, `Le` holds of equal operands, `Lt` does
/// not, and so on.
pub proof fn lemma_int_compare_meaning(op: Operation, bits: nat, a: int, b: int, signed: bool)
    requires
        compare_op(op),
        bits >= 1,
        in_range(a, bits),
        in_range(b, bits),
    ensures
        llvm_icmp(int_pred(op, signed), bits, a, b) == Some(holds(op, view(a, bits, signed), view(b, bits, signed))),
{
    lemma_pred_literals();
    lemma_view_congruent(a, bits, signed);
    lemma_view_congruent(b, bits, signed);
    lemma_pow2_halves(bits);
}

/// A floating-point comparison yields what the comparison means, NaN
/// included: `Neq` is the only comparison that holds when either side is
/// NaN, and on ordered values each holds exactly when its relation does.
pub proof fn lemma_float_compare_meaning(op: Operation, x: Option<int>, y: Option<int>)
    requires
        compare_op(op),
    ensures
        llvm_fcmp(float_pred(op), x, y) == Some(float_holds(op, x, y)),
{
    reveal_strlit("oeq");
    reveal_strlit("une");
    reveal_strlit("olt");
    reveal_strlit("ogt");
    reveal_strlit("ole");
    reveal_strlit("oge");
    assert("oeq"@[0] != "une"@[0]);
    assert("oeq"@[1] != "olt"@[1] && "une"@[0] != "olt"@[0]);
    assert("oeq"@[1] != "ogt"@[1] && "une"@[0] != "ogt"@[0] && "olt"@[1] != "ogt"@[1]);
    assert("oeq"@[1] != "ole"@[1] && "une"@[0] != "ole"@[0] && "olt"@[2] != "ole"@[2] && "ogt"@[1] != "ole"@[1]);
    assert("oeq"@[1] != "oge"@[1] && "une"@[0] != "oge"@[0] && "olt"@[1] != "oge"@[1] && "ogt"@[2] != "oge"@[2]
        && "ole"@[1] != "oge"@[1]);
}

/// Floating-point `Add`, `Sub` and `Mul` pick the instruction that computes
/// the sum, difference or product (before rounding).
pub proof fn lemma_float_arith_meaning(op: Operation, x: int, y: int)
    requires
        op is Add || op is Sub || op is Mul,
    ensures
        llvm_float_op(float_instr(op), x, y) == Some(int_op_value(op, x, y)),
{
    reveal_strlit("fadd");
    reveal_strlit("fsub");
    reveal_strlit("fmul");
    assert("fadd"@[1] != "fsub"@[1]);
    assert("fadd"@[1] != "fmul"@[1]);
    assert("fsub"@[1] != "fmul"@[1]);
}

/// Floating-point `Div` and `Mod` pick the instruction that relates the
/// operands and the result as the quotient, and as the truncated remainder.
pub proof fn lemma_float_division_meaning(op: Operation, x: int, y: int, r: int)
    requires
        op is Div || op is Mod,
    ensures
        llvm_float_div_rel(float_instr(op), x, y, r) == float_div_means(op, x, y, r),
{
    reveal_strlit("fdiv");
    reveal_strlit("frem");
    assert("fdiv"@[1] != "frem"@[1]);
}

/// What `emit_arith` writes first for a wrapping integer operation is the
/// instruction whose meaning `lemma_int_wrapping_meaning` gives, into the
/// temporary that is then stored to the target.
pub proof fn lemma_arith_text_instr(
    e: FnEmit,
    t: nat,
    m: usize,
    source: usize,
    target: usize,
    op: Operation,
    opty: Ty,
    llt: Seq<char>,
    a: Seq<char>,
    b: Seq<char>,
)
    requires
        op is Add || op is Sub || op is Mul,
    ensures
        opty matches Ty::Int { signed, .. } ==> e.arith_text(t, m, source, target, op, opty, llt, a, b) == bin_line(
            tmp_name(t),
            int_arith_instr(op, signed),
            llt,
            a,
            b,
        ) + e.store_text(target, llt, tmp_name(t)),
        opty is Float ==> e.arith_text(t, m, source, target, op, opty, llt, a, b) == bin_line(
            tmp_name(t),
            float_instr(op),
            llt,
            a,
            b,
        ) + e.store_text(target, llt, tmp_name(t)),
{
}

/// What a host-side integer division writes: after the zero guard (when the
/// divisor may be zero), the division instruction for the operands' own
/// signedness and for quotient or remainder, stored to the target; a signed
/// division whose divisor may be -1 takes that instruction on its
/// non-overflowing branch.
pub proof fn lemma_division_text_instr(
    e: FnEmit,
    t: nat,
    m: usize,
    source: usize,
    target: usize,
    op: Operation,
    opty: Ty,
    llt: Seq<char>,
    a: Seq<char>,
    b: Seq<char>,
)
    requires
        op is Div || op is Mod,
        opty matches Ty::Int { .. },
        e.guard_flavor is Host || crate::arith::zero_dead(ir::const_int(*e.ir, source, 1)),
    ensures
        ({
            let d = ir::const_int(*e.ir, source, 1);
            let signed = opty->signed;
            let zd = crate::arith::zero_dead(d);
            let u = if zd { t } else { t + 3 };
            let guard = if zd {
                Seq::empty()
            } else {
                bin_line(tmp_name(t), "icmp eq"@, llt, b, "0"@) + crate::emit::trap_text(t + 1, tmp_name(t), 0)
            };
            &&& !(signed && !crate::arith::min_dead(d)) ==> e.arith_text(t, m, source, target, op, opty, llt, a, b)
                == guard + bin_line(tmp_name(u), int_arith_instr(op, signed), llt, a, b) + e.store_text(
                target,
                llt,
                tmp_name(u),
            )
            &&& signed && !crate::arith::min_dead(d) ==> e.arith_text(t, m, source, target, op, opty, llt, a, b)
                == guard + e.host_wrapped_text(u, target, llt, a, b, op is Div)
        }),
{
}

/// The non-overflowing branch of a signed division takes the signed
/// division instruction for quotient or remainder.
pub proof fn lemma_wrapped_division_instr(
    e: FnEmit,
    u: nat,
    target: usize,
    op: Operation,
    llt: Seq<char>,
    a: Seq<char>,
    b: Seq<char>,
)
    requires
        op is Div || op is Mod,
    ensures
        e.host_wrapped_text(u, target, llt, a, b, op is Div) == crate::arith::overflow_test_text(u, llt, a, b)
            + crate::emit::label_text(crate::emit::label_name(u + 3)) + e.store_text(target, llt, crate::arith::wrap_value(llt, op is Div))
            + crate::arith::jump_line(crate::emit::label_name(u + 5)) + crate::emit::label_text(crate::emit::label_name(u + 4))
            + bin_line(tmp_name(u + 6), int_arith_instr(op, true), llt, a, b) + e.store_text(target, llt, tmp_name(u + 6))
            + crate::arith::jump_line(crate::emit::label_name(u + 5)) + crate::emit::label_text(crate::emit::label_name(u + 5)),
{
}

/// What `emit_compare` writes for an integer comparison is an `icmp` with the
/// predicate whose meaning `lemma_int_compare_meaning` gives (signed exactly
/// when the operands are), stored as an `i1`; for a float, an `fcmp` with the
/// predicate of `lemma_float_compare_meaning`.
pub proof fn lemma_compare_text_pred(
    e: FnEmit,
    t: nat,
    target: usize,
    op: Operation,
    opty: Ty,
    llt: Seq<char>,
    a: Seq<char>,
    b: Seq<char>,
)
    ensures
        opty matches Ty::Int { signed, .. } ==> e.compare_text(t, target, op, opty, llt, a, b) == bin_line(
            tmp_name(t),
            "icmp "@ + int_pred(op, signed),
            llt,
            a,
            b,
        ) + e.store_text(target, "i1"@, tmp_name(t)),
        opty is Float ==> e.compare_text(t, target, op, opty, llt, a, b) == bin_line(
            tmp_name(t),
            "fcmp "@ + float_pred(op),
            llt,
            a,
            b,
        ) + e.store_text(target, "i1"@, tmp_name(t)),
{
}

/// What an LLVM integer extension from `from` to `to` bits yields on the
/// representation `a`: `zext` keeps it, `sext` re-represents its signed
/// reading in the wider width.
pub open spec fn llvm_ext(instr: Seq<char>, from: nat, to: nat, a: int) -> Option<int> {
    if instr == "zext"@ {
        Some(a)
    } else if instr == "sext"@ {
        Some(wrap(signed_view(a, from), to))
    } else {
        None
    }
}

/// An index widened to 64 bits keeps its value: the extension `emit_index`
/// picks for an index of any width up to 64 and either signedness yields the
/// 64-bit representation of the index read with that signedness.
pub proof fn lemma_index_ext_meaning(bits: nat, signed: bool, a: int)
    requires
        1 <= bits <= 64,
        in_range(a, bits),
    ensures
        llvm_ext(index_ext(Ty::Int { bits: bits as u32, signed }), bits, 64, a) == Some(wrap(view(a, bits, signed), 64)),
{
    reveal_strlit("zext");
    reveal_strlit("sext");
    assert("zext"@[0] != "sext"@[0]);
    lemma_pow2_pos(bits);
    if bits < 64 {
        lemma_pow2_strictly_increases(bits, 64);
    }
    vstd::arithmetic::div_mod::lemma_small_mod(a as nat, pow2(64));
}

/// A `u64` as an integer.
pub open spec fn u64_int(v: u64) -> int {
    v as int
}

/// A `u64` as a natural number.
pub open spec fn u64_nat(v: u64) -> nat {
    v as nat
}

/// The bounds test of an index is true exactly when the index, read as a
/// signed 64-bit value, lies outside `[0, size)`: the text is a signed
/// less-than against 0 and a signed greater-or-equal against `size`, joined
/// by `or`.
pub proof fn lemma_oob_meaning(t: nat, idx: Seq<char>, size: u64, x: int)
    requires
        size <= i64::MAX,
        in_range(x, 64),
    ensures
        oob_text(t, idx, size) == op_line(tmp_name(t), "icmp "@ + "slt"@, idx, "0"@) + op_line(
            tmp_name(t + 1),
            "icmp "@ + "sge"@,
            idx,
            num::dec_nat(u64_nat(size)),
        ) + line_text(tmp_name(t + 2) + " = or i1 "@ + tmp_name(t) + ", "@ + tmp_name(t + 1)),
        (llvm_icmp("slt"@, 64, x, 0) == Some(signed_view(x, 64) < 0)),
        (llvm_icmp("sge"@, 64, x, u64_int(size)) == Some(signed_view(x, 64) >= size)),
        (signed_view(x, 64) < 0 || signed_view(x, 64) >= size) == !(0 <= signed_view(x, 64) < size),
{
    reveal_strlit("icmp ");
    reveal_strlit("slt");
    reveal_strlit("sge");
    reveal_strlit("icmp slt");
    reveal_strlit("icmp sge");
    assert("icmp "@ + "slt"@ =~= "icmp slt"@);
    assert("icmp "@ + "sge"@ =~= "icmp sge"@);
    lemma_pred_literals();
    lemma_pow2_halves(64);
    vstd::arithmetic::power2::lemma2_to64();
    vstd::arithmetic::power2::lemma2_to64_rest();
}

} // verus!
