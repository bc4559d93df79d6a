//! Scalar arithmetic and comparison on already-loaded operands: the wrapping
//! integer ops, the division guards (a zero divisor traps; `MIN / -1` wraps to
//! `MIN`, and its remainder to 0), and the float and integer predicates.
use vstd::prelude::*;
use vstd::string::*;
use crate::emit::{
    FnEmit, GuardFlavor, label_name, label_text, line_text, same_text, task_site_of, tmp_name,
    trap_text,
};
use crate::ir;
use crate::ir::{Operation, Ty};
use crate::num;
use vstd::seq_lib::lemma_concat_associative;

verus! {

/// The integer types whose signed minimum the division guard spells out.
pub open spec fn core_int(llt: Seq<char>) -> bool {
    llt == "i32"@ || llt == "i64"@ || llt == "i8"@
}

/// The most negative value of a core integer type, as an LLVM literal.
pub open spec fn int_min_text(llt: Seq<char>) -> Seq<char> {
    if llt == "i32"@ {
        "-2147483648"@
    } else if llt == "i64"@ {
        "-9223372036854775808"@
    } else {
        "-128"@
    }
}

/// The most negative value of a core integer type, as an LLVM literal.
pub fn int_min(llt: &str) -> (r: &'static str)
    requires
        core_int(llt@),
    ensures
        r@ == int_min_text(llt@),
{
    if same_text(llt, "i32") {
        "-2147483648"
    } else if same_text(llt, "i64") {
        "-9223372036854775808"
    } else {
        "-128"
    }
}

/// The bit width of a core integer type.
pub open spec fn int_bits(llt: Seq<char>) -> nat {
    if llt == "i32"@ {
        32
    } else if llt == "i64"@ {
        64
    } else {
        8
    }
}

/// `int_min` spells the type's minimum, `-2^(bits - 1)`, in decimal.
pub proof fn lemma_int_min_value(llt: Seq<char>)
    requires
        core_int(llt),
    ensures
        int_min_text(llt) == num::dec_int(-(vstd::arithmetic::power2::pow2(
            (int_bits(llt) - 1) as nat,
        ) as int)),
{
    vstd::arithmetic::power2::lemma2_to64();
    vstd::arithmetic::power2::lemma2_to64_rest();
    reveal_strlit("-2147483648");
    reveal_strlit("-9223372036854775808");
    reveal_strlit("-128");
    reveal_with_fuel(num::dec_nat, 20);
    if llt == "i32"@ {
        assert(vstd::arithmetic::power2::pow2(31) == 2147483648);
        assert(int_min_text(llt) =~= num::dec_int(-2147483648));
    } else if llt == "i64"@ {
        assert(vstd::arithmetic::power2::pow2(63) == 9223372036854775808);
        assert(int_min_text(llt) =~= num::dec_int(-9223372036854775808));
    } else {
        assert(vstd::arithmetic::power2::pow2(7) == 128);
        assert(int_min_text(llt) =~= num::dec_int(-128));
    }
}

/// `<v> = <instr> <llt> <a>, <b>` as a body line.
pub open spec fn bin_line(
    v: Seq<char>,
    instr: Seq<char>,
    llt: Seq<char>,
    a: Seq<char>,
    b: Seq<char>,
) -> Seq<char> {
    line_text(v + " = "@ + instr + " "@ + llt + " "@ + a + ", "@ + b)
}

/// `br i1 <cond>, label %<yes>, label %<no>` as a body line.
pub open spec fn branch_line(cond: Seq<char>, yes: Seq<char>, no: Seq<char>) -> Seq<char> {
    line_text("br i1 "@ + cond + ", label %"@ + yes + ", label %"@ + no)
}

/// `br label %<to>` as a body line.
pub open spec fn jump_line(to: Seq<char>) -> Seq<char> {
    line_text("br label %"@ + to)
}

/// `<v> = phi <llt> [<x>, %<xl>], [<y>, %<yl>]` as a body line.
pub open spec fn phi_line(
    v: Seq<char>,
    llt: Seq<char>,
    x: Seq<char>,
    xl: Seq<char>,
    y: Seq<char>,
    yl: Seq<char>,
) -> Seq<char> {
    line_text(v + " = phi "@ + llt + " ["@ + x + ", %"@ + xl + "], ["@ + y + ", %"@ + yl + "]"@)
}

/// The integer division instruction.
pub open spec fn div_instr(signed: bool, div: bool) -> Seq<char> {
    if signed {
        if div {
            "sdiv"@
        } else {
            "srem"@
        }
    } else {
        if div {
            "udiv"@
        } else {
            "urem"@
        }
    }
}

/// What `MIN / -1` yields: `MIN` for a quotient, 0 for a remainder.
pub open spec fn wrap_value(llt: Seq<char>, div: bool) -> Seq<char> {
    if div {
        int_min_text(llt)
    } else {
        "0"@
    }
}

/// The arithmetic operations `emit_arith` lowers.
pub open spec fn arith_op(op: Operation) -> bool {
    op is Add || op is Sub || op is Mul || op is Div || op is Mod
}

/// The comparisons `emit_compare` lowers.
pub open spec fn compare_op(op: Operation) -> bool {
    op is Eq || op is Neq || op is Lt || op is Gt || op is Le || op is Ge
}

/// The float instruction of an arithmetic operation.
pub open spec fn float_instr(op: Operation) -> Seq<char> {
    match op {
        Operation::Add => "fadd"@,
        Operation::Sub => "fsub"@,
        Operation::Mul => "fmul"@,
        Operation::Div => "fdiv"@,
        _ => "frem"@,
    }
}

/// The wrapping integer instruction of `Add`, `Sub` and `Mul`.
pub open spec fn int_instr(op: Operation) -> Seq<char> {
    match op {
        Operation::Add => "add"@,
        Operation::Sub => "sub"@,
        _ => "mul"@,
    }
}

/// The ordered `fcmp` predicate of a comparison (`une` for `Neq`).
pub open spec fn float_pred(op: Operation) -> Seq<char> {
    match op {
        Operation::Eq => "oeq"@,
        Operation::Neq => "une"@,
        Operation::Lt => "olt"@,
        Operation::Gt => "ogt"@,
        Operation::Le => "ole"@,
        _ => "oge"@,
    }
}

/// The `icmp` predicate of a comparison, signed or unsigned.
pub open spec fn int_pred(op: Operation, signed: bool) -> Seq<char> {
    match op {
        Operation::Eq => "eq"@,
        Operation::Neq => "ne"@,
        Operation::Lt => if signed {
            "slt"@
        } else {
            "ult"@
        },
        Operation::Gt => if signed {
            "sgt"@
        } else {
            "ugt"@
        },
        Operation::Le => if signed {
            "sle"@
        } else {
            "ule"@
        },
        _ => if signed {
            "sge"@
        } else {
            "uge"@
        },
    }
}

/// The operand type is a signed integer.
pub open spec fn signed_int(ty: Ty) -> bool {
    ty matches Ty::Int { signed, .. } && signed
}

/// The test for `MIN / -1` and its branch, temporaries `t..t+2`, labels
/// `t+3` (overflow) and `t+4` (normal).
pub open spec fn overflow_test_text(t: nat, llt: Seq<char>, a: Seq<char>, b: Seq<char>) -> Seq<
    char,
> {
    bin_line(tmp_name(t), "icmp eq"@, llt, b, "-1"@) + bin_line(
        tmp_name(t + 1),
        "icmp eq"@,
        llt,
        a,
        int_min_text(llt),
    ) + line_text(tmp_name(t + 2) + " = and i1 "@ + tmp_name(t) + ", "@ + tmp_name(t + 1))
        + branch_line(tmp_name(t + 2), label_name(t + 3), label_name(t + 4))
}

/// The task-side zero test: a zero divisor branches to `t+1`, which records
/// a trap at `site` and jumps to the join `t+3`; the rest continues at `t+2`.
pub open spec fn task_div_head(t: nat, site: nat, llt: Seq<char>, b: Seq<char>) -> Seq<char> {
    bin_line(tmp_name(t), "icmp eq"@, llt, b, "0"@) + branch_line(
        tmp_name(t),
        label_name(t + 1),
        label_name(t + 2),
    ) + label_text(label_name(t + 1)) + line_text(
        "call void @mapal_par_trap(i64 "@ + num::dec_nat(site) + ", i32 "@ + num::dec_nat(0)
            + ")"@,
    ) + jump_line(label_name(t + 3)) + label_text(label_name(t + 2))
}

/// The overflow split of a signed division yielding a value: `MIN / -1`
/// gives the wrapped value, anything else the real quotient; ordinals `t..t+7`,
/// the value in `t+7`, the join label `t+5`.
pub open spec fn wrapped_div_text(t: nat, llt: Seq<char>, a: Seq<char>, b: Seq<char>, div: bool) -> Seq<
    char,
> {
    overflow_test_text(t, llt, a, b) + label_text(label_name(t + 3)) + jump_line(label_name(t + 5))
        + label_text(label_name(t + 4)) + bin_line(tmp_name(t + 6), div_instr(true, div), llt, a, b)
        + jump_line(label_name(t + 5)) + label_text(label_name(t + 5)) + phi_line(
        tmp_name(t + 7),
        llt,
        wrap_value(llt, div),
        label_name(t + 3),
        tmp_name(t + 6),
        label_name(t + 4),
    )
}

/// The task-side join: both paths meet at `t+3` in a `phi` of 0 (zero divisor)
/// and the quotient.
pub open spec fn task_div_tail(t: nat, llt: Seq<char>, guarded: bool) -> Seq<char> {
    let end = if guarded {
        t + 12
    } else {
        t + 5
    };
    let good_value = if guarded {
        tmp_name(t + 11)
    } else {
        tmp_name(t + 4)
    };
    let good_block = if guarded {
        label_name(t + 9)
    } else {
        label_name(t + 2)
    };
    jump_line(label_name(t + 3)) + label_text(label_name(t + 3)) + phi_line(
        tmp_name(end),
        llt,
        "0"@,
        label_name(t + 1),
        good_value,
        good_block,
    )
}

/// A literal divisor rules out division by zero.
pub open spec fn zero_dead(d: Option<i128>) -> bool {
    match d {
        Some(v) => v != 0,
        None => false,
    }
}

/// A literal divisor rules out the `MIN / -1` overflow.
pub open spec fn min_dead(d: Option<i128>) -> bool {
    match d {
        Some(v) => v != -1,
        None => false,
    }
}

fn div_op(signed: bool, div: bool) -> (r: &'static str)
    ensures
        r@ == div_instr(signed, div),
{
    if signed {
        if div {
            "sdiv"
        } else {
            "srem"
        }
    } else {
        if div {
            "udiv"
        } else {
            "urem"
        }
    }
}

impl<'a> FnEmit<'a> {
    /// The host-side overflow split, ordinals from `t`: `MIN / -1` stores the
    /// wrapped value, anything else the real signed quotient.
    pub open spec fn host_wrapped_text(
        self,
        t: nat,
        target: usize,
        llt: Seq<char>,
        a: Seq<char>,
        b: Seq<char>,
        div: bool,
    ) -> Seq<char> {
        overflow_test_text(t, llt, a, b) + label_text(label_name(t + 3)) + self.store_text(
            target,
            llt,
            wrap_value(llt, div),
        ) + jump_line(label_name(t + 5)) + label_text(label_name(t + 4)) + bin_line(
            tmp_name(t + 6),
            div_instr(true, div),
            llt,
            a,
            b,
        ) + self.store_text(target, llt, tmp_name(t + 6)) + jump_line(label_name(t + 5))
            + label_text(label_name(t + 5))
    }

    /// What a host-flavor division appends, its ordinals numbered from `t`:
    /// the zero guard (a trap) unless the divisor is a non-zero literal, then,
    /// for a signed division whose divisor may be -1, the overflow split, else
    /// the plain quotient stored into `target`.
    pub open spec fn host_div_text(
        self,
        t: nat,
        target: usize,
        llt: Seq<char>,
        a: Seq<char>,
        b: Seq<char>,
        signed: bool,
        zero_dead: bool,
        min_dead: bool,
        div: bool,
    ) -> Seq<char> {
        let u = if zero_dead {
            t
        } else {
            t + 3
        };
        let guard = if zero_dead {
            Seq::empty()
        } else {
            bin_line(tmp_name(t), "icmp eq"@, llt, b, "0"@) + trap_text(t + 1, tmp_name(t), 0)
        };
        guard + if signed && !min_dead {
            self.host_wrapped_text(u, target, llt, a, b, div)
        } else {
            bin_line(tmp_name(u), div_instr(signed, div), llt, a, b) + self.store_text(
                target,
                llt,
                tmp_name(u),
            )
        }
    }

    /// What `emit_arith` appends, its ordinals numbered from `t`.
    pub open spec fn arith_text(
        self,
        t: nat,
        m: usize,
        source: usize,
        target: usize,
        op: Operation,
        opty: Ty,
        llt: Seq<char>,
        a: Seq<char>,
        b: Seq<char>,
    ) -> Seq<char> {
        if ir::is_float_ty(opty) {
            bin_line(tmp_name(t), float_instr(op), llt, a, b) + self.store_text(
                target,
                llt,
                tmp_name(t),
            )
        } else if op is Add || op is Sub || op is Mul {
            bin_line(tmp_name(t), int_instr(op), llt, a, b) + self.store_text(
                target,
                llt,
                tmp_name(t),
            )
        } else {
            let d = ir::const_int(*self.ir, source, 1);
            if !zero_dead(d) && !(self.guard_flavor is Host) {
                self.task_div_text(
                    t,
                    task_site_of(*self.ir, self.f, self.guard_flavor, m) as nat,
                    target,
                    llt,
                    a,
                    b,
                    signed_int(opty),
                    min_dead(d),
                    op is Div,
                )
            } else {
                self.host_div_text(
                    t,
                    target,
                    llt,
                    a,
                    b,
                    signed_int(opty),
                    zero_dead(d),
                    min_dead(d),
                    op is Div,
                )
            }
        }
    }

    /// How many ordinals `emit_arith` mints.
    pub open spec fn arith_width(self, source: usize, op: Operation, opty: Ty) -> nat {
        if ir::is_float_ty(opty) || op is Add || op is Sub || op is Mul {
            1
        } else {
            let d = ir::const_int(*self.ir, source, 1);
            let guarded = signed_int(opty) && !min_dead(d);
            if !zero_dead(d) && !(self.guard_flavor is Host) {
                if guarded {
                    13
                } else {
                    6
                }
            } else {
                (if zero_dead(d) {
                    0nat
                } else {
                    3nat
                }) + (if guarded {
                    7nat
                } else {
                    1nat
                })
            }
        }
    }

    /// What a task-flavor division appends, its ordinals numbered from `t`: a
    /// zero divisor records a trap at `site` and yields 0; otherwise the
    /// (overflow-split, when signed and the divisor may be -1) quotient; the
    /// two meet in a `phi` whose value is stored into `target`.
    pub open spec fn task_div_text(
        self,
        t: nat,
        site: nat,
        target: usize,
        llt: Seq<char>,
        a: Seq<char>,
        b: Seq<char>,
        signed: bool,
        min_dead: bool,
        div: bool,
    ) -> Seq<char> {
        let guarded = signed && !min_dead;
        let end = if guarded {
            t + 12
        } else {
            t + 5
        };
        task_div_head(t, site, llt, b) + (if guarded {
            wrapped_div_text(t + 4, llt, a, b, div)
        } else {
            bin_line(tmp_name(t + 4), div_instr(signed, div), llt, a, b)
        }) + task_div_tail(t, llt, guarded) + self.store_text(target, llt, tmp_name(end))
    }

    /// `<v> = <instr> <llt> <a>, <b>` into a fresh temporary.
    pub(crate) fn emit_bin(&mut self, instr: &str, llt: &str, a: &str, b: &str) -> (v: String)
        requires
            old(self).next < u32::MAX,
        ensures
            v@ == tmp_name(old(self).next as nat),
            final(self).body@ == old(self).body@ + bin_line(v@, instr@, llt@, a@, b@),
            final(self).next == old(self).next + 1,
            final(self).allocas == old(self).allocas,
            final(self).heap_used == old(self).heap_used,
            final(self).same_setup(*old(self)),
    {
        let v = self.tmp();
        let mut s = String::from_str(v.as_str());
        s.append(" = ");
        s.append(instr);
        s.append(" ");
        s.append(llt);
        s.append(" ");
        s.append(a);
        s.append(", ");
        s.append(b);
        self.line(s.as_str());
        assert(s@ =~= v@ + " = "@ + instr@ + " "@ + llt@ + " "@ + a@ + ", "@ + b@);
        v
    }

    /// `br i1 <cond>, label %<yes>, label %<no>`.
    pub(crate) fn branch(&mut self, cond: &str, yes: &str, no: &str)
        ensures
            final(self).body@ == old(self).body@ + branch_line(cond@, yes@, no@),
            final(self).next == old(self).next,
            final(self).allocas == old(self).allocas,
            final(self).heap_used == old(self).heap_used,
            final(self).same_setup(*old(self)),
    {
        let mut s = String::from_str("br i1 ");
        s.append(cond);
        s.append(", label %");
        s.append(yes);
        s.append(", label %");
        s.append(no);
        self.line(s.as_str());
        assert(s@ =~= "br i1 "@ + cond@ + ", label %"@ + yes@ + ", label %"@ + no@);
    }

    /// `br label %<to>`.
    pub(crate) fn jump(&mut self, to: &str)
        ensures
            final(self).body@ == old(self).body@ + jump_line(to@),
            final(self).next == old(self).next,
            final(self).allocas == old(self).allocas,
            final(self).heap_used == old(self).heap_used,
            final(self).same_setup(*old(self)),
    {
        let mut s = String::from_str("br label %");
        s.append(to);
        self.line(s.as_str());
        assert(s@ =~= "br label %"@ + to@);
    }

    /// `<v> = phi <llt> [<x>, %<xl>], [<y>, %<yl>]` into a fresh temporary.
    pub(crate) fn emit_phi(&mut self, llt: &str, x: &str, xl: &str, y: &str, yl: &str) -> (v: String)
        requires
            old(self).next < u32::MAX,
        ensures
            v@ == tmp_name(old(self).next as nat),
            final(self).body@ == old(self).body@ + phi_line(v@, llt@, x@, xl@, y@, yl@),
            final(self).next == old(self).next + 1,
            final(self).allocas == old(self).allocas,
            final(self).heap_used == old(self).heap_used,
            final(self).same_setup(*old(self)),
    {
        let v = self.tmp();
        let mut s = String::from_str(v.as_str());
        s.append(" = phi ");
        s.append(llt);
        s.append(" [");
        s.append(x);
        s.append(", %");
        s.append(xl);
        s.append("], [");
        s.append(y);
        s.append(", %");
        s.append(yl);
        s.append("]");
        self.line(s.as_str());
        assert(s@ =~= v@ + " = phi "@ + llt@ + " ["@ + x@ + ", %"@ + xl@ + "], ["@ + y@ + ", %"@
            + yl@ + "]"@);
        v
    }

    /// Test `a == MIN && b == -1` and branch on it; returns the overflow,
    /// normal and join labels.
    fn emit_overflow_test(&mut self, llt: &str, a: &str, b: &str) -> (r: (String, String, String))
        requires
            old(self).next + 6 <= u32::MAX,
            core_int(llt@),
        ensures
            final(self).body@ == old(self).body@ + overflow_test_text(
                old(self).next as nat,
                llt@,
                a@,
                b@,
            ),
            r.0@ == label_name((old(self).next + 3) as nat),
            r.1@ == label_name((old(self).next + 4) as nat),
            r.2@ == label_name((old(self).next + 5) as nat),
            final(self).next == old(self).next + 6,
            final(self).allocas == old(self).allocas,
            final(self).heap_used == old(self).heap_used,
            final(self).same_setup(*old(self)),
    {
        let min = int_min(llt);
        let minus_one = self.emit_bin("icmp eq", llt, b, "-1");
        let is_min = self.emit_bin("icmp eq", llt, a, min);
        let mut s = String::from_str(" = and i1 ");
        s.append(minus_one.as_str());
        s.append(", ");
        s.append(is_min.as_str());
        let overflow = self.tmp();
        let mut line = String::from_str(overflow.as_str());
        line.append(s.as_str());
        self.line(line.as_str());
        assert(line@ =~= overflow@ + " = and i1 "@ + minus_one@ + ", "@ + is_min@);
        let wrap = self.label();
        let normal = self.label();
        let join = self.label();
        self.branch(overflow.as_str(), wrap.as_str(), normal.as_str());
        assert(self.body@ =~= old(self).body@ + overflow_test_text(
            old(self).next as nat,
            llt@,
            a@,
            b@,
        ));
        (wrap, normal, join)
    }

    /// The overflow split yielding a value; returns the value and the join label.
    fn emit_wrapped_div(&mut self, llt: &str, a: &str, b: &str, div: bool) -> (r: (String, String))
        requires
            old(self).next + 8 <= u32::MAX,
            core_int(llt@),
        ensures
            final(self).body@ == old(self).body@ + wrapped_div_text(
                old(self).next as nat,
                llt@,
                a@,
                b@,
                div,
            ),
            r.0@ == tmp_name((old(self).next + 7) as nat),
            r.1@ == label_name((old(self).next + 5) as nat),
            final(self).next == old(self).next + 8,
            final(self).allocas == old(self).allocas,
            final(self).heap_used == old(self).heap_used,
            final(self).same_setup(*old(self)),
    {
        let ghost t = old(self).next as nat;
        let ghost o = old(self).body@;
        let (wrap, normal, wrapped) = self.emit_overflow_test(llt, a, b);
        let ghost w1 = overflow_test_text(t, llt@, a@, b@);
        self.label_line(wrap.as_str());
        let ghost w2 = w1 + label_text(label_name(t + 3));
        proof {
            lemma_concat_associative(o, w1, label_text(label_name(t + 3)));
        }
        self.jump(wrapped.as_str());
        let ghost w3 = w2 + jump_line(label_name(t + 5));
        proof {
            lemma_concat_associative(o, w2, jump_line(label_name(t + 5)));
        }
        self.label_line(normal.as_str());
        let ghost w4 = w3 + label_text(label_name(t + 4));
        proof {
            lemma_concat_associative(o, w3, label_text(label_name(t + 4)));
        }
        let quotient = self.emit_bin(div_op(true, div), llt, a, b);
        let ghost q = bin_line(tmp_name(t + 6), div_instr(true, div), llt@, a@, b@);
        let ghost w5 = w4 + q;
        proof {
            lemma_concat_associative(o, w4, q);
        }
        self.jump(wrapped.as_str());
        let ghost w6 = w5 + jump_line(label_name(t + 5));
        proof {
            lemma_concat_associative(o, w5, jump_line(label_name(t + 5)));
        }
        self.label_line(wrapped.as_str());
        let ghost w7 = w6 + label_text(label_name(t + 5));
        proof {
            lemma_concat_associative(o, w6, label_text(label_name(t + 5)));
        }
        let wrapped_value = if div {
            int_min(llt)
        } else {
            "0"
        };
        let value = self.emit_phi(llt, wrapped_value, wrap.as_str(), quotient.as_str(), normal.as_str());
        let ghost ph = phi_line(
            tmp_name(t + 7),
            llt@,
            wrap_value(llt@, div),
            label_name(t + 3),
            tmp_name(t + 6),
            label_name(t + 4),
        );
        proof {
            lemma_concat_associative(o, w7, ph);
        }
        assert(w7 + ph == wrapped_div_text(t, llt@, a@, b@, div));
        (value, wrapped)
    }

    /// The task-side zero test; returns the trap, continue and join labels.
    fn emit_task_zero_test(&mut self, m: usize, llt: &str, b: &str) -> (r: (String, String, String))
        requires
            old(self).next + 4 <= u32::MAX,
            !(old(self).guard_flavor is Host),
            old(self).f < old(self).ir.funcs.len(),
            old(self).guard_flavor is Task ==> old(self).ir.funcs@[old(self).f as int].topo@.contains(
                m,
            ),
        ensures
            final(self).body@ == old(self).body@ + task_div_head(
                old(self).next as nat,
                task_site_of(*old(self).ir, old(self).f, old(self).guard_flavor, m) as nat,
                llt@,
                b@,
            ),
            r.0@ == label_name((old(self).next + 1) as nat),
            r.1@ == label_name((old(self).next + 2) as nat),
            r.2@ == label_name((old(self).next + 3) as nat),
            final(self).next == old(self).next + 4,
            final(self).runtime_write,
            final(self).allocas == old(self).allocas,
            final(self).heap_used == old(self).heap_used,
            final(self).ir == old(self).ir,
            final(self).f == old(self).f,
            final(self).slots == old(self).slots,
            final(self).frame == old(self).frame,
            final(self).frame_geps == old(self).frame_geps,
            final(self).guard_flavor == old(self).guard_flavor,
    {
        let ghost t = old(self).next as nat;
        let ghost site = task_site_of(*old(self).ir, old(self).f, old(self).guard_flavor, m) as nat;
        let ghost o = old(self).body@;
        let zero = self.emit_bin("icmp eq", llt, b, "0");
        let ghost w1 = bin_line(tmp_name(t), "icmp eq"@, llt@, b@, "0"@);
        let bad = self.label();
        let good = self.label();
        let done = self.label();
        self.branch(zero.as_str(), bad.as_str(), good.as_str());
        let ghost p2 = branch_line(tmp_name(t), label_name(t + 1), label_name(t + 2));
        let ghost w2 = w1 + p2;
        proof {
            lemma_concat_associative(o, w1, p2);
        }
        self.label_line(bad.as_str());
        let ghost p3 = label_text(label_name(t + 1));
        let ghost w3 = w2 + p3;
        proof {
            lemma_concat_associative(o, w2, p3);
        }
        self.record_trap(m, 0);
        let ghost p4 = line_text(
            "call void @mapal_par_trap(i64 "@ + num::dec_nat(site) + ", i32 "@ + num::dec_nat(0)
                + ")"@,
        );
        let ghost w4 = w3 + p4;
        proof {
            lemma_concat_associative(o, w3, p4);
        }
        self.jump(done.as_str());
        let ghost p5 = jump_line(label_name(t + 3));
        let ghost w5 = w4 + p5;
        proof {
            lemma_concat_associative(o, w4, p5);
        }
        self.label_line(good.as_str());
        let ghost p6 = label_text(label_name(t + 2));
        proof {
            lemma_concat_associative(o, w5, p6);
        }
        assert(w5 + p6 == task_div_head(t, site, llt@, b@));
        (bad, good, done)
    }

    /// A task-side integer division: a zero divisor records a trap into the
    /// run and yields 0 instead of trapping the process; the result is stored
    /// into `target`.
    #[verifier::spinoff_prover]
    #[verifier::rlimit(40)]
    pub fn emit_task_div(
        &mut self,
        m: usize,
        target: usize,
        op: Operation,
        llt: &str,
        a: &str,
        b: &str,
        signed: bool,
        min_dead: bool,
    )
        requires
            old(self).next + 13 <= u32::MAX,
            op is Div || op is Mod,
            signed && !min_dead ==> core_int(llt@),
            !(old(self).guard_flavor is Host),
            old(self).f < old(self).ir.funcs.len(),
            old(self).guard_flavor is Task ==> old(self).ir.funcs@[old(self).f as int].topo@.contains(
                m,
            ),
            (target as int) < old(self).slots.len(),
            old(self).frame matches Some(fr) ==> fr.owners_below(old(self).slots@.len()),
        ensures
            final(self).body@ == old(self).body@ + old(self).task_div_text(
                old(self).next as nat,
                task_site_of(*old(self).ir, old(self).f, old(self).guard_flavor, m) as nat,
                target,
                llt@,
                a@,
                b@,
                signed,
                min_dead,
                op is Div,
            ),
            final(self).next == old(self).next + if signed && !min_dead {
                13int
            } else {
                6int
            },
            final(self).runtime_write,
            final(self).allocas == old(self).allocas,
            final(self).heap_used == old(self).heap_used,
            final(self).ir == old(self).ir,
            final(self).f == old(self).f,
            final(self).guard_flavor == old(self).guard_flavor,
            final(self).frame == old(self).frame,
            final(self).slots.len() == old(self).slots.len(),
            old(self).slot_resolution(*final(self), target),
    {
        let ghost t = old(self).next as nat;
        let ghost site = task_site_of(*old(self).ir, old(self).f, old(self).guard_flavor, m) as nat;
        let ghost o = old(self).body@;
        let div = match op {
            Operation::Div => true,
            _ => false,
        };
        let (bad, good, done) = self.emit_task_zero_test(m, llt, b);
        let ghost w6 = task_div_head(t, site, llt@, b@);
        let ghost guarded = signed && !min_dead;
        let (good_value, good_block) = if signed && !min_dead {
            self.emit_wrapped_div(llt, a, b, div)
        } else {
            let value = self.emit_bin(div_op(signed, div), llt, a, b);
            (value, good)
        };
        let ghost g = if guarded {
            wrapped_div_text(t + 4, llt@, a@, b@, div)
        } else {
            bin_line(tmp_name(t + 4), div_instr(signed, div), llt@, a@, b@)
        };
        let ghost w7 = w6 + g;
        proof {
            lemma_concat_associative(o, w6, g);
        }
        let ghost m0 = self.body@;
        self.jump(done.as_str());
        self.label_line(done.as_str());
        let value = self.emit_phi(llt, "0", bad.as_str(), good_value.as_str(), good_block.as_str());
        let ghost tail = task_div_tail(t, llt@, guarded);
        proof {
            let p = jump_line(label_name(t + 3));
            let q = label_text(label_name(t + 3));
            lemma_concat_associative(m0, p, q);
            lemma_concat_associative(m0, p + q, phi_line(value@, llt@, "0"@, bad@, good_value@, good_block@));
            assert(p + q + phi_line(value@, llt@, "0"@, bad@, good_value@, good_block@) == tail);
        }
        let ghost w8 = w7 + tail;
        proof {
            lemma_concat_associative(o, w7, tail);
        }
        let ghost before_store = *self;
        assert(before_store.store_text(target, llt@, value@) == old(self).store_text(
            target,
            llt@,
            value@,
        ));
        self.store_obj(target, llt, value.as_str());
        let ghost st = old(self).store_text(target, llt@, value@);
        proof {
            lemma_concat_associative(o, w8, st);
        }
        assert(w8 + st == old(self).task_div_text(
            t,
            site,
            target,
            llt@,
            a@,
            b@,
            signed,
            min_dead,
            div,
        ));
    }

    /// The host-side overflow split of a signed division into `target`.
    fn emit_host_wrapped(&mut self, target: usize, llt: &str, a: &str, b: &str, div: bool)
        requires
            old(self).next + 7 <= u32::MAX,
            core_int(llt@),
            (target as int) < old(self).slots.len(),
            old(self).frame matches Some(fr) ==> fr.owners_below(old(self).slots@.len()),
        ensures
            final(self).body@ == old(self).body@ + old(self).host_wrapped_text(
                old(self).next as nat,
                target,
                llt@,
                a@,
                b@,
                div,
            ),
            final(self).next == old(self).next + 7,
            final(self).allocas == old(self).allocas,
            final(self).slots.len() == old(self).slots.len(),
            final(self).frame == old(self).frame,
            final(self).slot_of(target) == old(self).slot_of(target),
            old(self).slot_resolution(*final(self), target),
            final(self).heap_used == old(self).heap_used,
            final(self).ir == old(self).ir,
            final(self).f == old(self).f,
            final(self).runtime_write == old(self).runtime_write,
            final(self).guard_flavor == old(self).guard_flavor,
    {
        let ghost t = old(self).next as nat;
        let ghost o = old(self).body@;
        let ghost e = *old(self);
        let (wrap, normal, join) = self.emit_overflow_test(llt, a, b);
        let ghost w1 = overflow_test_text(t, llt@, a@, b@);
        self.label_line(wrap.as_str());
        let ghost p2 = label_text(label_name(t + 3));
        let ghost w2 = w1 + p2;
        proof {
            lemma_concat_associative(o, w1, p2);
        }
        let wrapped_value = if div {
            int_min(llt)
        } else {
            "0"
        };
        self.store_obj(target, llt, wrapped_value);
        let ghost p3 = e.store_text(target, llt@, wrap_value(llt@, div));
        let ghost w3 = w2 + p3;
        proof {
            lemma_concat_associative(o, w2, p3);
        }
        self.jump(join.as_str());
        let ghost p4 = jump_line(label_name(t + 5));
        let ghost w4 = w3 + p4;
        proof {
            lemma_concat_associative(o, w3, p4);
        }
        self.label_line(normal.as_str());
        let ghost p5 = label_text(label_name(t + 4));
        let ghost w5 = w4 + p5;
        proof {
            lemma_concat_associative(o, w4, p5);
        }
        let quotient = self.emit_bin(div_op(true, div), llt, a, b);
        let ghost p6 = bin_line(tmp_name(t + 6), div_instr(true, div), llt@, a@, b@);
        let ghost w6 = w5 + p6;
        proof {
            lemma_concat_associative(o, w5, p6);
        }
        self.store_obj(target, llt, quotient.as_str());
        let ghost p7 = e.store_text(target, llt@, tmp_name(t + 6));
        let ghost w7 = w6 + p7;
        proof {
            lemma_concat_associative(o, w6, p7);
        }
        self.jump(join.as_str());
        let ghost p8 = jump_line(label_name(t + 5));
        let ghost w8 = w7 + p8;
        proof {
            lemma_concat_associative(o, w7, p8);
        }
        self.label_line(join.as_str());
        let ghost p9 = label_text(label_name(t + 5));
        proof {
            lemma_concat_associative(o, w8, p9);
        }
        assert(w8 + p9 == e.host_wrapped_text(t, target, llt@, a@, b@, div));
    }

    /// A host-side integer division into `target`: the zero guard traps.
    fn emit_host_div(
        &mut self,
        target: usize,
        llt: &str,
        a: &str,
        b: &str,
        signed: bool,
        zero_dead: bool,
        min_dead: bool,
        div: bool,
    )
        requires
            old(self).next + 10 <= u32::MAX,
            signed && !min_dead ==> core_int(llt@),
            (target as int) < old(self).slots.len(),
            old(self).frame matches Some(fr) ==> fr.owners_below(old(self).slots@.len()),
        ensures
            final(self).body@ == old(self).body@ + old(self).host_div_text(
                old(self).next as nat,
                target,
                llt@,
                a@,
                b@,
                signed,
                zero_dead,
                min_dead,
                div,
            ),
            final(self).next == old(self).next + (if zero_dead {
                0nat
            } else {
                3nat
            }) + (if signed && !min_dead {
                7nat
            } else {
                1nat
            }),
            final(self).allocas == old(self).allocas,
            final(self).slots.len() == old(self).slots.len(),
            final(self).frame == old(self).frame,
            final(self).heap_used == old(self).heap_used,
            final(self).runtime_write == old(self).runtime_write,
            old(self).slot_resolution(*final(self), target),
            final(self).ir == old(self).ir,
            final(self).f == old(self).f,
            final(self).runtime_write == old(self).runtime_write,
            final(self).guard_flavor == old(self).guard_flavor,
    {
        let ghost t = old(self).next as nat;
        let ghost o = old(self).body@;
        let ghost e = *old(self);
        if !zero_dead {
            let z = self.emit_bin("icmp eq", llt, b, "0");
            self.trap_if(z.as_str(), 0);
            proof {
                lemma_concat_associative(
                    o,
                    bin_line(tmp_name(t), "icmp eq"@, llt@, b@, "0"@),
                    trap_text(t + 1, tmp_name(t), 0),
                );
            }
        }
        let ghost guard = if zero_dead {
            Seq::<char>::empty()
        } else {
            bin_line(tmp_name(t), "icmp eq"@, llt@, b@, "0"@) + trap_text(t + 1, tmp_name(t), 0)
        };
        assert(self.body@ == o + guard);
        let ghost u = self.next as nat;
        let ghost rest = if signed && !min_dead {
            e.host_wrapped_text(u, target, llt@, a@, b@, div)
        } else {
            bin_line(tmp_name(u), div_instr(signed, div), llt@, a@, b@) + e.store_text(
                target,
                llt@,
                tmp_name(u),
            )
        };
        if signed && !min_dead {
            self.emit_host_wrapped(target, llt, a, b, div);
        } else {
            let r = self.emit_bin(div_op(signed, div), llt, a, b);
            self.store_obj(target, llt, r.as_str());
            proof {
                lemma_concat_associative(
                    o + guard,
                    bin_line(tmp_name(u), div_instr(signed, div), llt@, a@, b@),
                    e.store_text(target, llt@, tmp_name(u)),
                );
            }
        }
        proof {
            lemma_concat_associative(o, guard, rest);
        }
        assert(guard + rest == e.host_div_text(
            t,
            target,
            llt@,
            a@,
            b@,
            signed,
            zero_dead,
            min_dead,
            div,
        ));
    }

    /// A scalar `Add`/`Sub`/`Mul`/`Div`/`Mod` on the loaded operands `a` and
    /// `b` of type `llt` (the operands of `source`, typed `opty`), stored
    /// into `target`. Integer arithmetic wraps; a division traps on a zero
    /// divisor (recorded into the run on a task) unless the divisor is a
    /// non-zero literal, and a signed `MIN / -1` yields `MIN` (remainder 0)
    /// unless the divisor is a literal other than -1.
    pub fn emit_arith(
        &mut self,
        m: usize,
        source: usize,
        target: usize,
        op: Operation,
        opty: &Ty,
        llt: &str,
        a: &str,
        b: &str,
    )
        requires
            old(self).next + 16 <= u32::MAX,
            arith_op(op),
            old(self).ir.wf(),
            source < old(self).ir.objects.len(),
            (target as int) < old(self).slots.len(),
            old(self).frame matches Some(fr) ==> fr.owners_below(old(self).slots@.len()),
            ({
                let d = ir::const_int(*old(self).ir, source, 1);
                !ir::is_float_ty(*opty) && (op is Div || op is Mod) ==> {
                    &&& signed_int(*opty) && !min_dead(d) ==> core_int(llt@)
                    &&& !zero_dead(d) && !(old(self).guard_flavor is Host) ==> {
                        &&& old(self).f < old(self).ir.funcs.len()
                        &&& old(self).guard_flavor is Task ==> old(self).ir.funcs@[old(
                            self,
                        ).f as int].topo@.contains(m)
                    }
                }
            }),
        ensures
            final(self).body@ == old(self).body@ + old(self).arith_text(
                old(self).next as nat,
                m,
                source,
                target,
                op,
                *opty,
                llt@,
                a@,
                b@,
            ),
            final(self).next == old(self).next + old(self).arith_width(source, op, *opty),
            final(self).runtime_write == (old(self).runtime_write || old(self).arith_records(source, op, *opty)),
            old(self).slot_resolution(*final(self), target),
            final(self).allocas == old(self).allocas,
            final(self).slots.len() == old(self).slots.len(),
            final(self).frame == old(self).frame,
            final(self).heap_used == old(self).heap_used,
            final(self).ir == old(self).ir,
            final(self).f == old(self).f,
            final(self).guard_flavor == old(self).guard_flavor,
    {
        let ghost t = old(self).next as nat;
        let ghost o = old(self).body@;
        if ir::is_float(opty) {
            let fop = match op {
                Operation::Add => "fadd",
                Operation::Sub => "fsub",
                Operation::Mul => "fmul",
                Operation::Div => "fdiv",
                _ => "frem",
            };
            let r = self.emit_bin(fop, llt, a, b);
            self.store_obj(target, llt, r.as_str());
            proof {
                lemma_concat_associative(
                    o,
                    bin_line(tmp_name(t), float_instr(op), llt@, a@, b@),
                    old(self).store_text(target, llt@, tmp_name(t)),
                );
            }
            return ;
        }
        let signed = match opty {
            Ty::Int { signed, .. } => *signed,
            _ => false,
        };
        match op {
            Operation::Add | Operation::Sub | Operation::Mul => {
                let iop = match op {
                    Operation::Add => "add",
                    Operation::Sub => "sub",
                    _ => "mul",
                };
                let r = self.emit_bin(iop, llt, a, b);
                self.store_obj(target, llt, r.as_str());
                proof {
                    lemma_concat_associative(
                        o,
                        bin_line(tmp_name(t), int_instr(op), llt@, a@, b@),
                        old(self).store_text(target, llt@, tmp_name(t)),
                    );
                }
            },
            _ => {
                let dconst = ir::const_int_operand(self.ir, source, 1);
                let zero_dead = match dconst {
                    Some(v) => v != 0,
                    None => false,
                };
                let min_dead = match dconst {
                    Some(v) => v != -1,
                    None => false,
                };
                let div = match op {
                    Operation::Div => true,
                    _ => false,
                };
                let host = match self.guard_flavor {
                    GuardFlavor::Host => true,
                    _ => false,
                };
                if !zero_dead && !host {
                    self.emit_task_div(m, target, op, llt, a, b, signed, min_dead);
                } else {
                    self.emit_host_div(target, llt, a, b, signed, zero_dead, min_dead, div);
                }
            },
        }
    }

    /// An integer division or remainder whose divisor is not a known nonzero
    /// constant, emitted in a task: its guard records the fault into the run.
    pub open spec fn arith_records(self, source: usize, op: Operation, opty: Ty) -> bool {
        &&& !ir::is_float_ty(opty)
        &&& (op is Div || op is Mod)
        &&& !zero_dead(ir::const_int(*self.ir, source, 1))
        &&& !(self.guard_flavor is Host)
    }

    /// What `emit_compare` appends, its temporary numbered `t`.
    pub open spec fn compare_text(
        self,
        t: nat,
        target: usize,
        op: Operation,
        opty: Ty,
        llt: Seq<char>,
        a: Seq<char>,
        b: Seq<char>,
    ) -> Seq<char> {
        let instr = if ir::is_float_ty(opty) {
            "fcmp "@ + float_pred(op)
        } else {
            "icmp "@ + int_pred(op, signed_int(opty))
        };
        bin_line(tmp_name(t), instr, llt, a, b) + self.store_text(target, "i1"@, tmp_name(t))
    }

    /// A comparison of the loaded operands `a` and `b` of type `llt` (typed
    /// `opty`): an ordered `fcmp` for floats (`une` for `Neq`), a signed or
    /// unsigned `icmp` for integers; the `i1` is stored into `target`.
    pub fn emit_compare(
        &mut self,
        target: usize,
        op: Operation,
        opty: &Ty,
        llt: &str,
        a: &str,
        b: &str,
    )
        requires
            old(self).next < u32::MAX,
            compare_op(op),
            (target as int) < old(self).slots.len(),
            old(self).frame matches Some(fr) ==> fr.owners_below(old(self).slots@.len()),
        ensures
            final(self).body@ == old(self).body@ + old(self).compare_text(
                old(self).next as nat,
                target,
                op,
                *opty,
                llt@,
                a@,
                b@,
            ),
            final(self).next == old(self).next + 1,
            final(self).allocas == old(self).allocas,
            final(self).slots.len() == old(self).slots.len(),
            final(self).frame == old(self).frame,
            final(self).heap_used == old(self).heap_used,
            final(self).ir == old(self).ir,
            final(self).f == old(self).f,
            final(self).runtime_write == old(self).runtime_write,
            final(self).guard_flavor == old(self).guard_flavor,
    {
        let ghost t = old(self).next as nat;
        let ghost o = old(self).body@;
        let mut instr = String::new();
        if ir::is_float(opty) {
            let pred = match op {
                Operation::Eq => "oeq",
                Operation::Neq => "une",
                Operation::Lt => "olt",
                Operation::Gt => "ogt",
                Operation::Le => "ole",
                _ => "oge",
            };
            instr.append("fcmp ");
            instr.append(pred);
            assert(instr@ =~= "fcmp "@ + float_pred(op));
        } else {
            let signed = match opty {
                Ty::Int { signed, .. } => *signed,
                _ => false,
            };
            let pred = match op {
                Operation::Eq => "eq",
                Operation::Neq => "ne",
                Operation::Lt => crate::sign_pred(signed, "slt", "ult"),
                Operation::Gt => crate::sign_pred(signed, "sgt", "ugt"),
                Operation::Le => crate::sign_pred(signed, "sle", "ule"),
                _ => crate::sign_pred(signed, "sge", "uge"),
            };
            instr.append("icmp ");
            instr.append(pred);
            assert(instr@ =~= "icmp "@ + int_pred(op, signed_int(*opty)));
        }
        let r = self.emit_bin(instr.as_str(), llt, a, b);
        self.store_obj(target, "i1", r.as_str());
        proof {
            lemma_concat_associative(
                o,
                bin_line(tmp_name(t), instr@, llt@, a@, b@),
                old(self).store_text(target, "i1"@, tmp_name(t)),
            );
        }
    }
}

} // verus!
