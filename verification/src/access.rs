//! Array access on lowered operands: the i64 widening of an index, the
//! bounds-guarded element read, and the two generator loops that fill an
//! array from a law (`iota`: the index; `fill`: one value).
use vstd::prelude::*;
use vstd::seq_lib::lemma_concat_associative;
use crate::arith::{branch_line, jump_line, phi_line};
use crate::emit::{
    FnEmit, GuardFlavor, label_name, label_text, line_text, op_line, same_text, scratch_name,
    task_site_of, tmp_name, trap_text,
};
use crate::ir::Ty;
use crate::num;

verus! {

/// `<v> = getelementptr <arr_llt>, ptr <base>, i64 0, i64 <idx>` as a body line.
pub open spec fn gep_line(v: Seq<char>, arr_llt: Seq<char>, base: Seq<char>, idx: Seq<char>) -> Seq<
    char,
> {
    line_text(v + " = getelementptr "@ + arr_llt + ", ptr "@ + base + ", i64 0, i64 "@ + idx)
}

/// `<v> = load <llt>, ptr <ptr>` as a body line.
pub open spec fn load_line(v: Seq<char>, llt: Seq<char>, ptr: Seq<char>) -> Seq<char> {
    line_text(v + " = load "@ + llt + ", ptr "@ + ptr)
}

/// `store <llt> <val>, ptr <ptr>` as a body line.
pub open spec fn store_line(llt: Seq<char>, val: Seq<char>, ptr: Seq<char>) -> Seq<char> {
    line_text("store "@ + llt + " "@ + val + ", ptr "@ + ptr)
}

/// The out-of-bounds test of an i64 index against `[0, size)`, temporaries
/// `t..t+2`, the verdict in `t+2`.
pub open spec fn oob_text(t: nat, idx: Seq<char>, size: u64) -> Seq<char> {
    op_line(tmp_name(t), "icmp slt"@, idx, "0"@) + op_line(
        tmp_name(t + 1),
        "icmp sge"@,
        idx,
        num::dec_nat(size as nat),
    ) + line_text(tmp_name(t + 2) + " = or i1 "@ + tmp_name(t) + ", "@ + tmp_name(t + 1))
}

/// The widening an index of type `idx_ty` needs: zero-extension for an
/// unsigned integer, sign-extension otherwise.
pub open spec fn index_ext(idx_ty: Ty) -> Seq<char> {
    if idx_ty matches Ty::Int { signed, .. } && !signed {
        "zext"@
    } else {
        "sext"@
    }
}

/// A collection loop's first index.
pub open spec fn bulk_lo(split_range: bool) -> Seq<char> {
    if split_range {
        "%lo"@
    } else {
        "0"@
    }
}

/// A collection loop's end index.
pub open spec fn bulk_hi(split_range: bool, n: u64) -> Seq<char> {
    if split_range {
        "%hi"@
    } else {
        num::dec_nat(n as nat)
    }
}

/// A collection loop's header, ordinals from `t`: the counter `%s<t>` starts
/// at `lo`; the header `t+1` loads it into `t+4` and leaves for `t+3` once it
/// reaches `hi`; the body starts at `t+2`.
pub open spec fn loop_head_text(t: nat, lo: Seq<char>, hi: Seq<char>) -> Seq<char> {
    store_line("i64"@, lo, scratch_name(t)) + jump_line(label_name(t + 1)) + label_text(
        label_name(t + 1),
    ) + load_line(tmp_name(t + 4), "i64"@, scratch_name(t)) + line_text(
        tmp_name(t + 5) + " = icmp uge i64 "@ + tmp_name(t + 4) + ", "@ + hi,
    ) + branch_line(tmp_name(t + 5), label_name(t + 3), label_name(t + 2)) + label_text(
        label_name(t + 2),
    )
}

/// A loop latch: `next = iv + 1` stored into the counter `ctr`, back to the
/// header, then the exit label.
pub open spec fn latch_text(next: Seq<char>, iv: Seq<char>, ctr: Seq<char>, header: Seq<char>, exit: Seq<
    char,
>) -> Seq<char> {
    line_text(next + " = add i64 "@ + iv + ", 1"@) + store_line("i64"@, next, ctr) + jump_line(header)
        + label_text(exit)
}

/// A collection loop's latch: the next index into temporary `u`, stored back
/// into the counter; back to the header; then the exit label.
pub open spec fn loop_tail_text(t: nat, u: nat) -> Seq<char> {
    latch_text(tmp_name(u), tmp_name(t + 4), scratch_name(t), label_name(t + 1), label_name(t + 3))
}

/// The element read: its address into `tmp(e)`, the element into `tmp(e+1)`.
pub open spec fn read_text(e: nat, arr_llt: Seq<char>, elem_llt: Seq<char>, arr_ptr: Seq<char>, idx: Seq<
    char,
>) -> Seq<char> {
    gep_line(tmp_name(e), arr_llt, arr_ptr, idx) + load_line(tmp_name(e + 1), elem_llt, tmp_name(e))
}

/// The task-side guarded read, ordinals from `t`: an index outside
/// `[0, size)` records a trap at `site` and yields `zeroinitializer`; the
/// value is joined into `tmp(t+8)`.
pub open spec fn task_index_text(
    t: nat,
    site: nat,
    arr_llt: Seq<char>,
    elem_llt: Seq<char>,
    size: u64,
    arr_ptr: Seq<char>,
    idx: Seq<char>,
) -> Seq<char> {
    oob_text(t, idx, size) + branch_line(tmp_name(t + 2), label_name(t + 3), label_name(t + 4))
        + label_text(label_name(t + 3)) + line_text(
        "call void @mapal_par_trap(i64 "@ + num::dec_nat(site) + ", i32 "@ + num::dec_nat(1) + ")"@,
    ) + jump_line(label_name(t + 5)) + label_text(label_name(t + 4)) + read_text(
        t + 6,
        arr_llt,
        elem_llt,
        arr_ptr,
        idx,
    ) + jump_line(label_name(t + 5)) + label_text(label_name(t + 5)) + phi_line(
        tmp_name(t + 8),
        elem_llt,
        "zeroinitializer"@,
        label_name(t + 3),
        tmp_name(t + 7),
        label_name(t + 4),
    )
}

impl<'a> FnEmit<'a> {
    /// What `emit_index` appends, its ordinals numbered from `t`.
    pub open spec fn index_text(
        self,
        t: nat,
        m: usize,
        target: usize,
        arr_llt: Seq<char>,
        elem_llt: Seq<char>,
        size: u64,
        arr_ptr: Seq<char>,
        idx: Seq<char>,
    ) -> Seq<char> {
        if self.ir.funcs@[self.f as int].proven@.contains(m) {
            read_text(t, arr_llt, elem_llt, arr_ptr, idx) + self.store_text(
                target,
                elem_llt,
                tmp_name(t + 1),
            )
        } else if self.guard_flavor is Host {
            oob_text(t, idx, size) + trap_text(t + 3, tmp_name(t + 2), 1) + read_text(
                t + 5,
                arr_llt,
                elem_llt,
                arr_ptr,
                idx,
            ) + self.store_text(target, elem_llt, tmp_name(t + 6))
        } else {
            task_index_text(
                t,
                task_site_of(*self.ir, self.f, self.guard_flavor, m) as nat,
                arr_llt,
                elem_llt,
                size,
                arr_ptr,
                idx,
            ) + self.store_text(target, elem_llt, tmp_name(t + 8))
        }
    }

    /// How many ordinals `emit_index` mints.
    pub open spec fn index_width(self, m: usize) -> nat {
        if self.ir.funcs@[self.f as int].proven@.contains(m) {
            2
        } else if self.guard_flavor is Host {
            7
        } else {
            9
        }
    }

    /// Widen the loaded index `idx` of LLVM type `illt` (typed `idx_ty`) to
    /// i64: as is when already i64, else zero- or sign-extended.
    pub fn load_index(&mut self, illt: &str, idx: &str, idx_ty: &Ty) -> (r: String)
        requires
            old(self).next < u32::MAX,
        ensures
            illt@ == "i64"@ ==> r@ == idx@ && *final(self) == *old(self),
            illt@ != "i64"@ ==> {
                &&& r@ == tmp_name(old(self).next as nat)
                &&& final(self).body@ == old(self).body@ + line_text(
                    r@ + " = "@ + index_ext(*idx_ty) + " "@ + illt@ + " "@ + idx@ + " to i64"@,
                )
                &&& final(self).next == old(self).next + 1
                &&& final(self).allocas == old(self).allocas
                &&& final(self).heap_used == old(self).heap_used
                &&& final(self).same_setup(*old(self))
            },
    {
        if same_text(illt, "i64") {
            return String::from_str(idx);
        }
        let ext = match idx_ty {
            Ty::Int { signed: false, .. } => "zext",
            _ => "sext",
        };
        let e = self.tmp();
        let mut s = String::from_str(e.as_str());
        s.append(" = ");
        s.append(ext);
        s.append(" ");
        s.append(illt);
        s.append(" ");
        s.append(idx);
        s.append(" to i64");
        self.line(s.as_str());
        assert(s@ =~= e@ + " = "@ + index_ext(*idx_ty) + " "@ + illt@ + " "@ + idx@ + " to i64"@);
        e
    }

    /// `<ep> = getelementptr ...; <v> = load ...` into two fresh temporaries;
    /// returns the loaded value.
    fn emit_element_read(&mut self, arr_llt: &str, elem_llt: &str, arr_ptr: &str, idx: &str) -> (v:
        String)
        requires
            old(self).next + 2 <= u32::MAX,
        ensures
            v@ == tmp_name(old(self).next as nat + 1),
            final(self).body@ == old(self).body@ + read_text(
                old(self).next as nat,
                arr_llt@,
                elem_llt@,
                arr_ptr@,
                idx@,
            ),
            final(self).next == old(self).next + 2,
            final(self).allocas == old(self).allocas,
            final(self).heap_used == old(self).heap_used,
            final(self).same_setup(*old(self)),
    {
        let ep = self.tmp();
        let mut g = String::from_str(ep.as_str());
        g.append(" = getelementptr ");
        g.append(arr_llt);
        g.append(", ptr ");
        g.append(arr_ptr);
        g.append(", i64 0, i64 ");
        g.append(idx);
        self.line(g.as_str());
        assert(g@ =~= ep@ + " = getelementptr "@ + arr_llt@ + ", ptr "@ + arr_ptr@ + ", i64 0, i64 "@
            + idx@);
        let v = self.tmp();
        let mut l = String::from_str(v.as_str());
        l.append(" = load ");
        l.append(elem_llt);
        l.append(", ptr ");
        l.append(ep.as_str());
        self.line(l.as_str());
        assert(l@ =~= v@ + " = load "@ + elem_llt@ + ", ptr "@ + ep@);
        assert(self.body@ =~= old(self).body@ + read_text(
            old(self).next as nat,
            arr_llt@,
            elem_llt@,
            arr_ptr@,
            idx@,
        ));
        v
    }

    /// The bounds proof of the function being emitted shows `m` in range.
    fn proven(&self, m: usize) -> (r: bool)
        requires
            self.f < self.ir.funcs.len(),
        ensures
            r == self.ir.funcs@[self.f as int].proven@.contains(m),
    {
        let proven = &self.ir.funcs[self.f].proven;
        let mut i: usize = 0;
        while i < proven.len()
            invariant
                0 <= i <= proven.len(),
                proven@ == self.ir.funcs@[self.f as int].proven@,
                forall|j: int| 0 <= j < i ==> proven@[j] != m,
            decreases proven.len() - i,
        {
            if proven[i] == m {
                assert(proven@[i as int] == m);
                return true;
            }
            i += 1;
        }
        false
    }

    /// The task-side guarded read: an out-of-bounds index records a trap and
    /// yields `zeroinitializer`; returns the joined value.
    fn emit_task_index_read(
        &mut self,
        m: usize,
        arr_llt: &str,
        elem_llt: &str,
        size: u64,
        arr_ptr: &str,
        idx: &str,
    ) -> (v: String)
        requires
            old(self).next + 9 <= u32::MAX,
            !(old(self).guard_flavor is Host),
            old(self).f < old(self).ir.funcs.len(),
            old(self).guard_flavor is Task ==> old(self).ir.funcs@[old(self).f as int].topo@.contains(
                m,
            ),
        ensures
            final(self).body@ == old(self).body@ + task_index_text(
                old(self).next as nat,
                task_site_of(*old(self).ir, old(self).f, old(self).guard_flavor, m) as nat,
                arr_llt@,
                elem_llt@,
                size,
                arr_ptr@,
                idx@,
            ),
            v@ == tmp_name(old(self).next as nat + 8),
            final(self).next == old(self).next + 9,
            final(self).runtime_write,
            final(self).allocas == old(self).allocas,
            final(self).heap_used == old(self).heap_used,
            final(self).ir == old(self).ir,
            final(self).f == old(self).f,
            final(self).slots == old(self).slots,
            final(self).frame == old(self).frame,
            final(self).frame_geps == old(self).frame_geps,
            final(self).guard_flavor == old(self).guard_flavor,
    {
        let ghost t = old(self).next as nat;
        let ghost site = task_site_of(*old(self).ir, old(self).f, old(self).guard_flavor, m) as nat;
        let ghost o = old(self).body@;
        let oob = self.index_oob(idx, size);
        let ghost w1 = oob_text(t, idx@, size);
        assert(self.body@ == o + w1) by {
            lemma_concat_associative(
                o + op_line(tmp_name(t), "icmp slt"@, idx@, "0"@),
                op_line(tmp_name(t + 1), "icmp sge"@, idx@, num::dec_nat(size as nat)),
                line_text(tmp_name(t + 2) + " = or i1 "@ + tmp_name(t) + ", "@ + tmp_name(t + 1)),
            );
            lemma_concat_associative(
                o,
                op_line(tmp_name(t), "icmp slt"@, idx@, "0"@),
                op_line(tmp_name(t + 1), "icmp sge"@, idx@, num::dec_nat(size as nat)),
            );
            lemma_concat_associative(
                o,
                op_line(tmp_name(t), "icmp slt"@, idx@, "0"@) + op_line(
                    tmp_name(t + 1),
                    "icmp sge"@,
                    idx@,
                    num::dec_nat(size as nat),
                ),
                line_text(tmp_name(t + 2) + " = or i1 "@ + tmp_name(t) + ", "@ + tmp_name(t + 1)),
            );
        }
        let bad = self.label();
        let good = self.label();
        let done = self.label();
        self.branch(oob.as_str(), bad.as_str(), good.as_str());
        let ghost p2 = branch_line(tmp_name(t + 2), label_name(t + 3), label_name(t + 4));
        let ghost w2 = w1 + p2;
        proof {
            lemma_concat_associative(o, w1, p2);
        }
        self.label_line(bad.as_str());
        let ghost p3 = label_text(label_name(t + 3));
        let ghost w3 = w2 + p3;
        proof {
            lemma_concat_associative(o, w2, p3);
        }
        self.record_trap(m, 1);
        let ghost p4 = line_text(
            "call void @mapal_par_trap(i64 "@ + num::dec_nat(site) + ", i32 "@ + num::dec_nat(1)
                + ")"@,
        );
        let ghost w4 = w3 + p4;
        proof {
            lemma_concat_associative(o, w3, p4);
        }
        self.jump(done.as_str());
        let ghost p5 = jump_line(label_name(t + 5));
        let ghost w5 = w4 + p5;
        proof {
            lemma_concat_associative(o, w4, p5);
        }
        self.label_line(good.as_str());
        let ghost p6 = label_text(label_name(t + 4));
        let ghost w6 = w5 + p6;
        proof {
            lemma_concat_associative(o, w5, p6);
        }
        let loaded = self.emit_element_read(arr_llt, elem_llt, arr_ptr, idx);
        let ghost p7 = read_text(t + 6, arr_llt@, elem_llt@, arr_ptr@, idx@);
        let ghost w7 = w6 + p7;
        proof {
            lemma_concat_associative(o, w6, p7);
        }
        self.jump(done.as_str());
        let ghost p8 = jump_line(label_name(t + 5));
        let ghost w8 = w7 + p8;
        proof {
            lemma_concat_associative(o, w7, p8);
        }
        self.label_line(done.as_str());
        let ghost p9 = label_text(label_name(t + 5));
        let ghost w9 = w8 + p9;
        proof {
            lemma_concat_associative(o, w8, p9);
        }
        let value = self.emit_phi(
            elem_llt,
            "zeroinitializer",
            bad.as_str(),
            loaded.as_str(),
            good.as_str(),
        );
        let ghost p10 = phi_line(
            tmp_name(t + 8),
            elem_llt@,
            "zeroinitializer"@,
            label_name(t + 3),
            tmp_name(t + 7),
            label_name(t + 4),
        );
        proof {
            lemma_concat_associative(o, w9, p10);
        }
        value
    }

    /// Read element `i64idx` of the array at `arr_ptr` (typed `arr_llt`, of
    /// `size` elements of `elem_llt`) into `target`. Unless the bounds proof
    /// covers `m`, an index outside `[0, size)` traps on the host, and on a
    /// task records the trap and reads `zeroinitializer`.
    pub fn emit_index(
        &mut self,
        m: usize,
        target: usize,
        arr_llt: &str,
        elem_llt: &str,
        size: u64,
        arr_ptr: &str,
        i64idx: &str,
    )
        requires
            old(self).next + 9 <= u32::MAX,
            old(self).f < old(self).ir.funcs.len(),
            !old(self).ir.funcs@[old(self).f as int].proven@.contains(m)
                && old(self).guard_flavor is Task ==> old(self).ir.funcs@[old(
                self,
            ).f as int].topo@.contains(m),
            (target as int) < old(self).slots.len(),
            old(self).frame matches Some(fr) ==> fr.owners_below(old(self).slots@.len()),
        ensures
            final(self).body@ == old(self).body@ + old(self).index_text(
                old(self).next as nat,
                m,
                target,
                arr_llt@,
                elem_llt@,
                size,
                arr_ptr@,
                i64idx@,
            ),
            final(self).next == old(self).next + old(self).index_width(m),
            final(self).runtime_write == (old(self).runtime_write || (!old(
                self,
            ).ir.funcs@[old(self).f as int].proven@.contains(m) && !(old(self).guard_flavor is Host))),
            old(self).slot_resolution(*final(self), target),
            final(self).allocas == old(self).allocas,
            final(self).frame == old(self).frame,
            final(self).heap_used == old(self).heap_used,
            final(self).ir == old(self).ir,
            final(self).f == old(self).f,
            final(self).guard_flavor == old(self).guard_flavor,
    {
        let ghost t = old(self).next as nat;
        let ghost o = old(self).body@;
        let ghost e = *old(self);
        let host = match self.guard_flavor {
            GuardFlavor::Host => true,
            _ => false,
        };
        if self.proven(m) {
            let v = self.emit_element_read(arr_llt, elem_llt, arr_ptr, i64idx);
            self.store_obj(target, elem_llt, v.as_str());
            proof {
                lemma_concat_associative(
                    o,
                    read_text(t, arr_llt@, elem_llt@, arr_ptr@, i64idx@),
                    e.store_text(target, elem_llt@, tmp_name(t + 1)),
                );
            }
        } else if host {
            self.guard_index(i64idx, size);
            let ghost g = oob_text(t, i64idx@, size) + trap_text(t + 3, tmp_name(t + 2), 1);
            assert(self.body@ =~= o + g);
            let v = self.emit_element_read(arr_llt, elem_llt, arr_ptr, i64idx);
            let ghost r = read_text(t + 5, arr_llt@, elem_llt@, arr_ptr@, i64idx@);
            proof {
                lemma_concat_associative(o, g, r);
            }
            self.store_obj(target, elem_llt, v.as_str());
            proof {
                lemma_concat_associative(o, g + r, e.store_text(target, elem_llt@, tmp_name(t + 6)));
            }
        } else {
            let v = self.emit_task_index_read(m, arr_llt, elem_llt, size, arr_ptr, i64idx);
            let ghost x = task_index_text(
                t,
                task_site_of(*e.ir, e.f, e.guard_flavor, m) as nat,
                arr_llt@,
                elem_llt@,
                size,
                arr_ptr@,
                i64idx@,
            );
            self.store_obj(target, elem_llt, v.as_str());
            proof {
                lemma_concat_associative(o, x, e.store_text(target, elem_llt@, tmp_name(t + 8)));
            }
        }
    }

    /// Open a collection loop over `bulk_bounds(n)`: the counter scratch, the
    /// header that loads the index and leaves at the end, and the body label.
    /// Returns the counter, the header and exit labels, and the index.
    fn emit_loop_head(&mut self, n: u64) -> (r: (String, String, String, String))
        requires
            old(self).next + 6 <= u32::MAX,
        ensures
            ({
                let t = old(self).next as nat;
                &&& final(self).body@ == old(self).body@ + loop_head_text(
                    t,
                    bulk_lo(old(self).split_range),
                    bulk_hi(old(self).split_range, n),
                )
                &&& final(self).allocas@ == old(self).allocas@ + "  "@ + scratch_name(t)
                    + " = alloca "@ + "i64"@ + "\n"@
                &&& r.0@ == scratch_name(t)
                &&& r.1@ == label_name(t + 1)
                &&& r.2@ == label_name(t + 3)
                &&& r.3@ == tmp_name(t + 4)
            }),
            final(self).next == old(self).next + 6,
            final(self).heap_used == old(self).heap_used,
            final(self).same_setup(*old(self)),
    {
        let ghost t = old(self).next as nat;
        let ghost o = old(self).body@;
        let ctr = self.scratch("i64");
        let (lo, hi) = self.bulk_bounds(n);
        let header = self.label();
        let body = self.label();
        let exit = self.label();
        self.emit_store("i64", lo.as_str(), ctr.as_str());
        let ghost w1 = store_line("i64"@, lo@, scratch_name(t));
        self.jump(header.as_str());
        let ghost p2 = jump_line(label_name(t + 1));
        let ghost w2 = w1 + p2;
        proof {
            lemma_concat_associative(o, w1, p2);
        }
        self.label_line(header.as_str());
        let ghost p3 = label_text(label_name(t + 1));
        let ghost w3 = w2 + p3;
        proof {
            lemma_concat_associative(o, w2, p3);
        }
        let iv = self.tmp();
        let mut l = String::from_str(iv.as_str());
        l.append(" = load ");
        l.append("i64");
        l.append(", ptr ");
        l.append(ctr.as_str());
        self.line(l.as_str());
        assert(l@ =~= iv@ + " = load "@ + "i64"@ + ", ptr "@ + ctr@);
        let ghost p4 = load_line(tmp_name(t + 4), "i64"@, scratch_name(t));
        let ghost w4 = w3 + p4;
        proof {
            lemma_concat_associative(o, w3, p4);
        }
        let done = self.tmp();
        let mut d = String::from_str(done.as_str());
        d.append(" = icmp uge i64 ");
        d.append(iv.as_str());
        d.append(", ");
        d.append(hi.as_str());
        self.line(d.as_str());
        let ghost p5 = line_text(tmp_name(t + 5) + " = icmp uge i64 "@ + tmp_name(t + 4) + ", "@ + hi@);
        assert(d@ =~= tmp_name(t + 5) + " = icmp uge i64 "@ + tmp_name(t + 4) + ", "@ + hi@);
        let ghost w5 = w4 + p5;
        proof {
            lemma_concat_associative(o, w4, p5);
        }
        self.branch(done.as_str(), exit.as_str(), body.as_str());
        let ghost p6 = branch_line(tmp_name(t + 5), label_name(t + 3), label_name(t + 2));
        let ghost w6 = w5 + p6;
        proof {
            lemma_concat_associative(o, w5, p6);
        }
        self.label_line(body.as_str());
        let ghost p7 = label_text(label_name(t + 2));
        proof {
            lemma_concat_associative(o, w6, p7);
        }
        assert(w6 + p7 == loop_head_text(t, lo@, hi@));
        (ctr, header, exit, iv)
    }

    /// Close a collection loop: step the index, store it back, jump to the
    /// header, and open the exit block.
    pub(crate) fn emit_loop_tail(&mut self, ctr: &str, iv: &str, header: &str, exit: &str)
        requires
            old(self).next < u32::MAX,
        ensures
            final(self).body@ == old(self).body@ + latch_text(
                tmp_name(old(self).next as nat),
                iv@,
                ctr@,
                header@,
                exit@,
            ),
            final(self).next == old(self).next + 1,
            final(self).allocas == old(self).allocas,
            final(self).heap_used == old(self).heap_used,
            final(self).same_setup(*old(self)),
    {
        let iv1 = self.tmp();
        let mut a = String::from_str(iv1.as_str());
        a.append(" = add i64 ");
        a.append(iv);
        a.append(", 1");
        self.line(a.as_str());
        assert(a@ =~= iv1@ + " = add i64 "@ + iv@ + ", 1"@);
        let mut st = String::from_str("store ");
        st.append("i64");
        st.append(" ");
        st.append(iv1.as_str());
        st.append(", ptr ");
        st.append(ctr);
        self.line(st.as_str());
        assert(st@ =~= "store "@ + "i64"@ + " "@ + iv1@ + ", ptr "@ + ctr@);
        self.jump(header);
        self.label_line(exit);
        assert(self.body@ =~= old(self).body@ + latch_text(iv1@, iv@, ctr@, header@, exit@));
    }

    /// `store <llt> <val>, ptr <ptr>`.
    pub(crate) fn emit_store(&mut self, llt: &str, val: &str, ptr: &str)
        ensures
            final(self).body@ == old(self).body@ + store_line(llt@, val@, ptr@),
            final(self).next == old(self).next,
            final(self).allocas == old(self).allocas,
            final(self).heap_used == old(self).heap_used,
            final(self).same_setup(*old(self)),
    {
        let mut s = String::from_str("store ");
        s.append(llt);
        s.append(" ");
        s.append(val);
        s.append(", ptr ");
        s.append(ptr);
        self.line(s.as_str());
        assert(s@ =~= "store "@ + llt@ + " "@ + val@ + ", ptr "@ + ptr@);
    }

    /// `<dp> = getelementptr <arr_llt>, ptr <base>, i64 0, i64 <idx>` into a
    /// fresh temporary.
    pub(crate) fn emit_gep(&mut self, arr_llt: &str, base: &str, idx: &str) -> (dp: String)
        requires
            old(self).next < u32::MAX,
        ensures
            dp@ == tmp_name(old(self).next as nat),
            final(self).body@ == old(self).body@ + gep_line(dp@, arr_llt@, base@, idx@),
            final(self).next == old(self).next + 1,
            final(self).allocas == old(self).allocas,
            final(self).heap_used == old(self).heap_used,
            final(self).same_setup(*old(self)),
    {
        let dp = self.tmp();
        let mut g = String::from_str(dp.as_str());
        g.append(" = getelementptr ");
        g.append(arr_llt);
        g.append(", ptr ");
        g.append(base);
        g.append(", i64 0, i64 ");
        g.append(idx);
        self.line(g.as_str());
        assert(g@ =~= dp@ + " = getelementptr "@ + arr_llt@ + ", ptr "@ + base@ + ", i64 0, i64 "@
            + idx@);
        dp
    }

    /// What `emit_iota` appends, its ordinals numbered from `t`.
    pub open spec fn iota_text(self, t: nat, target: usize, arr_llt: Seq<char>, n: u64) -> Seq<char> {
        let slot = self.slot_of(target).unwrap();
        loop_head_text(t, bulk_lo(self.split_range), bulk_hi(self.split_range, n)) + line_text(
            tmp_name(t + 6) + " = trunc i64 "@ + tmp_name(t + 4) + " to i32"@,
        ) + gep_line(tmp_name(t + 7), arr_llt, slot, tmp_name(t + 4)) + store_line(
            "i32"@,
            tmp_name(t + 6),
            tmp_name(t + 7),
        ) + loop_tail_text(t, t + 8)
    }

    /// What `emit_fill` appends, its ordinals numbered from `t`.
    pub open spec fn fill_text(
        self,
        t: nat,
        target: usize,
        arr_llt: Seq<char>,
        n: u64,
        vllt: Seq<char>,
        v: Seq<char>,
    ) -> Seq<char> {
        let slot = self.slot_of(target).unwrap();
        loop_head_text(t, bulk_lo(self.split_range), bulk_hi(self.split_range, n)) + gep_line(
            tmp_name(t + 6),
            arr_llt,
            slot,
            tmp_name(t + 4),
        ) + store_line(vllt, v, tmp_name(t + 6)) + loop_tail_text(t, t + 7)
    }

    /// `Iota`: `out[i] = i` (as `i32`) over the collection range, into the
    /// array `target` of `n` elements, typed `arr_llt`.
    pub fn emit_iota(&mut self, target: usize, arr_llt: &str, n: u64)
        requires
            old(self).next + 9 <= u32::MAX,
            (target as int) < old(self).slots.len(),
            old(self).frame matches Some(fr) ==> fr.owners_below(old(self).slots@.len()),
            old(self).slot_of(target) is Some,
        ensures
            final(self).body@ == old(self).body@ + old(self).iota_text(
                old(self).next as nat,
                target,
                arr_llt@,
                n,
            ),
            final(self).allocas@ == old(self).allocas@ + "  "@ + scratch_name(old(self).next as nat)
                + " = alloca "@ + "i64"@ + "\n"@,
            final(self).next == old(self).next + 9,
            old(self).slot_resolution(*final(self), target),
            final(self).frame == old(self).frame,
            final(self).heap_used == old(self).heap_used,
            final(self).ir == old(self).ir,
            final(self).f == old(self).f,
            final(self).runtime_write == old(self).runtime_write,
            final(self).guard_flavor == old(self).guard_flavor,
    {
        let ghost t = old(self).next as nat;
        let ghost o = old(self).body@;
        let slot = match self.slot(target) {
            Some(s) => s,
            None => {
                assert(false);
                String::new()
            },
        };
        assert(slot@ == old(self).slot_of(target).unwrap());
        let (ctr, header, exit, iv) = self.emit_loop_head(n);
        let ghost w0 = loop_head_text(t, bulk_lo(old(self).split_range), bulk_hi(old(self).split_range, n));
        let idx32 = self.tmp();
        let mut tr = String::from_str(idx32.as_str());
        tr.append(" = trunc i64 ");
        tr.append(iv.as_str());
        tr.append(" to i32");
        self.line(tr.as_str());
        let ghost p1 = line_text(tmp_name(t + 6) + " = trunc i64 "@ + tmp_name(t + 4) + " to i32"@);
        assert(tr@ =~= tmp_name(t + 6) + " = trunc i64 "@ + tmp_name(t + 4) + " to i32"@);
        let ghost w1 = w0 + p1;
        proof {
            lemma_concat_associative(o, w0, p1);
        }
        let dp = self.emit_gep(arr_llt, slot.as_str(), iv.as_str());
        let ghost p2 = gep_line(tmp_name(t + 7), arr_llt@, slot@, tmp_name(t + 4));
        let ghost w2 = w1 + p2;
        proof {
            lemma_concat_associative(o, w1, p2);
        }
        self.emit_store("i32", idx32.as_str(), dp.as_str());
        let ghost p3 = store_line("i32"@, tmp_name(t + 6), tmp_name(t + 7));
        let ghost w3 = w2 + p3;
        proof {
            lemma_concat_associative(o, w2, p3);
        }
        self.emit_loop_tail(ctr.as_str(), iv.as_str(), header.as_str(), exit.as_str());
        proof {
            lemma_concat_associative(o, w3, loop_tail_text(t, t + 8));
        }
        assert(w3 + loop_tail_text(t, t + 8) == old(self).iota_text(t, target, arr_llt@, n));

    }

    /// `Fill`: `out[i] = v` (the loaded value `v` of type `vllt`) over the
    /// collection range, into the array `target` of `n` elements, typed `arr_llt`.
    pub fn emit_fill(&mut self, target: usize, arr_llt: &str, n: u64, vllt: &str, v: &str)
        requires
            old(self).next + 8 <= u32::MAX,
            (target as int) < old(self).slots.len(),
            old(self).frame matches Some(fr) ==> fr.owners_below(old(self).slots@.len()),
            old(self).slot_of(target) is Some,
        ensures
            final(self).body@ == old(self).body@ + old(self).fill_text(
                old(self).next as nat,
                target,
                arr_llt@,
                n,
                vllt@,
                v@,
            ),
            final(self).allocas@ == old(self).allocas@ + "  "@ + scratch_name(old(self).next as nat)
                + " = alloca "@ + "i64"@ + "\n"@,
            final(self).next == old(self).next + 8,
            old(self).slot_resolution(*final(self), target),
            final(self).frame == old(self).frame,
            final(self).heap_used == old(self).heap_used,
            final(self).ir == old(self).ir,
            final(self).f == old(self).f,
            final(self).runtime_write == old(self).runtime_write,
            final(self).guard_flavor == old(self).guard_flavor,
    {
        let ghost t = old(self).next as nat;
        let ghost o = old(self).body@;
        let slot = match self.slot(target) {
            Some(s) => s,
            None => {
                assert(false);
                String::new()
            },
        };
        assert(slot@ == old(self).slot_of(target).unwrap());
        let (ctr, header, exit, iv) = self.emit_loop_head(n);
        let ghost w0 = loop_head_text(t, bulk_lo(old(self).split_range), bulk_hi(old(self).split_range, n));
        let dp = self.emit_gep(arr_llt, slot.as_str(), iv.as_str());
        let ghost p2 = gep_line(tmp_name(t + 6), arr_llt@, slot@, tmp_name(t + 4));
        let ghost w2 = w0 + p2;
        proof {
            lemma_concat_associative(o, w0, p2);
        }
        self.emit_store(vllt, v, dp.as_str());
        let ghost p3 = store_line(vllt@, v@, tmp_name(t + 6));
        let ghost w3 = w2 + p3;
        proof {
            lemma_concat_associative(o, w2, p3);
        }
        self.emit_loop_tail(ctr.as_str(), iv.as_str(), header.as_str(), exit.as_str());
        proof {
            lemma_concat_associative(o, w3, loop_tail_text(t, t + 7));
        }
        assert(w3 + loop_tail_text(t, t + 7) == old(self).fill_text(t, target, arr_llt@, n, vllt@, v@));

    }
}

} // verus!
