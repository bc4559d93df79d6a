//! A function's frame around its body: the prologue that stores the
//! incoming argument, the epilogue that returns the output, the parallel
//! entry's `%Frame` block and packed buffers, and the `define` text with the
//! attributes the function has earned.
use vstd::prelude::*;
use vstd::string::*;
use crate::attrs::{FnAttrs, clean_fn, loopy_fn};
use crate::emit::{FnEmit, line_text, tmp_name};
use crate::frame::{FrameLayout, PackedField, occupied};
use crate::llt;
use crate::num;

verus! {

/// The perf-timing call at the top of the entry block.
pub open spec fn perf_begin_text(perf_timing: bool) -> Seq<char> {
    if perf_timing {
        "  call void @mapal_perf_begin()\n"@
    } else {
        Seq::empty()
    }
}

/// The `%frame` allocation: in the arena once it is large enough, else on the stack.
pub open spec fn frame_alloc_text(heap: bool, struct_text: Seq<char>) -> Seq<char> {
    if heap {
        "  %frame = call ptr @mapal_rt_alloc(i64 "@ + num::dec_nat(llt::llt_size(struct_text))
            + ", i64 "@ + num::dec_nat(llt::llt_algn(struct_text)) + ")\n"@
    } else {
        "  %frame = alloca %Frame\n"@
    }
}

/// A packed buffer's frame field: its address, and the buffer pointer stored there.
pub open spec fn pack_field_text(field: PackedField) -> Seq<char> {
    let slot = "%pack_field"@ + num::dec_nat(field.ordinal as nat);
    "  "@ + slot + " = getelementptr %Frame, ptr %frame, i32 0, i32 "@ + num::dec_nat(
        field.index as nat,
    ) + "\n  store ptr "@ + "%pack"@ + num::dec_nat(field.ordinal as nat) + ", ptr "@ + slot
        + "\n"@
}

/// The frame fields of the packed buffers among the first `k` morphisms.
pub open spec fn pack_geps(packed: Seq<Option<PackedField>>, k: int) -> Seq<char>
    decreases k,
{
    if k <= 0 {
        Seq::empty()
    } else {
        pack_geps(packed, k - 1) + match packed[k - 1] {
            Some(field) => pack_field_text(field),
            None => Seq::empty(),
        }
    }
}

impl<'a> FnEmit<'a> {
    /// The function is clean for its attributes: the analysis found it clean,
    /// and this emission wrote no runtime state and times nothing.
    pub open spec fn clean_for(self, attrs: FnAttrs) -> bool {
        &&& (self.f as int) < attrs.clean_view().len()
        &&& attrs.clean_view()[self.f as int]
        &&& !self.runtime_write
        &&& !self.perf_timing
    }

    /// The function attributes it has earned: `readonly nounwind` when
    /// clean, plus `willreturn` when no loop or call cycle is reachable.
    pub open spec fn fn_attrs_text(self, attrs: FnAttrs) -> Seq<char> {
        if self.clean_for(attrs) {
            if !((self.f as int) < attrs.loopy_view().len()) || attrs.loopy_view()[self.f as int] {
                " readonly nounwind"@
            } else {
                " readonly nounwind willreturn"@
            }
        } else {
            Seq::empty()
        }
    }

    /// The parameter: a clean function's by-reference `ptr` argument is also
    /// `noalias nocapture readonly`.
    pub open spec fn param_text(self, attrs: FnAttrs, in_llt: Option<Seq<char>>, byref: bool) -> Seq<
        char,
    > {
        match in_llt {
            Some(t) => if self.clean_for(attrs) && t == "ptr"@ && byref {
                t + " noalias nocapture readonly %arg"@
            } else {
                t + " %arg"@
            },
            None => Seq::empty(),
        }
    }

    /// What `emit_return` appends: the output's load and return (or
    /// `ret void`), after the perf-timing end and the arena teardown.
    pub open spec fn return_text(self, ret_llt: Option<Seq<char>>, output: usize) -> Seq<char> {
        let end = (if self.perf_timing {
            line_text("call void @mapal_perf_end()"@)
        } else {
            Seq::empty()
        }) + if self.heap_used {
            line_text("call void @mapal_rt_free_all()"@)
        } else {
            Seq::empty()
        };
        match ret_llt {
            Some(t) => {
                let v = tmp_name(self.next as nat);
                line_text(v + " = load "@ + t + ", ptr "@ + self.slot_of(output).unwrap()) + end
                    + line_text("ret "@ + t + " "@ + v)
            },
            None => end + line_text("ret void"@),
        }
    }

    /// Store the incoming `%arg` of type `in_llt` into the input's slot.
    pub fn emit_prologue(&mut self, in_llt: Option<&str>, input: usize)
        requires
            (input as int) < old(self).slots.len(),
            old(self).frame matches Some(fr) ==> fr.owners_below(old(self).slots@.len()),
        ensures
            final(self).body@ == old(self).body@ + match in_llt {
                Some(t) => old(self).store_text(input, t@, "%arg"@),
                None => Seq::empty(),
            },
            final(self).next == old(self).next,
            final(self).allocas == old(self).allocas,
            final(self).frame == old(self).frame,
            final(self).slots.len() == old(self).slots.len(),
            final(self).heap_used == old(self).heap_used,
            final(self).f == old(self).f,
            final(self).heap_ok == old(self).heap_ok,
            final(self).runtime_write == old(self).runtime_write,
            final(self).perf_timing == old(self).perf_timing,
    {
        match in_llt {
            Some(t) => self.store_obj(input, t, "%arg"),
            None => {
                assert(self.body@ =~= old(self).body@ + Seq::<char>::empty());
            },
        }
    }

    /// The opening of a sequential function's emission: only the program's
    /// entry function may put blocks in the arena (it alone runs once per
    /// program), then the incoming `%arg` of type `in_llt` goes to the
    /// input's slot. The topological walk of the body follows.
    pub fn begin_function(&mut self, entry: usize, in_llt: Option<&str>, input: usize)
        requires
            (input as int) < old(self).slots.len(),
            old(self).frame matches Some(fr) ==> fr.owners_below(old(self).slots@.len()),
        ensures
            final(self).heap_ok == (old(self).f == entry),
            final(self).body@ == old(self).body@ + match in_llt {
                Some(t) => old(self).store_text(input, t@, "%arg"@),
                None => Seq::empty(),
            },
            final(self).next == old(self).next,
            final(self).allocas == old(self).allocas,
            final(self).heap_used == old(self).heap_used,
            final(self).f == old(self).f,
            final(self).perf_timing == old(self).perf_timing,
            final(self).runtime_write == old(self).runtime_write,
    {
        self.heap_ok = self.f == entry;
        self.emit_prologue(in_llt, input);
    }

    /// The close of a sequential function's emission, once the walk has
    /// filled the body: the return, then the whole `define` text.
    pub fn finish_function(
        self,
        attrs: &FnAttrs,
        fname: &str,
        ret_llt: Option<&str>,
        output: usize,
        in_llt: Option<&str>,
        byref: bool,
    ) -> (r: String)
        requires
            self.next < u32::MAX,
            (output as int) < self.slots.len(),
            self.frame matches Some(fr) ==> fr.owners_below(self.slots@.len()),
            ret_llt is Some ==> self.slot_of(output) is Some,
        ensures
            r@ == "define internal "@ + match ret_llt {
                Some(t) => t@,
                None => "void"@,
            } + " @"@ + fname@ + "("@ + self.param_text(
                *attrs,
                match in_llt {
                    Some(t) => Some(t@),
                    None => None,
                },
                byref,
            ) + ")"@ + self.fn_attrs_text(*attrs) + " {\nentry:\n"@ + perf_begin_text(self.perf_timing)
                + self.allocas@ + self.body@ + self.return_text(
                match ret_llt {
                    Some(t) => Some(t@),
                    None => None,
                },
                output,
            ) + "}\n"@,
    {
        let ghost start = self;
        let mut e = self;
        let sig_ret = e.emit_return(ret_llt, output);
        let r = e.define_function(attrs, fname, sig_ret.as_str(), in_llt, byref);
        assert(r@ =~= "define internal "@ + sig_ret@ + " @"@ + fname@ + "("@ + start.param_text(
            *attrs,
            match in_llt {
                Some(t) => Some(t@),
                None => None,
            },
            byref,
        ) + ")"@ + start.fn_attrs_text(*attrs) + " {\nentry:\n"@ + perf_begin_text(start.perf_timing)
            + start.allocas@ + start.body@ + start.return_text(
            match ret_llt {
                Some(t) => Some(t@),
                None => None,
            },
            output,
        ) + "}\n"@);
        r
    }

    /// Return the output (of lowered type `ret_llt`, or nothing): load it,
    /// end the perf timing, free the arena, return. Gives the signature's
    /// return type.
    pub fn emit_return(&mut self, ret_llt: Option<&str>, output: usize) -> (sig_ret: String)
        requires
            old(self).next < u32::MAX,
            (output as int) < old(self).slots.len(),
            old(self).frame matches Some(fr) ==> fr.owners_below(old(self).slots@.len()),
            ret_llt is Some ==> old(self).slot_of(output) is Some,
        ensures
            final(self).body@ == old(self).body@ + old(self).return_text(
                match ret_llt {
                    Some(t) => Some(t@),
                    None => None,
                },
                output,
            ),
            sig_ret@ == match ret_llt {
                Some(t) => t@,
                None => "void"@,
            },
            final(self).allocas == old(self).allocas,
            final(self).heap_used == old(self).heap_used,
            ret_llt is Some ==> old(self).slot_resolution(*final(self), output),
            ret_llt is None ==> final(self).slots == old(self).slots && final(self).frame_geps
                == old(self).frame_geps,
            final(self).f == old(self).f,
            final(self).heap_ok == old(self).heap_ok,
            final(self).runtime_write == old(self).runtime_write,
            final(self).perf_timing == old(self).perf_timing,
    {
        let ghost e = *old(self);
        match ret_llt {
            Some(t) => {
                let slot = match self.slot(output) {
                    Some(s) => s,
                    None => {
                        assert(false);
                        String::new()
                    },
                };
                assert(slot@ == e.slot_of(output).unwrap());
                let v = self.tmp();
                let mut load = String::from_str(v.as_str());
                load.append(" = load ");
                load.append(t);
                load.append(", ptr ");
                load.append(slot.as_str());
                self.line(load.as_str());
                assert(load@ =~= v@ + " = load "@ + t@ + ", ptr "@ + slot@);
                if self.perf_timing {
                    self.line("call void @mapal_perf_end()");
                }
                self.heap_teardown();
                let mut ret = String::from_str("ret ");
                ret.append(t);
                ret.append(" ");
                ret.append(v.as_str());
                self.line(ret.as_str());
                assert(ret@ =~= "ret "@ + t@ + " "@ + v@);
                assert(self.body@ =~= e.body@ + e.return_text(Some(t@), output));
                String::from_str(t)
            },
            None => {
                if self.perf_timing {
                    self.line("call void @mapal_perf_end()");
                }
                self.heap_teardown();
                self.line("ret void");
                assert(self.body@ =~= e.body@ + e.return_text(None, output));
                proof {
                    reveal_strlit("void");
                }
                String::from_str("void")
            },
        }
    }

    /// The `%Frame` block of a parallel entry: in the arena when the frame is
    /// large enough and this emitter may use it, else an `alloca`.
    pub fn alloc_frame(&mut self, frame: &FrameLayout)
        requires
            frame.wf(),
            llt::llt_ok(frame.struct_text()),
        ensures
            final(self).allocas@ == old(self).allocas@ + frame_alloc_text(
                old(self).alloc_heap(frame.struct_text()),
                frame.struct_text(),
            ),
            final(self).heap_used == (old(self).heap_used || old(self).alloc_heap(
                frame.struct_text(),
            )),
            final(self).next == old(self).next,
            final(self).body == old(self).body,
            final(self).same_setup(*old(self)),
    {
        let text = frame.struct_llt();
        let bytes = llt::llt_bytes(text.as_str());
        if self.heap_block(bytes) {
            proof {
                llt::lemma_ok_implies_align_ok(text@);
            }
            let align = llt::llt_align(text.as_str());
            let mut s = String::from_str("  %frame = call ptr @mapal_rt_alloc(i64 ");
            s.append(num::u64_to_string(bytes).as_str());
            s.append(", i64 ");
            s.append(num::u64_to_string(align).as_str());
            s.append(")\n");
            self.allocas.append(s.as_str());
            assert(self.allocas@ =~= old(self).allocas@ + frame_alloc_text(true, text@));
        } else {
            self.allocas.append("  %frame = alloca %Frame\n");
            assert(self.allocas@ =~= old(self).allocas@ + frame_alloc_text(false, text@));
        }
    }

    /// The `define` text of a sequential function named `fname`: signature
    /// (returning `sig_ret`, taking `%arg` of type `in_llt` by reference when
    /// `byref`), its earned attributes, and the entry block holding the
    /// perf-timing start, the allocations and the body.
    pub fn define_function(
        &self,
        attrs: &FnAttrs,
        fname: &str,
        sig_ret: &str,
        in_llt: Option<&str>,
        byref: bool,
    ) -> (r: String)
        ensures
            r@ == "define internal "@ + sig_ret@ + " @"@ + fname@ + "("@ + self.param_text(
                *attrs,
                match in_llt {
                    Some(t) => Some(t@),
                    None => None,
                },
                byref,
            ) + ")"@ + self.fn_attrs_text(*attrs) + " {\nentry:\n"@ + perf_begin_text(
                self.perf_timing,
            ) + self.allocas@ + self.body@ + "}\n"@,
    {
        let clean = attrs.clean(self.f) && !self.runtime_write && !self.perf_timing;
        let mut param = String::new();
        match in_llt {
            Some(t) => {
                param.append(t);
                if clean && crate::emit::same_text(t, "ptr") && byref {
                    param.append(" noalias nocapture readonly %arg");
                } else {
                    param.append(" %arg");
                }
            },
            None => {},
        }
        let fn_attrs = if clean {
            if attrs.loopy(self.f) {
                " readonly nounwind"
            } else {
                " readonly nounwind willreturn"
            }
        } else {
            ""
        };
        let mut out = String::from_str("define internal ");
        out.append(sig_ret);
        out.append(" @");
        out.append(fname);
        out.append("(");
        out.append(param.as_str());
        out.append(")");
        out.append(fn_attrs);
        out.append(" {\nentry:\n");
        if self.perf_timing {
            out.append("  call void @mapal_perf_begin()\n");
        }
        out.append(self.allocas.as_str());
        out.append(self.body.as_str());
        out.append("}\n");
        proof {
            reveal_strlit("");
        }
        assert(out@ =~= "define internal "@ + sig_ret@ + " @"@ + fname@ + "("@ + self.param_text(
            *attrs,
            match in_llt {
                Some(t) => Some(t@),
                None => None,
            },
            byref,
        ) + ")"@ + self.fn_attrs_text(*attrs) + " {\nentry:\n"@ + perf_begin_text(self.perf_timing)
            + self.allocas@ + self.body@ + "}\n"@);
        out
    }

    /// The entry-block allocations of the packed buffers among the first `k`
    /// morphisms (`llts`: each buffer's type).
    pub open spec fn pack_allocs(self, packed: Seq<Option<PackedField>>, llts: Seq<Option<String>>, k: int) -> Seq<
        char,
    >
        decreases k,
    {
        if k <= 0 {
            Seq::empty()
        } else {
            self.pack_allocs(packed, llts, k - 1) + match packed[k - 1] {
                Some(field) => self.alloc_text(
                    "%pack"@ + num::dec_nat(field.ordinal as nat),
                    llts[k - 1].unwrap()@,
                    Some(64),
                ),
                None => Seq::empty(),
            }
        }
    }

    /// One of the packed buffers among the first `k` morphisms goes to the arena.
    pub open spec fn pack_heap(self, packed: Seq<Option<PackedField>>, llts: Seq<Option<String>>, k: int) -> bool
        decreases k,
    {
        k > 0 && (self.pack_heap(packed, llts, k - 1) || (packed[k - 1] is Some && self.alloc_heap(
            llts[k - 1].unwrap()@,
        )))
    }

    /// The packed tile buffers of a parallel entry: each is allocated in the
    /// entry block (64-byte aligned) and its pointer stored into its frame
    /// field. `pack_llts` holds each packing site's buffer type, by morphism;
    /// nothing happens without a frame or without them.
    pub fn allocate_frame_packs(&mut self, pack_llts: Option<&Vec<Option<String>>>)
        requires
            old(self).frame matches Some(fr) && pack_llts matches Some(llts) ==> {
                &&& llts.len() == fr.packed.len()
                &&& forall|m: int|
                    0 <= m < fr.packed.len() && #[trigger] fr.packed@[m] is Some ==> llts@[m] is Some
                        && llt::llt_ok(llts@[m].unwrap()@)
            },
        ensures
            ({
                match (old(self).frame, pack_llts) {
                    (Some(fr), Some(llts)) => {
                        let n = fr.packed.len() as int;
                        &&& final(self).allocas@ == old(self).allocas@ + old(self).pack_allocs(
                            fr.packed@,
                            llts@,
                            n,
                        )
                        &&& final(self).frame_geps@ == old(self).frame_geps@ + pack_geps(fr.packed@, n)
                        &&& final(self).heap_used == (old(self).heap_used || old(self).pack_heap(
                            fr.packed@,
                            llts@,
                            n,
                        ))
                    },
                    _ => *final(self) == *old(self),
                }
            }),
            *final(self) == (FnEmit {
                allocas: final(self).allocas,
                frame_geps: final(self).frame_geps,
                heap_used: final(self).heap_used,
                ..*old(self)
            }),
    {
        let llts = match pack_llts {
            Some(l) => l,
            None => return ,
        };
        let n = match &self.frame {
            Some(fr) => fr.packed.len(),
            None => return ,
        };
        let ghost fr = old(self).frame.unwrap();
        let mut m: usize = 0;
        while m < n
            invariant
                0 <= m <= n,
                n == fr.packed.len(),
                old(self).frame == Some(fr),
                llts.len() == fr.packed.len(),
                forall|m2: int|
                    0 <= m2 < fr.packed.len() && #[trigger] fr.packed@[m2] is Some ==> llts@[m2] is Some
                        && llt::llt_ok(llts@[m2].unwrap()@),
                self.allocas@ == old(self).allocas@ + old(self).pack_allocs(fr.packed@, llts@, m as int),
                self.frame_geps@ == old(self).frame_geps@ + pack_geps(fr.packed@, m as int),
                self.heap_used == (old(self).heap_used || old(self).pack_heap(fr.packed@, llts@, m as int)),
                *self == (FnEmit {
                    allocas: self.allocas,
                    frame_geps: self.frame_geps,
                    heap_used: self.heap_used,
                    ..*old(self)
                }),
            decreases n - m,
        {
            let field = match &self.frame {
                Some(fr) => match &fr.packed[m] {
                    Some(f) => PackedField { index: f.index, ordinal: f.ordinal },
                    None => {
                        assert(self.allocas@ =~= old(self).allocas@ + old(self).pack_allocs(
                            fr.packed@,
                            llts@,
                            m + 1,
                        ));
                        assert(self.frame_geps@ =~= old(self).frame_geps@ + pack_geps(fr.packed@, m + 1));
                        m += 1;
                        continue;
                    },
                },
                None => {
                    assert(false);
                    return ;
                },
            };
            let llt = match &llts[m] {
                Some(l) => l,
                None => {
                    assert(false);
                    return ;
                },
            };
            let mut ptr = String::from_str("%pack");
            ptr.append(num::u64_to_string(field.ordinal as u64).as_str());
            let mut slot = String::from_str("%pack_field");
            slot.append(num::u64_to_string(field.ordinal as u64).as_str());
            let ghost before = *self;
            self.entry_alloc(ptr.as_str(), llt.as_str(), Some(64));
            assert(before.alloc_text(ptr@, llt@, Some(64)) == old(self).alloc_text(ptr@, llt@, Some(64)));
            let mut geps = String::from_str("  ");
            geps.append(slot.as_str());
            geps.append(" = getelementptr %Frame, ptr %frame, i32 0, i32 ");
            geps.append(num::u64_to_string(field.index as u64).as_str());
            geps.append("\n  store ptr ");
            geps.append(ptr.as_str());
            geps.append(", ptr ");
            geps.append(slot.as_str());
            geps.append("\n");
            self.frame_geps.append(geps.as_str());
            assert(ptr@ =~= "%pack"@ + num::dec_nat(field.ordinal as nat));
            assert(geps@ =~= pack_field_text(field));
            assert(self.allocas@ =~= old(self).allocas@ + old(self).pack_allocs(fr.packed@, llts@, m + 1));
            assert(self.frame_geps@ =~= old(self).frame_geps@ + pack_geps(fr.packed@, m + 1));
            m += 1;
        }
    }

    /// The `define` text of a parallel entry named `fname`: like a sequential
    /// function's, with no attributes, and the frame-field addresses between
    /// the allocations and the body.
    pub fn define_parallel_entry(&self, fname: &str, sig_ret: &str, in_llt: Option<&str>) -> (r: String)
        ensures
            r@ == "define internal "@ + sig_ret@ + " @"@ + fname@ + "("@ + match in_llt {
                Some(t) => t@ + " %arg"@,
                None => Seq::empty(),
            } + ") {\nentry:\n"@ + perf_begin_text(self.perf_timing) + self.allocas@
                + self.frame_geps@ + self.body@ + "}\n"@,
    {
        let mut out = String::from_str("define internal ");
        out.append(sig_ret);
        out.append(" @");
        out.append(fname);
        out.append("(");
        match in_llt {
            Some(t) => {
                out.append(t);
                out.append(" %arg");
            },
            None => {},
        }
        out.append(") {\nentry:\n");
        if self.perf_timing {
            out.append("  call void @mapal_perf_begin()\n");
        }
        out.append(self.allocas.as_str());
        out.append(self.frame_geps.as_str());
        out.append(self.body.as_str());
        out.append("}\n");
        assert(out@ =~= "define internal "@ + sig_ret@ + " @"@ + fname@ + "("@ + match in_llt {
            Some(t) => t@ + " %arg"@,
            None => Seq::empty(),
        } + ") {\nentry:\n"@ + perf_begin_text(self.perf_timing) + self.allocas@ + self.frame_geps@
            + self.body@ + "}\n"@);
        out
    }
}

impl<'a> FnEmit<'a> {
    /// The attributes are truthful: a function is `readonly nounwind` only
    /// when every function it reaches is free of side effects and traps and
    /// this emission wrote no runtime state; it is also `willreturn` only
    /// when nothing it reaches enters a loop or lies on a call cycle.
    pub proof fn lemma_attributes_truthful(self, attrs: FnAttrs)
        requires
            attrs.describes(*self.ir),
            (self.f as int) < self.ir.funcs.len(),
        ensures
            self.fn_attrs_text(attrs) != Seq::<char>::empty() ==> {
                &&& clean_fn(*self.ir, self.f)
                &&& !self.runtime_write
                &&& !self.perf_timing
            },
            self.fn_attrs_text(attrs) == " readonly nounwind willreturn"@ ==> !loopy_fn(
                *self.ir,
                self.f,
            ),
    {
        reveal_strlit(" readonly nounwind");
        reveal_strlit(" readonly nounwind willreturn");
        assert(attrs.clean_view()[self.f as int] == clean_fn(*self.ir, self.f));
        assert(attrs.loopy_view()[self.f as int] == loopy_fn(*self.ir, self.f));
        if self.fn_attrs_text(attrs) == " readonly nounwind willreturn"@ {
            assert(" readonly nounwind"@.len() != " readonly nounwind willreturn"@.len());
        }
    }
}

} // verus!
