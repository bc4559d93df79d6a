//! `Print`: a call into the runtime's printer for the value in slot 1 of the
//! print's source pair, a string literal by its private global.
use vstd::prelude::*;
use vstd::string::*;
use crate::emit::{FnEmit, line_text};
use crate::ir;
use crate::ir::{Ty, component, print_dispatch, print_target, printable};
use crate::num;

verus! {

/// A string literal's private global: its name and its bytes.
pub struct StrGlobal {
    pub name: String,
    pub bytes: Vec<u8>,
}

impl<'a> FnEmit<'a> {
    /// The printed value's type: slot 1 of the print's source.
    pub open spec fn printed_ty(self, source: usize) -> Ty {
        component(self.ir.objects@[source as int].ty, 1).unwrap()
    }

    /// What `emit_print` appends: the string printer on a literal's global
    /// and byte length, or the scalar printer of the value's type on `val`
    /// (zero-extended where the runtime takes a wider parameter).
    pub open spec fn print_text(
        self,
        source: usize,
        newline: bool,
        strings: Seq<Option<StrGlobal>>,
        val: Seq<char>,
    ) -> Seq<char> {
        let nl = if newline {
            "true"@
        } else {
            "false"@
        };
        let pty = self.printed_ty(source);
        if pty is Str {
            let g = strings[ir::pair_source(*self.ir, source, 1).unwrap() as int].unwrap();
            line_text(
                "call void @mapal_print_str(ptr "@ + g.name@ + ", i64 "@ + num::dec_nat(
                    g.bytes.len() as nat,
                ) + ", i1 zeroext "@ + nl + ")"@,
            )
        } else {
            let target = print_target(pty);
            line_text(
                "call void @"@ + target.0 + "("@ + target.2 + " "@ + (if target.1 {
                    "zeroext "@
                } else {
                    Seq::empty()
                }) + val + ", i1 zeroext "@ + nl + ")"@,
            )
        }
    }

    /// Print the value in slot 1 of `source` (its loaded operand `val`; a
    /// string is printed from its literal's global among `strings`, by object),
    /// followed by a newline when `newline`.
    pub fn emit_print(
        &mut self,
        source: usize,
        newline: bool,
        strings: &Vec<Option<StrGlobal>>,
        val: &str,
    )
        requires
            old(self).ir.wf(),
            source < old(self).ir.objects.len(),
            component(old(self).ir.objects@[source as int].ty, 1) matches Some(pty) && (pty is Str
                || printable(pty)),
            old(self).printed_ty(source) is Str ==> (ir::pair_source(*old(self).ir, source, 1) matches Some(
                p,
            ) && (p as int) < strings.len() && strings@[p as int] is Some),
        ensures
            final(self).body@ == old(self).body@ + old(self).print_text(source, newline, strings@, val@),
            final(self).next == old(self).next,
            final(self).allocas == old(self).allocas,
            final(self).heap_used == old(self).heap_used,
            final(self).same_setup(*old(self)),
    {
        let nl = if newline {
            "true"
        } else {
            "false"
        };
        let pty = match &self.ir.objects[source].ty {
            Ty::Tuple(ts) => &ts[1],
            Ty::Struct { fields, .. } => &fields[1].1,
            _ => {
                assert(false);
                return ;
            },
        };
        assert(*pty == old(self).printed_ty(source));
        if let Ty::Str = pty {
            let p = match ir::pair_source_ir(self.ir, source, 1) {
                Some(p) => p,
                None => {
                    assert(false);
                    return ;
                },
            };
            let g = match &strings[p] {
                Some(g) => g,
                None => {
                    assert(false);
                    return ;
                },
            };
            let mut s = String::from_str("call void @mapal_print_str(ptr ");
            s.append(g.name.as_str());
            s.append(", i64 ");
            s.append(num::u64_to_string(g.bytes.len() as u64).as_str());
            s.append(", i1 zeroext ");
            s.append(nl);
            s.append(")");
            self.line(s.as_str());
            assert(line_text(s@) =~= old(self).print_text(source, newline, strings@, val@));
            return ;
        }
        let (func, ze, tystr) = print_dispatch(pty);
        let ze = if ze {
            "zeroext "
        } else {
            ""
        };
        let mut s = String::from_str("call void @");
        s.append(func);
        s.append("(");
        s.append(tystr);
        s.append(" ");
        s.append(ze);
        s.append(val);
        s.append(", i1 zeroext ");
        s.append(nl);
        s.append(")");
        self.line(s.as_str());
        proof {
            reveal_strlit("");
        }
        assert(line_text(s@) =~= old(self).print_text(source, newline, strings@, val@));
    }
}

} // verus!
