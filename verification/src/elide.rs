//! Arrays that never need to exist in memory: a generated array (`iota`,
//! `fill`, `zip`, `enumerate`) whose element law a consumer can rebuild, and
//! whose every consumer is a capture-free map or fold over it.
use vstd::prelude::*;
use crate::emit::FnEmit;
use crate::ir::{ElemSrc, Morphism, ObjectKind, Operation};

verus! {

/// The operations that generate an array from a law rather than from memory.
pub open spec fn generator(op: Operation) -> bool {
    op is Iota || op is Fill || op is Zip || op is Enumerate
}

/// A law a consumer rebuilds by itself: the index, a broadcast scalar, or a
/// pair of laws (a producer's body is not recomputed, and a load is a read).
pub open spec fn buildable(law: ElemSrc) -> bool {
    law is Index || law is Broadcast || law is Pair
}

/// `cm` is a map or a fold that reads `arr` element by element, as the
/// mapped or folded array, with nothing else captured.
pub open spec fn inline_consumer(cm: Morphism, arr: usize) -> bool {
    &&& cm.source == arr
    &&& match cm.op {
        Operation::MapEach { captures, .. } => captures == 0,
        Operation::Fold { captures, .. } => captures == 0,
        _ => false,
    }
}

impl<'a> FnEmit<'a> {
    /// The array morphism `m` generates need not be materialized.
    pub open spec fn elidable(self, m: usize) -> bool {
        let ir = *self.ir;
        let arr = ir.morphisms@[m as int].target;
        let consumers = ir.out_edges@[arr as int]@;
        &&& m < ir.morphisms.len()
        &&& generator(ir.morphisms@[m as int].op)
        &&& (arr as int) < self.elem.len()
        &&& self.elem@[arr as int] matches Some(law) && buildable(law)
        &&& ir.objects@[arr as int].kind == ObjectKind::Temporary
        &&& consumers.len() > 0
        &&& forall|j: int|
            0 <= j < consumers.len() ==> #[trigger] inline_consumer(
                ir.morphisms@[consumers[j] as int],
                arr,
            )
    }

    /// One of the first `k` of `ms` generates `arr` elidably.
    pub open spec fn elides(self, ms: Seq<usize>, k: int, arr: usize) -> bool {
        exists|i: int|
            0 <= i < k && #[trigger] self.elidable(ms[i]) && self.ir.morphisms@[ms[i] as int].target
                == arr
    }

    fn elidable_site(&self, m: usize) -> (r: bool)
        requires
            self.ir.wf(),
        ensures
            r == self.elidable(m),
    {
        if m >= self.ir.morphisms.len() {
            return false;
        }
        let morph = &self.ir.morphisms[m];
        assert(self.ir.morphisms@[m as int].source < self.ir.objects.len());
        match morph.op {
            Operation::Iota | Operation::Fill | Operation::Zip | Operation::Enumerate => {},
            _ => return false,
        }
        let arr = morph.target;
        if arr >= self.elem.len() {
            return false;
        }
        match &self.elem[arr] {
            Some(ElemSrc::Index) | Some(ElemSrc::Broadcast { .. }) | Some(ElemSrc::Pair(..)) => {},
            _ => return false,
        }
        if self.ir.objects[arr].kind != ObjectKind::Temporary {
            return false;
        }
        let consumers = &self.ir.out_edges[arr];
        if consumers.len() == 0 {
            return false;
        }
        let mut j: usize = 0;
        while j < consumers.len()
            invariant
                self.ir.wf(),
                m < self.ir.morphisms.len(),
                arr == self.ir.morphisms@[m as int].target,
                generator(self.ir.morphisms@[m as int].op),
                (arr as int) < self.elem.len(),
                self.elem@[arr as int] matches Some(law) && buildable(law),
                self.ir.objects@[arr as int].kind == ObjectKind::Temporary,
                consumers.len() > 0,
                (arr as int) < self.ir.out_edges.len(),
                consumers@ == self.ir.out_edges@[arr as int]@,
                0 <= j <= consumers.len(),
                forall|i: int|
                    0 <= i < j ==> inline_consumer(
                        self.ir.morphisms@[consumers@[i] as int],
                        arr,
                    ),
            decreases consumers.len() - j,
        {
            let c = consumers[j];
            assert(c < self.ir.morphisms.len());
            let cm = &self.ir.morphisms[c];
            let inline = match cm.op {
                Operation::MapEach { captures, .. } => captures == 0 && cm.source == arr,
                Operation::Fold { captures, .. } => captures == 0 && cm.source == arr,
                _ => false,
            };
            if !inline {
                assert(!inline_consumer(self.ir.morphisms@[consumers@[j as int] as int], arr));
                return false;
            }
            j += 1;
        }
        true
    }

    /// Mark, among the arrays that `morphisms` generate, those that no
    /// consumer needs materialized.
    pub fn mark_elided_arrays(&mut self, morphisms: &[usize])
        requires
            old(self).ir.wf(),
            old(self).elided_arrays.len() == old(self).ir.objects.len(),
        ensures
            final(self).elided_arrays.len() == old(self).elided_arrays.len(),
            forall|o: int|
                0 <= o < final(self).elided_arrays.len() ==> #[trigger] final(self).elided_arrays@[o]
                    == (old(self).elided_arrays@[o] || old(self).elides(
                    morphisms@,
                    morphisms.len() as int,
                    o as usize,
                )),
            *final(self) == (FnEmit { elided_arrays: final(self).elided_arrays, ..*old(self) }),
    {
        let mut i: usize = 0;
        while i < morphisms.len()
            invariant
                0 <= i <= morphisms.len(),
                self.ir.wf(),
                *self == (FnEmit { elided_arrays: self.elided_arrays, ..*old(self) }),
                self.elided_arrays.len() == old(self).elided_arrays.len(),
                old(self).elided_arrays.len() == old(self).ir.objects.len(),
                forall|o: int|
                    0 <= o < self.elided_arrays.len() ==> #[trigger] self.elided_arrays@[o] == (
                    old(self).elided_arrays@[o] || old(self).elides(morphisms@, i as int, o as usize)),
            decreases morphisms.len() - i,
        {
            let m = morphisms[i];
            let ghost before = self.elided_arrays@;
            if self.elidable_site(m) {
                let arr = self.ir.morphisms[m].target;
                assert(self.ir.morphisms@[m as int].source < self.ir.objects.len());
                self.elided_arrays.set(arr, true);
                assert forall|o: int| 0 <= o < self.elided_arrays.len() implies #[trigger] self.elided_arrays@[o]
                    == (old(self).elided_arrays@[o] || old(self).elides(
                    morphisms@,
                    i + 1,
                    o as usize,
                )) by {
                    if o == arr {
                        assert(old(self).elidable(morphisms@[i as int]));
                    } else {
                        assert(before[o] == self.elided_arrays@[o]);
                        if old(self).elides(morphisms@, i + 1, o as usize) {
                            let k = choose|k: int|
                                0 <= k < i + 1 && #[trigger] old(self).elidable(morphisms@[k])
                                    && old(self).ir.morphisms@[morphisms@[k] as int].target == o;
                            assert(k < i);
                        }
                    }
                }
            } else {
                assert forall|o: int| 0 <= o < self.elided_arrays.len() implies #[trigger] self.elided_arrays@[o]
                    == (old(self).elided_arrays@[o] || old(self).elides(
                    morphisms@,
                    i + 1,
                    o as usize,
                )) by {
                    if old(self).elides(morphisms@, i + 1, o as usize) {
                        let k = choose|k: int|
                            0 <= k < i + 1 && #[trigger] old(self).elidable(morphisms@[k])
                                && old(self).ir.morphisms@[morphisms@[k] as int].target == o;
                        assert(k < i);
                    }
                }
            }
            i += 1;
        }
    }
}

} // verus!
