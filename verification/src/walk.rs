//! The topological walk's decisions: what becomes of each morphism as the
//! walk reaches it. A loop entry starts its loop (unless a branch owns it);
//! loop back and exit edges are the loop's; morphisms a loop plan owns, that
//! touch a loop's objects, or that a branch fires, are emitted elsewhere;
//! everything else is emitted in place.
use vstd::prelude::*;
use crate::emit::FnEmit;
use crate::ir::{CategoryIr, Operation};

verus! {

/// What the walk does at one morphism.
#[derive(PartialEq, Eq, Structural, Debug)]
pub enum WalkAction {
    /// Nothing here: the morphism is emitted elsewhere, or by no one.
    Skip,
    /// Emit the loop whose merge object is given.
    Loop(usize),
    /// Emit the morphism in place.
    Morphism(usize),
}

/// What the walk does at morphism `m`. `owned` marks the morphisms of loop
/// plans (by morphism), `in_scc` the objects of loops (by object), `gated`
/// the morphisms a branch fires (by morphism).
pub open spec fn walk_action_of(
    ir: CategoryIr,
    m: usize,
    owned: Seq<bool>,
    in_scc: Seq<bool>,
    gated: Seq<bool>,
) -> WalkAction {
    let morph = ir.morphisms@[m as int];
    match morph.op {
        Operation::LoopEnter => if gated[m as int] {
            WalkAction::Skip
        } else {
            WalkAction::Loop(morph.target)
        },
        Operation::LoopBack | Operation::LoopExit => WalkAction::Skip,
        _ => if owned[m as int] || in_scc[morph.source as int] || in_scc[morph.target as int]
            || gated[m as int] {
            WalkAction::Skip
        } else {
            WalkAction::Morphism(m)
        },
    }
}

/// The walk's inputs cover the IR's morphisms and objects.
pub open spec fn walk_inputs_ok(
    ir: CategoryIr,
    m: usize,
    owned: Seq<bool>,
    in_scc: Seq<bool>,
    gated: Seq<bool>,
) -> bool {
    &&& ir.wf()
    &&& m < ir.morphisms.len()
    &&& owned.len() == ir.morphisms.len()
    &&& gated.len() == ir.morphisms.len()
    &&& in_scc.len() == ir.objects.len()
}

impl<'a> FnEmit<'a> {
    /// What the sequential walk does at morphism `m`.
    pub fn walk_action(&self, m: usize, owned: &Vec<bool>, in_scc: &Vec<bool>, gated: &Vec<bool>) -> (r:
        WalkAction)
        requires
            walk_inputs_ok(*self.ir, m, owned@, in_scc@, gated@),
        ensures
            r == walk_action_of(*self.ir, m, owned@, in_scc@, gated@),
    {
        let morph = &self.ir.morphisms[m];
        assert(self.ir.morphisms@[m as int].source < self.ir.objects.len());
        match morph.op {
            Operation::LoopEnter => {
                if gated[m] {
                    WalkAction::Skip
                } else {
                    WalkAction::Loop(morph.target)
                }
            },
            Operation::LoopBack | Operation::LoopExit => WalkAction::Skip,
            _ => {
                if owned[m] || in_scc[morph.source] || in_scc[morph.target] || gated[m] {
                    WalkAction::Skip
                } else {
                    WalkAction::Morphism(m)
                }
            },
        }
    }

    /// One step of the host's walk in a parallel entry: the wait for a pinned
    /// task starting at `m` comes first; then only morphisms whose task
    /// membership (`members`, by morphism) equals `include_members` are considered; a
    /// loop entry the walk starts first waits for the checkpoints inside the
    /// loop. Returns what the walk does at `m`.
    pub fn walk_filtered_step(
        &mut self,
        m: usize,
        members: &Vec<bool>,
        include_members: bool,
        owned: &Vec<bool>,
        in_scc: &Vec<bool>,
        gated: &Vec<bool>,
    ) -> (r: WalkAction)
        requires
            walk_inputs_ok(*old(self).ir, m, owned@, in_scc@, gated@),
            members.len() == old(self).ir.morphisms.len(),
        ensures
            r == if members@[m as int] != include_members {
                WalkAction::Skip
            } else {
                walk_action_of(*old(self).ir, m, owned@, in_scc@, gated@)
            },
            final(self).body@ == old(self).body@ + old(self).pin_text(m) + if members@[m as int]
                == include_members && r is Loop {
                old(self).pre_loop_text(m)
            } else {
                Seq::empty()
            },
            final(self).next == old(self).next,
            final(self).allocas == old(self).allocas,
            final(self).heap_used == old(self).heap_used,
            final(self).same_setup(*old(self)),
    {
        self.emit_pin_wait(m);
        if members[m] != include_members {
            assert(self.body@ =~= old(self).body@ + old(self).pin_text(m) + Seq::<char>::empty());
            return WalkAction::Skip;
        }
        let action = self.walk_action(m, owned, in_scc, gated);
        let ghost pinned = self.body@;
        match action {
            WalkAction::Loop(_) => {
                self.emit_pre_loop_checks(m);
            },
            _ => {
                assert(self.body@ =~= pinned + Seq::<char>::empty());
            },
        }
        action
    }
}

} // verus!
