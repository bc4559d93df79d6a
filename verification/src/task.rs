//! A parallel task's function: which morphisms it runs, whether it keeps
//! a watermark, the wrapper that runs a packed split site as two nested
//! dispatches (the pack, then the slices), and the function definition.
use vstd::prelude::*;
use crate::emit::{FnEmit, line_text, tmp_name};
use crate::host::{Task, TaskKind};
use crate::ir::{CategoryIr, Operation};
use crate::num;
use crate::site::{TileSite, is_packing_site, packing_site};

verus! {

/// `define internal void @task<id><suffix>(i64 %lo, i64 %hi, ptr %frame)`
/// with the given entry block.
pub open spec fn task_definition_text(
    id: nat,
    suffix: Seq<char>,
    allocas: Seq<char>,
    frame_geps: Seq<char>,
    body: Seq<char>,
) -> Seq<char> {
    "define internal void @task"@ + num::dec_nat(id) + suffix + "(i64 %lo, i64 %hi, ptr %frame) {\nentry:\n"@ + allocas
        + frame_geps + body + "}\n"@
}

/// A task's function definition around its entry block.
pub fn task_definition(task_id: u64, suffix: &str, allocas: &str, frame_geps: &str, body: &str) -> (r: String)
    ensures
        r@ == task_definition_text(task_id as nat, suffix@, allocas@, frame_geps@, body@),
{
    let mut r = String::from_str("define internal void @task");
    r.append(num::u64_to_string(task_id).as_str());
    r.append(suffix);
    r.append("(i64 %lo, i64 %hi, ptr %frame) {\nentry:\n");
    r.append(allocas);
    r.append(frame_geps);
    r.append(body);
    r.append("}\n");
    proof {
        reveal_strlit("define internal void @task");
        reveal_strlit("(i64 %lo, i64 %hi, ptr %frame) {\nentry:\n");
        reveal_strlit("}\n");
    }
    assert(r@ =~= task_definition_text(task_id as nat, suffix@, allocas@, frame_geps@, body@));
    r
}

/// The morphisms a task runs: its split site, or its sequence.
pub open spec fn task_members_of(kind: TaskKind) -> Seq<usize> {
    match kind {
        TaskKind::Split { site, .. } => seq![site],
        TaskKind::Sequence { morphisms } => morphisms@,
    }
}

/// The morphisms a task runs.
pub fn task_members(kind: &TaskKind) -> (r: Vec<usize>)
    ensures
        r@ == task_members_of(*kind),
{
    match kind {
        TaskKind::Split { site, .. } => {
            let v = vec![*site];
            assert(v@ =~= seq![*site]);
            v
        },
        TaskKind::Sequence { morphisms } => morphisms.clone(),
    }
}

/// A fold or a loop entry: what keeps a sequence task from a watermark.
pub open spec fn ends_watermark(op: Operation) -> bool {
    op matches Operation::Fold { .. } || op matches Operation::LoopEnter
}

/// A sequence task keeps a watermark unless one of its morphisms is a fold
/// or a loop entry; a split task never does.
pub open spec fn task_watermark_of(ir: CategoryIr, kind: TaskKind) -> bool {
    match kind {
        TaskKind::Split { .. } => false,
        TaskKind::Sequence { morphisms } => forall|j: int|
            0 <= j < morphisms.len() ==> !ends_watermark(ir.morphisms@[#[trigger] morphisms@[j] as int].op),
    }
}

/// Whether a task keeps a watermark.
pub fn task_watermark(ir: &CategoryIr, kind: &TaskKind) -> (r: bool)
    requires
        ir.wf(),
        kind matches TaskKind::Sequence { morphisms } ==> forall|j: int|
            0 <= j < morphisms.len() ==> #[trigger] morphisms@[j] < ir.morphisms.len(),
    ensures
        r == task_watermark_of(*ir, *kind),
{
    match kind {
        TaskKind::Split { .. } => false,
        TaskKind::Sequence { morphisms } => {
            let mut i: usize = 0;
            while i < morphisms.len()
                invariant
                    0 <= i <= morphisms.len(),
                    *kind == (TaskKind::Sequence { morphisms: *morphisms }),
                    forall|j: int| 0 <= j < morphisms.len() ==> #[trigger] morphisms@[j] < ir.morphisms.len(),
                    forall|j: int| 0 <= j < i ==> !ends_watermark(ir.morphisms@[#[trigger] morphisms@[j] as int].op),
                decreases morphisms.len() - i,
            {
                let m = morphisms[i];
                let stops = match ir.morphisms[m].op {
                    Operation::Fold { .. } | Operation::LoopEnter => true,
                    _ => false,
                };
                if stops {
                    assert(ends_watermark(ir.morphisms@[morphisms@[i as int] as int].op));
                    return false;
                }
                i += 1;
            }
            true
        },
    }
}

/// The packed split a task runs as a pack and its slices: a split task
/// whose site is tiled (`sites` is the tile plan, present when tiling)
/// and packing, when packing is on. `(site, n)`.
pub open spec fn packed_split_of(kind: TaskKind, packing: bool, sites: Option<Seq<Option<TileSite>>>) -> Option<
    (usize, u64),
> {
    match kind {
        TaskKind::Split { site, n } => match sites {
            Some(ss) => if site < ss.len() && ss[site as int] is Some && packing && is_packing_site(
                ss[site as int].unwrap(),
            ) {
                Some((site, n))
            } else {
                None
            },
            None => None,
        },
        TaskKind::Sequence { .. } => None,
    }
}

/// The packed split a task runs as a pack and its slices, if any.
pub fn packed_split(kind: &TaskKind, packing: bool, sites: Option<&Vec<Option<TileSite>>>) -> (r: Option<(usize, u64)>)
    ensures
        r == packed_split_of(
            *kind,
            packing,
            match sites {
                Some(v) => Some(v@),
                None => None,
            },
        ),
{
    match kind {
        TaskKind::Split { site, n } => match sites {
            Some(ss) => {
                if *site < ss.len() && packing {
                    match &ss[*site] {
                        Some(ts) => {
                            if packing_site(ts) {
                                Some((*site, *n))
                            } else {
                                None
                            }
                        },
                        None => None,
                    }
                } else {
                    None
                }
            },
            None => None,
        },
        TaskKind::Sequence { .. } => None,
    }
}

/// One nested run of a single task over `n` items: begin with handle `h`,
/// register `@task<id><suffix>`, launch over the frame, wait for it.
pub open spec fn nested_run_text(
    h: Seq<char>,
    id: nat,
    suffix: Seq<char>,
    n: nat,
    rank: nat,
    min_slice: nat,
    oversub: nat,
) -> Seq<char> {
    line_text(h + " = call ptr @mapal_par_begin(i32 1)"@) + line_text(
        "call void @mapal_par_task(ptr "@ + h + ", i32 0, i32 1, ptr @task"@ + num::dec_nat(id) + suffix + ", i64 "@
            + num::dec_nat(n) + ", i32 "@ + num::dec_nat(rank) + ", i64 "@ + num::dec_nat(min_slice) + ", i32 "@
            + num::dec_nat(oversub) + ", i32 0)"@,
    ) + line_text("call void @mapal_par_launch(ptr "@ + h + ", ptr %frame)"@) + line_text(
        "call void @mapal_par_finish(ptr "@ + h + ")"@,
    )
}

impl<'a> FnEmit<'a> {
    /// One nested run of `@task<id><suffix>` over `n` items.
    fn emit_nested_run(&mut self, task_id: u64, suffix: &str, n: u64, rank: u32, min_slice: u64, oversub: u32)
        requires
            old(self).next < u32::MAX,
        ensures
            final(self).body@ == old(self).body@ + nested_run_text(
                tmp_name(old(self).next as nat),
                task_id as nat,
                suffix@,
                n as nat,
                rank as nat,
                min_slice as nat,
                oversub as nat,
            ),
            final(self).next == old(self).next + 1,
            final(self).allocas == old(self).allocas,
            final(self).heap_used == old(self).heap_used,
            final(self).same_setup(*old(self)),
    {
        let h = self.tmp();
        let mut begin = String::from_str(h.as_str());
        begin.append(" = call ptr @mapal_par_begin(i32 1)");
        self.line(begin.as_str());
        let mut task = String::from_str("call void @mapal_par_task(ptr ");
        task.append(h.as_str());
        task.append(", i32 0, i32 1, ptr @task");
        task.append(num::u64_to_string(task_id).as_str());
        task.append(suffix);
        task.append(", i64 ");
        task.append(num::u64_to_string(n).as_str());
        task.append(", i32 ");
        task.append(num::u64_to_string(rank as u64).as_str());
        task.append(", i64 ");
        task.append(num::u64_to_string(min_slice).as_str());
        task.append(", i32 ");
        task.append(num::u64_to_string(oversub as u64).as_str());
        task.append(", i32 0)");
        self.line(task.as_str());
        let mut launch = String::from_str("call void @mapal_par_launch(ptr ");
        launch.append(h.as_str());
        launch.append(", ptr %frame)");
        self.line(launch.as_str());
        let mut finish = String::from_str("call void @mapal_par_finish(ptr ");
        finish.append(h.as_str());
        finish.append(")");
        self.line(finish.as_str());
        proof {
            reveal_strlit(" = call ptr @mapal_par_begin(i32 1)");
            reveal_strlit("call void @mapal_par_task(ptr ");
            reveal_strlit(", i32 0, i32 1, ptr @task");
            reveal_strlit(", i64 ");
            reveal_strlit(", i32 ");
            reveal_strlit(", i32 0)");
            reveal_strlit("call void @mapal_par_launch(ptr ");
            reveal_strlit(", ptr %frame)");
            reveal_strlit("call void @mapal_par_finish(ptr ");
            reveal_strlit(")");
        }
        assert(begin@ =~= h@ + " = call ptr @mapal_par_begin(i32 1)"@);
        assert(task@ =~= "call void @mapal_par_task(ptr "@ + h@ + ", i32 0, i32 1, ptr @task"@ + num::dec_nat(task_id as nat)
            + suffix@ + ", i64 "@ + num::dec_nat(n as nat) + ", i32 "@ + num::dec_nat(rank as nat) + ", i64 "@ + num::dec_nat(
            min_slice as nat,
        ) + ", i32 "@ + num::dec_nat(oversub as nat) + ", i32 0)"@);
        assert(launch@ =~= "call void @mapal_par_launch(ptr "@ + h@ + ", ptr %frame)"@);
        assert(finish@ =~= "call void @mapal_par_finish(ptr "@ + h@ + ")"@);
        assert(self.body@ =~= old(self).body@ + nested_run_text(
            h@,
            task_id as nat,
            suffix@,
            n as nat,
            rank as nat,
            min_slice as nat,
            oversub as nat,
        ));
    }

    /// The wrapper body of a packed split task: the pack as its own run over
    /// the `tiles` j-tiles (one tile per slice, four slices per lane), then
    /// the slices as a second run over the site's `n` items with the
    /// region's sizing, then `ret void`. The first run's finish orders every
    /// pack store before every slice's load.
    pub fn emit_packed_task_wrapper(&mut self, task_id: u64, rank: u32, tiles: u64, n: u64, min_slice: u64, oversub: u32)
        requires
            old(self).next + 2 <= u32::MAX,
        ensures
            final(self).body@ == old(self).body@ + nested_run_text(
                tmp_name(old(self).next as nat),
                task_id as nat,
                "_pack"@,
                tiles as nat,
                rank as nat,
                1,
                4,
            ) + nested_run_text(
                tmp_name(old(self).next as nat + 1),
                task_id as nat,
                "_slice"@,
                n as nat,
                rank as nat,
                min_slice as nat,
                oversub as nat,
            ) + line_text("ret void"@),
            final(self).next == old(self).next + 2,
            final(self).allocas == old(self).allocas,
            final(self).heap_used == old(self).heap_used,
            final(self).same_setup(*old(self)),
    {
        self.emit_nested_run(task_id, "_pack", tiles, rank, 1, 4);
        self.emit_nested_run(task_id, "_slice", n, rank, min_slice, oversub);
        self.line("ret void");
    }
}

} // verus!
