//! The host side of a parallel entry: which morphisms the tasks take over,
//! where pinned tasks are waited for, the task registration the runtime reads,
//! and the constant wait tables.
use vstd::prelude::*;
use crate::emit::{FnEmit, first_index, line_text};
use crate::frame::{WaitEntry, wait_global, wait_text};
use crate::ir::{CategoryIr, Operation};
use crate::num;
use crate::site::{TileSite, is_packing_site, packing_site};

verus! {

/// How a parallel task runs: a map site split over `n` indices, or a
/// sequence of morphisms run once.
pub enum TaskKind {
    Split { site: usize, n: u64 },
    Sequence { morphisms: Vec<usize> },
}

/// One task of the parallel plan.
pub struct Task {
    pub kind: TaskKind,
    /// The host runs it in place, after waiting for its dependencies.
    pub pinned: bool,
    /// The tasks it waits for.
    pub deps: Vec<u32>,
    pub rank: u32,
}

/// A barrier of the parallel plan: the topological position it guards
/// (`u32::MAX` when it guards nothing) and the task progress it waits for.
pub struct Checkpoint {
    pub topo: u32,
    pub wait: Vec<WaitEntry>,
}

/// How many of the first `k` checkpoints are live (guard a position).
pub open spec fn live_count(cps: Seq<Checkpoint>, k: int) -> nat
    decreases k,
{
    if k <= 0 {
        0
    } else {
        live_count(cps, k - 1) + if cps[k - 1].topo != u32::MAX {
            1nat
        } else {
            0nat
        }
    }
}

/// The live checkpoints' wait tables among the first `k`, numbered in order.
pub open spec fn ckpt_tables(cps: Seq<Checkpoint>, k: int) -> Seq<char>
    decreases k,
{
    if k <= 0 {
        Seq::empty()
    } else {
        ckpt_tables(cps, k - 1) + if cps[k - 1].topo != u32::MAX {
            wait_text(table_name("ckpt"@, live_count(cps, k - 1)), cps[k - 1].wait@)
        } else {
            Seq::empty()
        }
    }
}

/// A pinned task's wait, placed before its first morphism.
pub struct PinnedEmit {
    pub task: usize,
    pub topo: u32,
    pub len: usize,
}

/// A live checkpoint's wait and check, placed before the morphism it guards.
pub struct CheckpointEmit {
    pub ordinal: usize,
    pub topo: u32,
    pub len: usize,
}

/// The waits the host injects into its walk, by morphism: a checkpoint's
/// before the morphism it guards, a pinned task's before its first member,
/// and a loop's inner checkpoints once more before it is entered.
pub struct HostEmit {
    pub checkpoints: Vec<Option<CheckpointEmit>>,
    pub pinned: Vec<Option<PinnedEmit>>,
    pub pre_loop: Vec<Vec<CheckpointEmit>>,
}

/// The morphisms a task runs.
pub open spec fn members(t: Task) -> Seq<usize> {
    match t.kind {
        TaskKind::Split { site, .. } => seq![site],
        TaskKind::Sequence { morphisms } => morphisms@,
    }
}

/// Some task runs morphism `m`.
pub open spec fn assigned(tasks: Seq<Task>, m: usize) -> bool {
    exists|i: int, j: int|
        0 <= i < tasks.len() && 0 <= j < members(tasks[i]).len() && #[trigger] members(
            tasks[i],
        )[j] == m
}

/// The pinned waits after the first `k` tasks, by morphism: a pinned task's
/// wait sits at its first member (a later task at the same member replaces it).
pub open spec fn pinned_after(tasks: Seq<Task>, topo: Seq<usize>, k: int, n: nat) -> Seq<
    Option<PinnedEmit>,
>
    decreases k,
{
    if k <= 0 {
        Seq::new(n, |i: int| None)
    } else {
        let prev = pinned_after(tasks, topo, k - 1, n);
        let t = tasks[k - 1];
        if t.pinned {
            let first = members(t)[0];
            prev.update(
                first as int,
                Some(
                    PinnedEmit {
                        task: (k - 1) as usize,
                        topo: first_index(topo, first) as u32,
                        len: t.deps.len(),
                    },
                ),
            )
        } else {
            prev
        }
    }
}

/// The task members are morphism ids below `n`, and a pinned task has a
/// first member, which `topo` orders.
pub open spec fn tasks_ok(tasks: Seq<Task>, topo: Seq<usize>, n: nat) -> bool {
    &&& forall|i: int, j: int|
        0 <= i < tasks.len() && 0 <= j < members(tasks[i]).len() ==> (#[trigger] members(
            tasks[i],
        )[j] as int) < n
    &&& forall|i: int|
        0 <= i < tasks.len() && #[trigger] tasks[i].pinned ==> members(tasks[i]).len() > 0
            && topo.contains(members(tasks[i])[0])
}

/// A dependency list as the wait table of a pinned task: every entry waits
/// for the whole task.
pub open spec fn dep_waits(deps: Seq<u32>) -> Seq<WaitEntry> {
    Seq::new(deps.len(), |i: int| WaitEntry { task: deps[i], threshold: None })
}

/// `<prefix><i>_entries`.
pub open spec fn table_name(prefix: Seq<char>, i: nat) -> Seq<char> {
    prefix + num::dec_nat(i) + "_entries"@
}

/// The pinned tasks' wait tables, for the first `k` tasks.
pub open spec fn pin_tables(tasks: Seq<Task>, k: int) -> Seq<char>
    decreases k,
{
    if k <= 0 {
        Seq::empty()
    } else {
        pin_tables(tasks, k - 1) + if tasks[k - 1].pinned {
            wait_text(table_name("pin"@, (k - 1) as nat), dep_waits(tasks[k - 1].deps@))
        } else {
            Seq::empty()
        }
    }
}

/// Some of the first `k` tasks is pinned.
pub open spec fn any_pinned(tasks: Seq<Task>, k: int) -> bool {
    exists|i: int| 0 <= i < k && #[trigger] tasks[i].pinned
}

/// The morphisms some task runs, by morphism id.
pub fn assigned_morphisms(tasks: &[Task], n: usize) -> (r: Vec<bool>)
    requires
        forall|i: int, j: int|
            0 <= i < tasks@.len() && 0 <= j < members(tasks@[i]).len() ==> (#[trigger] members(
                tasks@[i],
            )[j] as int) < n,
    ensures
        r.len() == n,
        forall|m: int| 0 <= m < n ==> #[trigger] r@[m] == assigned(tasks@, m as usize),
{
    let mut r: Vec<bool> = Vec::new();
    let mut k: usize = 0;
    while k < n
        invariant
            0 <= k <= n,
            r@ =~= Seq::new(k as nat, |i: int| false),
        decreases n - k,
    {
        r.push(false);
        k += 1;
    }
    let mut i: usize = 0;
    while i < tasks.len()
        invariant
            0 <= i <= tasks.len(),
            r.len() == n,
            forall|i2: int, j: int|
                0 <= i2 < tasks@.len() && 0 <= j < members(tasks@[i2]).len() ==> (
                #[trigger] members(tasks@[i2])[j] as int) < n,
            forall|m: int|
                0 <= m < n ==> #[trigger] r@[m] == exists|i2: int, j: int|
                    0 <= i2 < i && 0 <= j < members(tasks@[i2]).len() && #[trigger] members(
                        tasks@[i2],
                    )[j] == m as usize,
        decreases tasks.len() - i,
    {
        let ghost before = r@;
        match &tasks[i].kind {
            TaskKind::Split { site, .. } => {
                assert(members(tasks@[i as int])[0] == *site);
                r.set(*site, true);
            },
            TaskKind::Sequence { morphisms } => {
                let mut j: usize = 0;
                while j < morphisms.len()
                    invariant
                        0 <= j <= morphisms.len(),
                        morphisms@ == members(tasks@[i as int]),
                        r.len() == n,
                        forall|j2: int|
                            0 <= j2 < morphisms.len() ==> (#[trigger] morphisms@[j2] as int) < n,
                        forall|m: int|
                            0 <= m < n ==> #[trigger] r@[m] == (before[m] || exists|j2: int|
                                0 <= j2 < j && #[trigger] morphisms@[j2] == m as usize),
                    decreases morphisms.len() - j,
                {
                    assert(morphisms@[j as int] < n);
                    r.set(morphisms[j], true);
                    assert forall|m: int| 0 <= m < n implies #[trigger] r@[m] == (before[m]
                        || exists|j2: int| 0 <= j2 < j + 1 && #[trigger] morphisms@[j2] == m as usize) by {
                        if m == morphisms@[j as int] {
                            assert(morphisms@[j as int] == m as usize);
                        }
                    }
                    j += 1;
                }
            },
        }
        assert forall|m: int| 0 <= m < n implies #[trigger] r@[m] == exists|i2: int, j: int|
            0 <= i2 < i + 1 && 0 <= j < members(tasks@[i2]).len() && #[trigger] members(
                tasks@[i2],
            )[j] == m as usize by {
            if r@[m] && !before[m] {
                match tasks@[i as int].kind {
                    TaskKind::Split { site, .. } => {
                        assert(members(tasks@[i as int])[0] == m as usize);
                    },
                    TaskKind::Sequence { morphisms } => {
                        let j2 = choose|j2: int|
                            0 <= j2 < members(tasks@[i as int]).len() && #[trigger] morphisms@[j2]
                                == m as usize;
                        assert(members(tasks@[i as int])[j2] == m as usize);
                    },
                }
            }
            if !r@[m] {
                if exists|i2: int, j: int|
                    0 <= i2 < i + 1 && 0 <= j < members(tasks@[i2]).len() && #[trigger] members(
                        tasks@[i2],
                    )[j] == m as usize {
                    let (i2, j) = choose|i2: int, j: int|
                        0 <= i2 < i + 1 && 0 <= j < members(tasks@[i2]).len() && #[trigger] members(
                            tasks@[i2],
                        )[j] == m as usize;
                    if i2 == i {
                        match tasks@[i as int].kind {
                            TaskKind::Split { site, .. } => {},
                            TaskKind::Sequence { morphisms } => {
                                assert(morphisms@[j] == m as usize);
                            },
                        }
                    }
                }
            }
        }
        i += 1;
    }
    r
}

/// The position of `m` in `topo` (which holds it).
fn topo_position(topo: &[usize], m: usize) -> (r: usize)
    requires
        topo@.contains(m),
    ensures
        r == first_index(topo@, m),
        r < topo.len(),
{
    let mut i: usize = 0;
    while i < topo.len()
        invariant
            0 <= i <= topo.len(),
            topo@.contains(m),
            forall|j: int| 0 <= j < i ==> topo@[j] != m,
        decreases topo.len() - i,
    {
        if topo[i] == m {
            proof {
                crate::emit::lemma_first_index(topo@, m, i as int);
            }
            return i;
        }
        i += 1;
    }
    proof {
        let j = choose|j: int| 0 <= j < topo@.len() && topo@[j] == m;
        assert(topo@[j] != m);
    }
    0
}

/// Where each pinned task is waited for, by morphism: at its first member,
/// with the member's place in `topo` and the task's dependency count.
pub fn pinned_sites(tasks: &[Task], topo: &[usize], n: usize) -> (r: Vec<Option<PinnedEmit>>)
    requires
        tasks_ok(tasks@, topo@, n as nat),
    ensures
        r@ == pinned_after(tasks@, topo@, tasks@.len() as int, n as nat),
{
    let mut r: Vec<Option<PinnedEmit>> = Vec::new();
    let mut k: usize = 0;
    while k < n
        invariant
            0 <= k <= n,
            r@ =~= Seq::new(k as nat, |i: int| None),
        decreases n - k,
    {
        r.push(None);
        k += 1;
    }
    let mut i: usize = 0;
    while i < tasks.len()
        invariant
            0 <= i <= tasks.len(),
            tasks_ok(tasks@, topo@, n as nat),
            r.len() == n,
            r@ == pinned_after(tasks@, topo@, i as int, n as nat),
        decreases tasks.len() - i,
    {
        let task = &tasks[i];
        if task.pinned {
            assert(tasks@[i as int].pinned);
            let first = match &task.kind {
                TaskKind::Split { site, .. } => *site,
                TaskKind::Sequence { morphisms } => morphisms[0],
            };
            assert(members(tasks@[i as int])[0] == first);
            assert((members(tasks@[i as int])[0] as int) < n);
            let position = topo_position(topo, first);
            r.set(
                first,
                Some(PinnedEmit { task: i, topo: position as u32, len: task.deps.len() }),
            );
        }
        i += 1;
    }
    r
}

/// The constant wait tables of a parallel entry: one per live checkpoint
/// (`ckpt<ordinal>_entries`, numbered among the live ones), one per pinned
/// task (`pin<task>_entries`, waiting for all of each dependency), and a blank
/// line after them when there is any.
pub fn host_wait_tables(checkpoints: &[Checkpoint], tasks: &[Task]) -> (r: String)
    ensures
        r@ == ckpt_tables(checkpoints@, checkpoints@.len() as int) + pin_tables(
            tasks@,
            tasks@.len() as int,
        ) + if live_count(checkpoints@, checkpoints@.len() as int) > 0 || any_pinned(
            tasks@,
            tasks@.len() as int,
        ) {
            "\n"@
        } else {
            Seq::empty()
        },
{
    let mut out = String::new();
    let mut live: usize = 0;
    let mut i: usize = 0;
    while i < checkpoints.len()
        invariant
            0 <= i <= checkpoints.len(),
            live == live_count(checkpoints@, i as int),
            live <= i,
            out@ == ckpt_tables(checkpoints@, i as int),
        decreases checkpoints.len() - i,
    {
        let checkpoint = &checkpoints[i];
        if checkpoint.topo != u32::MAX {
            let mut name = String::from_str("ckpt");
            name.append(num::u64_to_string(live as u64).as_str());
            name.append("_entries");
            assert(name@ =~= table_name("ckpt"@, live as nat));
            let table = wait_global(name.as_str(), checkpoint.wait.as_slice());
            out.append(table.as_str());
            live += 1;
        }
        assert(out@ =~= ckpt_tables(checkpoints@, i + 1));
        i += 1;
    }
    let mut any = live > 0;
    let mut k: usize = 0;
    while k < tasks.len()
        invariant
            0 <= k <= tasks.len(),
            out@ == ckpt_tables(checkpoints@, checkpoints@.len() as int) + pin_tables(
                tasks@,
                k as int,
            ),
            any == (live_count(checkpoints@, checkpoints@.len() as int) > 0 || any_pinned(
                tasks@,
                k as int,
            )),
        decreases tasks.len() - k,
    {
        let task = &tasks[k];
        let ghost before = out@;
        if task.pinned {
            let mut wait: Vec<WaitEntry> = Vec::new();
            let mut d: usize = 0;
            while d < task.deps.len()
                invariant
                    0 <= d <= task.deps.len(),
                    wait@ =~= dep_waits(task.deps@.subrange(0, d as int)),
                decreases task.deps.len() - d,
            {
                wait.push(WaitEntry { task: task.deps[d], threshold: None });
                d += 1;
            }
            assert(task.deps@.subrange(0, task.deps@.len() as int) =~= task.deps@);
            let mut name = String::from_str("pin");
            name.append(num::u64_to_string(k as u64).as_str());
            name.append("_entries");
            assert(name@ =~= table_name("pin"@, k as nat));
            let table = wait_global(name.as_str(), wait.as_slice());
            out.append(table.as_str());
            any = true;
        }
        proof {
            if any_pinned(tasks@, k + 1) && !any_pinned(tasks@, k as int) {
                let i2 = choose|i2: int| 0 <= i2 < k + 1 && #[trigger] tasks@[i2].pinned;
                assert(i2 == k);
            }
            if any_pinned(tasks@, k as int) {
                let i2 = choose|i2: int| 0 <= i2 < k && #[trigger] tasks@[i2].pinned;
                assert(0 <= i2 < k + 1 && tasks@[i2].pinned);
            }
            if tasks@[k as int].pinned {
                assert(0 <= k < k + 1 && tasks@[k as int].pinned);
            }
        }
        assert(out@ =~= ckpt_tables(checkpoints@, checkpoints@.len() as int) + pin_tables(
            tasks@,
            k + 1,
        ));
        k += 1;
    }
    if any {
        out.append("\n");
    }
    out
}

/// `call void @mapal_par_task(...)`: task `id` registered with its kind
/// (1 = split across lanes), trip count, rank and slice sizing.
pub open spec fn task_line(id: nat, kind: u32, n: u64, rank: u32, min_slice: u64, oversub: u32) -> Seq<
    char,
> {
    line_text(
        "call void @mapal_par_task(ptr %h, i32 "@ + num::dec_nat(id) + ", i32 "@ + num::dec_nat(
            kind as nat,
        ) + ", ptr @task"@ + num::dec_nat(id) + ", i64 "@ + num::dec_nat(n as nat) + ", i32 "@
            + num::dec_nat(rank as nat) + ", i64 "@ + num::dec_nat(min_slice as nat) + ", i32 "@
            + num::dec_nat(oversub as nat) + ", i32 0)"@,
    )
}

/// The pin lines of the pinned tasks among the first `k`.
pub open spec fn pin_lines(tasks: Seq<Task>, k: int) -> Seq<char>
    decreases k,
{
    if k <= 0 {
        Seq::empty()
    } else {
        pin_lines(tasks, k - 1) + if tasks[k - 1].pinned {
            line_text("call void @mapal_par_pin(ptr %h, i32 "@ + num::dec_nat((k - 1) as nat) + ")"@)
        } else {
            Seq::empty()
        }
    }
}

/// The dependency lines of task `after`, for its first `j` dependencies.
pub open spec fn deps_of(after: nat, deps: Seq<u32>, j: int) -> Seq<char>
    decreases j,
{
    if j <= 0 {
        Seq::empty()
    } else {
        deps_of(after, deps, j - 1) + line_text(
            "call void @mapal_par_dep(ptr %h, i32 "@ + num::dec_nat(deps[j - 1] as nat) + ", i32 "@
                + num::dec_nat(after) + ")"@,
        )
    }
}

/// The dependency lines of the first `k` tasks.
pub open spec fn dep_lines(tasks: Seq<Task>, k: int) -> Seq<char>
    decreases k,
{
    if k <= 0 {
        Seq::empty()
    } else {
        dep_lines(tasks, k - 1) + deps_of((k - 1) as nat, tasks[k - 1].deps@, tasks[k - 1].deps@.len() as int)
    }
}

impl<'a> FnEmit<'a> {
    /// How task `t` registers: an array task whose output nobody reads runs
    /// once; a packing site runs unsplit over its `n` rows; another split site
    /// splits across lanes; a sequence runs once per member (at least once).
    pub open spec fn task_kind_n(self, t: Task, packing: bool, sites: Option<Seq<Option<TileSite>>>) -> (
        u32,
        u64,
    ) {
        match t.kind {
            TaskKind::Split { site, n } => {
                let morphs = self.ir.morphisms@;
                if (site as int) < morphs.len() && (morphs[site as int].target as int)
                    < self.elided_arrays.len() && self.elided_arrays@[morphs[site as int].target as int] {
                    (0, 1)
                } else if packing && sites is Some && (site as int) < sites.unwrap().len()
                    && sites.unwrap()[site as int] is Some && is_packing_site(
                    sites.unwrap()[site as int].unwrap(),
                ) {
                    (0, n)
                } else {
                    (1, n)
                }
            },
            TaskKind::Sequence { morphisms } => (
                0,
                if morphisms.len() > 0 {
                    morphisms.len() as u64
                } else {
                    1
                },
            ),
        }
    }

    /// The registration lines of the first `k` tasks.
    pub open spec fn task_lines(
        self,
        tasks: Seq<Task>,
        packing: bool,
        sites: Option<Seq<Option<TileSite>>>,
        sizing: Seq<(u64, u32)>,
        k: int,
    ) -> Seq<char>
        decreases k,
    {
        if k <= 0 {
            Seq::empty()
        } else {
            let (kind, n) = self.task_kind_n(tasks[k - 1], packing, sites);
            self.task_lines(tasks, packing, sites, sizing, k - 1) + task_line(
                (k - 1) as nat,
                kind,
                n,
                tasks[k - 1].rank,
                sizing[k - 1].0,
                sizing[k - 1].1,
            )
        }
    }

    /// How `task` registers (see `task_kind_n`).
    fn task_registration(&self, task: &Task, packing: bool, tile_sites: Option<&Vec<Option<TileSite>>>) -> (r: (
        u32,
        u64,
    ))
        requires
            self.ir.wf(),
        ensures
            r == self.task_kind_n(
                *task,
                packing,
                match tile_sites {
                    Some(v) => Some(v@),
                    None => None,
                },
            ),
    {
        let ghost sites = match tile_sites {
            Some(v) => Some(v@),
            None => None,
        };
        match &task.kind {
            TaskKind::Split { site, n } => {
                let mut elided = false;
                if *site < self.ir.morphisms.len() {
                    let target = self.ir.morphisms[*site].target;
                    if target < self.elided_arrays.len() {
                        elided = self.elided_arrays[target];
                    }
                }
                if elided {
                    return (0, 1);
                }
                let mut packs = false;
                if packing {
                    if let Some(v) = tile_sites {
                        if *site < v.len() {
                            if let Some(tile) = &v[*site] {
                                packs = packing_site(tile);
                            }
                        }
                    }
                }
                if packs {
                    (0, *n)
                } else {
                    (1, *n)
                }
            },
            TaskKind::Sequence { morphisms } => (
                0,
                if morphisms.len() > 0 {
                    morphisms.len() as u64
                } else {
                    1
                },
            ),
        }
    }

    fn emit_task_line(&mut self, id: usize, kind: u32, n: u64, rank: u32, min_slice: u64, oversub: u32)
        ensures
            final(self).body@ == old(self).body@ + task_line(id as nat, kind, n, rank, min_slice, oversub),
            final(self).next == old(self).next,
            final(self).allocas == old(self).allocas,
            final(self).heap_used == old(self).heap_used,
            final(self).same_setup(*old(self)),
    {
        let mut s = String::from_str("call void @mapal_par_task(ptr %h, i32 ");
        s.append(num::u64_to_string(id as u64).as_str());
        s.append(", i32 ");
        s.append(num::u64_to_string(kind as u64).as_str());
        s.append(", ptr @task");
        s.append(num::u64_to_string(id as u64).as_str());
        s.append(", i64 ");
        s.append(num::u64_to_string(n).as_str());
        s.append(", i32 ");
        s.append(num::u64_to_string(rank as u64).as_str());
        s.append(", i64 ");
        s.append(num::u64_to_string(min_slice).as_str());
        s.append(", i32 ");
        s.append(num::u64_to_string(oversub as u64).as_str());
        s.append(", i32 0)");
        self.line(s.as_str());
        assert(line_text(s@) =~= task_line(id as nat, kind, n, rank, min_slice, oversub));
    }

    /// Hand the plan to the runtime: begin a run of `tasks.len()` tasks,
    /// register each (with its slice sizing from `sizing`), pin the pinned
    /// ones, declare every dependency, and launch over the frame.
    pub fn register_tasks(
        &mut self,
        tasks: &[Task],
        packing: bool,
        tile_sites: Option<&Vec<Option<TileSite>>>,
        sizing: &[(u64, u32)],
    )
        requires
            sizing.len() == tasks.len(),
            old(self).ir.wf(),
        ensures
            final(self).body@ == old(self).body@ + line_text(
                "%h = call ptr @mapal_par_begin(i32 "@ + num::dec_nat(tasks.len() as nat) + ")"@,
            ) + old(self).task_lines(
                tasks@,
                packing,
                match tile_sites {
                    Some(v) => Some(v@),
                    None => None,
                },
                sizing@,
                tasks.len() as int,
            ) + pin_lines(tasks@, tasks.len() as int) + dep_lines(tasks@, tasks.len() as int)
                + line_text("call void @mapal_par_launch(ptr %h, ptr %frame)"@),
            final(self).next == old(self).next,
            final(self).allocas == old(self).allocas,
            final(self).heap_used == old(self).heap_used,
            final(self).same_setup(*old(self)),
    {
        let ghost e = *old(self);
        let ghost sites = match tile_sites {
            Some(v) => Some(v@),
            None => None,
        };
        let mut begin = String::from_str("%h = call ptr @mapal_par_begin(i32 ");
        begin.append(num::u64_to_string(tasks.len() as u64).as_str());
        begin.append(")");
        self.line(begin.as_str());
        let ghost head = self.body@;
        let mut i: usize = 0;
        while i < tasks.len()
            invariant
                0 <= i <= tasks.len(),
                sizing.len() == tasks.len(),
                e.ir.wf(),
                sites == match tile_sites {
                    Some(v) => Some(v@),
                    None => None,
                },
                self.body@ == head + e.task_lines(tasks@, packing, sites, sizing@, i as int),
                self.next == e.next,
                self.allocas == e.allocas,
                self.heap_used == e.heap_used,
                self.same_setup(e),
            decreases tasks.len() - i,
        {
            let task = &tasks[i];
            let (kind, n) = self.task_registration(task, packing, tile_sites);
            assert(self.ir == e.ir && self.elided_arrays == e.elided_arrays);
            assert((kind, n) == e.task_kind_n(tasks@[i as int], packing, sites));
            let (min_slice, oversub) = sizing[i];
            let ghost before = self.body@;
            self.emit_task_line(i, kind, n, task.rank, min_slice, oversub);
            proof {
                vstd::seq_lib::lemma_concat_associative(
                    head,
                    e.task_lines(tasks@, packing, sites, sizing@, i as int),
                    task_line(i as nat, kind, n, tasks@[i as int].rank, sizing@[i as int].0, sizing@[i as int].1),
                );
            }
            assert(self.body@ == head + e.task_lines(tasks@, packing, sites, sizing@, i + 1));
            i += 1;
        }
        let ghost tasked = self.body@;
        let mut p: usize = 0;
        while p < tasks.len()
            invariant
                0 <= p <= tasks.len(),
                self.body@ == tasked + pin_lines(tasks@, p as int),
                self.next == e.next,
                self.allocas == e.allocas,
                self.heap_used == e.heap_used,
                self.same_setup(e),
            decreases tasks.len() - p,
        {
            if tasks[p].pinned {
                let mut s = String::from_str("call void @mapal_par_pin(ptr %h, i32 ");
                s.append(num::u64_to_string(p as u64).as_str());
                s.append(")");
                self.line(s.as_str());
                assert(s@ =~= "call void @mapal_par_pin(ptr %h, i32 "@ + num::dec_nat(p as nat)
                    + ")"@);
            }
            assert(self.body@ =~= tasked + pin_lines(tasks@, p + 1));
            p += 1;
        }
        let ghost pinned = self.body@;
        let mut after: usize = 0;
        while after < tasks.len()
            invariant
                0 <= after <= tasks.len(),
                self.body@ == pinned + dep_lines(tasks@, after as int),
                self.next == e.next,
                self.allocas == e.allocas,
                self.heap_used == e.heap_used,
                self.same_setup(e),
            decreases tasks.len() - after,
        {
            let deps = &tasks[after].deps;
            let ghost start = self.body@;
            let mut j: usize = 0;
            while j < deps.len()
                invariant
                    0 <= j <= deps.len(),
                    self.body@ == start + deps_of(after as nat, deps@, j as int),
                    self.next == e.next,
                    self.allocas == e.allocas,
                    self.heap_used == e.heap_used,
                    self.same_setup(e),
                decreases deps.len() - j,
            {
                let mut s = String::from_str("call void @mapal_par_dep(ptr %h, i32 ");
                s.append(num::u64_to_string(deps[j] as u64).as_str());
                s.append(", i32 ");
                s.append(num::u64_to_string(after as u64).as_str());
                s.append(")");
                self.line(s.as_str());
                assert(s@ =~= "call void @mapal_par_dep(ptr %h, i32 "@ + num::dec_nat(deps@[j as int] as nat)
                    + ", i32 "@ + num::dec_nat(after as nat) + ")"@);
                assert(self.body@ =~= start + deps_of(after as nat, deps@, j + 1));
                j += 1;
            }
            assert(self.body@ =~= pinned + dep_lines(tasks@, after + 1));
            after += 1;
        }
        self.line("call void @mapal_par_launch(ptr %h, ptr %frame)");
        assert(begin@ =~= "%h = call ptr @mapal_par_begin(i32 "@ + num::dec_nat(tasks.len() as nat) + ")"@);
    }
}

/// A checkpoint's wait and check lines.
pub open spec fn checkpoint_lines(c: CheckpointEmit) -> Seq<char> {
    line_text(
        "call void @mapal_par_wait(ptr %h, ptr @ckpt"@ + num::dec_nat(c.ordinal as nat)
            + "_entries, i32 "@ + num::dec_nat(c.len as nat) + ")"@,
    ) + line_text("call void @mapal_par_check(ptr %h, i64 "@ + num::dec_nat(c.topo as nat) + ")"@)
}

/// A pinned task's wait, check and in-place run.
pub open spec fn pin_wait_lines(p: PinnedEmit) -> Seq<char> {
    line_text(
        "call void @mapal_par_wait(ptr %h, ptr @pin"@ + num::dec_nat(p.task as nat)
            + "_entries, i32 "@ + num::dec_nat(p.len as nat) + ")"@,
    ) + line_text("call void @mapal_par_check(ptr %h, i64 "@ + num::dec_nat(p.topo as nat) + ")"@)
        + line_text("call void @mapal_par_run_pinned(ptr %h, i32 "@ + num::dec_nat(p.task as nat) + ")"@)
}

/// The wait and check lines of the first `k` checkpoints.
pub open spec fn checkpoints_lines(cs: Seq<CheckpointEmit>, k: int) -> Seq<char>
    decreases k,
{
    if k <= 0 {
        Seq::empty()
    } else {
        checkpoints_lines(cs, k - 1) + checkpoint_lines(cs[k - 1])
    }
}

impl<'a> FnEmit<'a> {
    /// What the host injects before morphism `m` for the checkpoint guarding it.
    pub open spec fn checkpoint_text(self, m: usize) -> Seq<char> {
        match self.host {
            Some(host) => if (m as int) < host.checkpoints.len() && host.checkpoints@[m as int] is Some {
                checkpoint_lines(host.checkpoints@[m as int].unwrap())
            } else {
                Seq::empty()
            },
            None => Seq::empty(),
        }
    }

    /// What the host injects before morphism `m` for a pinned task starting there.
    pub open spec fn pin_text(self, m: usize) -> Seq<char> {
        match self.host {
            Some(host) => if (m as int) < host.pinned.len() && host.pinned@[m as int] is Some {
                pin_wait_lines(host.pinned@[m as int].unwrap())
            } else {
                Seq::empty()
            },
            None => Seq::empty(),
        }
    }

    /// What the host injects before entering the loop at `m` for the
    /// checkpoints inside it.
    pub open spec fn pre_loop_text(self, m: usize) -> Seq<char> {
        match self.host {
            Some(host) => if (m as int) < host.pre_loop.len() {
                checkpoints_lines(host.pre_loop@[m as int]@, host.pre_loop@[m as int].len() as int)
            } else {
                Seq::empty()
            },
            None => Seq::empty(),
        }
    }

    fn emit_checkpoint_lines(&mut self, c: &CheckpointEmit)
        ensures
            final(self).body@ == old(self).body@ + checkpoint_lines(*c),
            final(self).next == old(self).next,
            final(self).allocas == old(self).allocas,
            final(self).heap_used == old(self).heap_used,
            final(self).same_setup(*old(self)),
    {
        let mut w = String::from_str("call void @mapal_par_wait(ptr %h, ptr @ckpt");
        w.append(num::u64_to_string(c.ordinal as u64).as_str());
        w.append("_entries, i32 ");
        w.append(num::u64_to_string(c.len as u64).as_str());
        w.append(")");
        self.line(w.as_str());
        let mut k = String::from_str("call void @mapal_par_check(ptr %h, i64 ");
        k.append(num::u64_to_string(c.topo as u64).as_str());
        k.append(")");
        self.line(k.as_str());
        assert(self.body@ =~= old(self).body@ + checkpoint_lines(*c));
    }

    /// Before morphism `m`, wait for and check the tasks its checkpoint
    /// guards, when the host placed one there.
    pub fn emit_checkpoint(&mut self, m: usize)
        ensures
            final(self).body@ == old(self).body@ + old(self).checkpoint_text(m),
            final(self).next == old(self).next,
            final(self).allocas == old(self).allocas,
            final(self).heap_used == old(self).heap_used,
            final(self).same_setup(*old(self)),
    {
        let checkpoint = match &self.host {
            Some(host) => if m < host.checkpoints.len() {
                match &host.checkpoints[m] {
                    Some(c) => CheckpointEmit { ordinal: c.ordinal, topo: c.topo, len: c.len },
                    None => {
                        assert(self.body@ =~= old(self).body@ + old(self).checkpoint_text(m));
                        return ;
                    },
                }
            } else {
                assert(self.body@ =~= old(self).body@ + old(self).checkpoint_text(m));
                return ;
            },
            None => {
                assert(self.body@ =~= old(self).body@ + old(self).checkpoint_text(m));
                return ;
            },
        };
        self.emit_checkpoint_lines(&checkpoint);
    }

    /// Before morphism `m`, wait for the pinned task that starts there, check
    /// the run, and run the task in place.
    pub fn emit_pin_wait(&mut self, m: usize)
        ensures
            final(self).body@ == old(self).body@ + old(self).pin_text(m),
            final(self).next == old(self).next,
            final(self).allocas == old(self).allocas,
            final(self).heap_used == old(self).heap_used,
            final(self).same_setup(*old(self)),
    {
        let pin = match &self.host {
            Some(host) => if m < host.pinned.len() {
                match &host.pinned[m] {
                    Some(p) => PinnedEmit { task: p.task, topo: p.topo, len: p.len },
                    None => {
                        assert(self.body@ =~= old(self).body@ + old(self).pin_text(m));
                        return ;
                    },
                }
            } else {
                assert(self.body@ =~= old(self).body@ + old(self).pin_text(m));
                return ;
            },
            None => {
                assert(self.body@ =~= old(self).body@ + old(self).pin_text(m));
                return ;
            },
        };
        let mut w = String::from_str("call void @mapal_par_wait(ptr %h, ptr @pin");
        w.append(num::u64_to_string(pin.task as u64).as_str());
        w.append("_entries, i32 ");
        w.append(num::u64_to_string(pin.len as u64).as_str());
        w.append(")");
        self.line(w.as_str());
        let mut k = String::from_str("call void @mapal_par_check(ptr %h, i64 ");
        k.append(num::u64_to_string(pin.topo as u64).as_str());
        k.append(")");
        self.line(k.as_str());
        let mut r = String::from_str("call void @mapal_par_run_pinned(ptr %h, i32 ");
        r.append(num::u64_to_string(pin.task as u64).as_str());
        r.append(")");
        self.line(r.as_str());
        assert(self.body@ =~= old(self).body@ + pin_wait_lines(pin));
    }

    /// Before entering the loop at `m`, wait for and check every checkpoint
    /// inside it once.
    pub fn emit_pre_loop_checks(&mut self, m: usize)
        ensures
            final(self).body@ == old(self).body@ + old(self).pre_loop_text(m),
            final(self).next == old(self).next,
            final(self).allocas == old(self).allocas,
            final(self).heap_used == old(self).heap_used,
            final(self).same_setup(*old(self)),
    {
        let n = match &self.host {
            Some(host) => if m < host.pre_loop.len() {
                host.pre_loop[m].len()
            } else {
                0
            },
            None => 0,
        };
        let ghost cs: Seq<CheckpointEmit> = match old(self).host {
            Some(host) => if (m as int) < host.pre_loop.len() {
                host.pre_loop@[m as int]@
            } else {
                Seq::empty()
            },
            None => Seq::empty(),
        };
        assert(old(self).pre_loop_text(m) =~= checkpoints_lines(cs, cs.len() as int));
        let mut i: usize = 0;
        while i < n
            invariant
                0 <= i <= n,
                n == cs.len(),
                cs == match old(self).host {
                    Some(host) => if (m as int) < host.pre_loop.len() {
                        host.pre_loop@[m as int]@
                    } else {
                        Seq::empty()
                    },
                    None => Seq::empty(),
                },
                self.body@ == old(self).body@ + checkpoints_lines(cs, i as int),
                self.next == old(self).next,
                self.allocas == old(self).allocas,
                self.heap_used == old(self).heap_used,
                self.same_setup(*old(self)),
            decreases n - i,
        {
            let c = match &self.host {
                Some(host) => {
                    let c = &host.pre_loop[m][i];
                    CheckpointEmit { ordinal: c.ordinal, topo: c.topo, len: c.len }
                },
                None => {
                    assert(false);
                    return ;
                },
            };
            self.emit_checkpoint_lines(&c);
            assert(self.body@ =~= old(self).body@ + checkpoints_lines(cs, i + 1));
            i += 1;
        }
    }
}

/// Morphism `m` is marked in `members`.
pub open spec fn is_member(members: Seq<bool>, m: usize) -> bool {
    (m as int) < members.len() && members[m as int]
}

/// Morphism `m` reads or writes one of a loop's objects.
pub open spec fn touches(ir: CategoryIr, objects: Seq<bool>, m: usize) -> bool {
    is_member(objects, ir.morphisms@[m as int].source) || is_member(objects, ir.morphisms@[m as int].target)
}

/// The members of a loop: the morphisms of the walk that read or write one of
/// its objects, and the loop plan's own decide, advance and exit morphisms.
pub open spec fn in_loop(ir: CategoryIr, topo: Seq<usize>, objects: Seq<bool>, plan: Seq<usize>, m: usize) -> bool {
    (topo.contains(m) && touches(ir, objects, m)) || plan.contains(m)
}

/// A loop's members, by morphism id: `objects` marks the loop's objects (by
/// object id) and `plan` lists the morphisms its loop plan orders.
pub fn loop_members(ir: &CategoryIr, topo: &[usize], objects: &[bool], plan: &[usize]) -> (r: Vec<bool>)
    requires
        ir.wf(),
        forall|i: int| 0 <= i < topo@.len() ==> (#[trigger] topo@[i] as int) < ir.morphisms.len(),
    ensures
        r@.len() == ir.morphisms.len(),
        forall|m: usize| (m as int) < r@.len() ==> #[trigger] r@[m as int] == in_loop(*ir, topo@, objects@, plan@, m),
{
    let n = ir.morphisms.len();
    let mut r: Vec<bool> = Vec::new();
    while r.len() < n
        invariant
            r@.len() <= n,
            forall|m: int| 0 <= m < r@.len() ==> !#[trigger] r@[m],
        decreases n - r@.len(),
    {
        r.push(false);
    }
    let mut i: usize = 0;
    while i < topo.len()
        invariant
            ir.wf(),
            n == ir.morphisms.len(),
            forall|i: int| 0 <= i < topo@.len() ==> (#[trigger] topo@[i] as int) < ir.morphisms.len(),
            0 <= i <= topo.len(),
            r@.len() == n,
            forall|m: usize| (m as int) < n ==> #[trigger] r@[m as int] == (topo@.subrange(0, i as int).contains(m)
                && touches(*ir, objects@, m)),
        decreases topo.len() - i,
    {
        let m = topo[i];
        let morph = &ir.morphisms[m];
        let hit = (morph.source < objects.len() && objects[morph.source]) || (morph.target < objects.len()
            && objects[morph.target]);
        let ghost before = r@;
        if hit {
            r.set(m, true);
        }
        proof {
            assert forall|x: usize| (x as int) < n implies #[trigger] r@[x as int] == (topo@.subrange(0, i + 1).contains(x)
                && touches(*ir, objects@, x)) by {
                let pre = topo@.subrange(0, i as int);
                let post = topo@.subrange(0, i + 1);
                assert(post =~= pre.push(m));
                if pre.contains(x) {
                    let k = choose|k: int| 0 <= k < pre.len() && pre[k] == x;
                    assert(post[k] == x);
                }
                if post.contains(x) && x != m {
                    let k = choose|k: int| 0 <= k < post.len() && post[k] == x;
                    assert(pre[k] == x);
                }
                if x == m {
                    assert(post[i as int] == m);
                }
            }
        }
        i += 1;
    }
    assert(topo@.subrange(0, topo@.len() as int) =~= topo@);
    let mut j: usize = 0;
    while j < plan.len()
        invariant
            n == ir.morphisms.len(),
            0 <= j <= plan.len(),
            r@.len() == n,
            forall|m: usize| (m as int) < n ==> #[trigger] r@[m as int] == ((topo@.contains(m) && touches(
                *ir,
                objects@,
                m,
            )) || plan@.subrange(0, j as int).contains(m)),
        decreases plan.len() - j,
    {
        let m = plan[j];
        if m < n {
            r.set(m, true);
        }
        proof {
            assert forall|x: usize| (x as int) < n implies #[trigger] r@[x as int] == ((topo@.contains(x) && touches(
                *ir,
                objects@,
                x,
            )) || plan@.subrange(0, j + 1).contains(x)) by {
                let pre = plan@.subrange(0, j as int);
                let post = plan@.subrange(0, j + 1);
                assert(post =~= pre.push(m));
                if pre.contains(x) {
                    let k = choose|k: int| 0 <= k < pre.len() && pre[k] == x;
                    assert(post[k] == x);
                }
                if post.contains(x) && x != m {
                    let k = choose|k: int| 0 <= k < post.len() && post[k] == x;
                    assert(pre[k] == x);
                }
                if x == m {
                    assert(post[j as int] == m);
                }
            }
        }
        j += 1;
    }
    assert(plan@.subrange(0, plan@.len() as int) =~= plan@);
    r
}

/// Position `i` of the walk is one of the loop's `LoopEnter` morphisms.
pub open spec fn loop_enter_at(ir: CategoryIr, topo: Seq<usize>, members: Seq<bool>, i: int) -> bool {
    is_member(members, topo[i]) && ir.morphisms@[topo[i] as int].op is LoopEnter
}

/// The first of the loop's `LoopEnter` morphisms at or after position `i`.
pub open spec fn first_enter_from(ir: CategoryIr, topo: Seq<usize>, members: Seq<bool>, i: int) -> Option<usize>
    decreases topo.len() - i,
{
    if i < 0 || i >= topo.len() {
        None
    } else if loop_enter_at(ir, topo, members, i) {
        Some(topo[i])
    } else {
        first_enter_from(ir, topo, members, i + 1)
    }
}

/// Where a loop's inner checkpoints are hoisted: its first `LoopEnter` in the
/// walk's order, if it has one.
pub fn first_loop_enter(ir: &CategoryIr, topo: &[usize], members: &[bool]) -> (r: Option<usize>)
    requires
        forall|i: int| 0 <= i < topo@.len() ==> (#[trigger] topo@[i] as int) < ir.morphisms.len(),
    ensures
        r == first_enter_from(*ir, topo@, members@, 0),
{
    let mut i: usize = 0;
    while i < topo.len()
        invariant
            forall|i: int| 0 <= i < topo@.len() ==> (#[trigger] topo@[i] as int) < ir.morphisms.len(),
            0 <= i <= topo.len(),
            first_enter_from(*ir, topo@, members@, 0) == first_enter_from(*ir, topo@, members@, i as int),
        decreases topo.len() - i,
    {
        let m = topo[i];
        let member = m < members.len() && members[m];
        let enter = match ir.morphisms[m].op {
            Operation::LoopEnter => true,
            _ => false,
        };
        if member && enter {
            return Some(m);
        }
        i += 1;
    }
    None
}

/// The hoisted checks of a loop among the first `k` checkpoints: each live
/// checkpoint (numbered among the live ones) whose guarded morphism is a
/// member of the loop.
pub open spec fn loop_ckpts(cps: Seq<Checkpoint>, topo: Seq<usize>, members: Seq<bool>, k: int) -> Seq<CheckpointEmit>
    decreases k,
{
    if k <= 0 {
        Seq::empty()
    } else {
        let prev = loop_ckpts(cps, topo, members, k - 1);
        let c = cps[k - 1];
        if c.topo != u32::MAX && is_member(members, topo[c.topo as int]) {
            prev.push(CheckpointEmit { ordinal: live_count(cps, k - 1) as usize, topo: c.topo, len: c.wait@.len() as usize })
        } else {
            prev
        }
    }
}

proof fn lemma_live_count_le(cps: Seq<Checkpoint>, k: int)
    requires
        0 <= k,
    ensures
        live_count(cps, k) <= k,
    decreases k,
{
    if k > 0 {
        lemma_live_count_le(cps, k - 1);
    }
}

/// The checks hoisted before a loop is entered: every live checkpoint that
/// guards one of the loop's members, with its ordinal among the live ones.
pub fn loop_checkpoints(checkpoints: &[Checkpoint], topo: &[usize], members: &[bool]) -> (r: Vec<CheckpointEmit>)
    requires
        forall|i: int|
            0 <= i < checkpoints@.len() && (#[trigger] checkpoints@[i]).topo != u32::MAX ==> (checkpoints@[i].topo as int)
                < topo@.len(),
    ensures
        r@ == loop_ckpts(checkpoints@, topo@, members@, checkpoints@.len() as int),
{
    let mut r: Vec<CheckpointEmit> = Vec::new();
    let mut live: usize = 0;
    let mut i: usize = 0;
    while i < checkpoints.len()
        invariant
            forall|i: int|
                0 <= i < checkpoints@.len() && (#[trigger] checkpoints@[i]).topo != u32::MAX ==> (checkpoints@[i].topo as int)
                    < topo@.len(),
            0 <= i <= checkpoints.len(),
            live == live_count(checkpoints@, i as int),
            r@ == loop_ckpts(checkpoints@, topo@, members@, i as int),
        decreases checkpoints.len() - i,
    {
        proof {
            lemma_live_count_le(checkpoints@, i as int);
        }
        let c = &checkpoints[i];
        if c.topo != u32::MAX {
            let m = topo[c.topo as usize];
            if m < members.len() && members[m] {
                r.push(CheckpointEmit { ordinal: live, topo: c.topo, len: c.wait.len() });
            }
            live += 1;
        }
        i += 1;
    }
    r
}

/// One loop of the function: its objects (by object id) and the morphisms
/// its loop plan orders (decide, advance, exits).
pub struct LoopShape {
    pub objects: Vec<bool>,
    pub plan: Vec<usize>,
}

/// The members of loop `l`, by morphism id.
pub open spec fn loop_member_marks(ir: CategoryIr, topo: Seq<usize>, l: LoopShape) -> Seq<bool> {
    Seq::new(ir.morphisms.len() as nat, |m: int| in_loop(ir, topo, l.objects@, l.plan@, m as usize))
}

/// The hoisted checks after the first `k` loops, by morphism: each loop with
/// a `LoopEnter` appends, at its first one, the live checkpoints that guard
/// its members.
pub open spec fn pre_loop_of(ir: CategoryIr, topo: Seq<usize>, loops: Seq<LoopShape>, cps: Seq<Checkpoint>, k: int) -> Seq<Seq<CheckpointEmit>>
    decreases k,
{
    if k <= 0 {
        Seq::new(ir.morphisms.len() as nat, |m: int| Seq::<CheckpointEmit>::empty())
    } else {
        let prev = pre_loop_of(ir, topo, loops, cps, k - 1);
        let members = loop_member_marks(ir, topo, loops[k - 1]);
        match first_enter_from(ir, topo, members, 0) {
            Some(e) => prev.update(e as int, prev[e as int] + loop_ckpts(cps, topo, members, cps.len() as int)),
            None => prev,
        }
    }
}

proof fn lemma_pre_loop_len(ir: CategoryIr, topo: Seq<usize>, loops: Seq<LoopShape>, cps: Seq<Checkpoint>, k: int)
    requires
        forall|j: int| 0 <= j < topo.len() ==> (#[trigger] topo[j] as int) < ir.morphisms.len(),
    ensures
        pre_loop_of(ir, topo, loops, cps, k).len() == ir.morphisms.len(),
    decreases k,
{
    if k > 0 {
        lemma_pre_loop_len(ir, topo, loops, cps, k - 1);
        lemma_first_enter_in_topo(ir, topo, loop_member_marks(ir, topo, loops[k - 1]), 0);
    }
}

proof fn lemma_first_enter_in_topo(ir: CategoryIr, topo: Seq<usize>, members: Seq<bool>, i: int)
    requires
        forall|j: int| 0 <= j < topo.len() ==> (#[trigger] topo[j] as int) < ir.morphisms.len(),
    ensures
        first_enter_from(ir, topo, members, i) matches Some(e) ==> (e as int) < ir.morphisms.len(),
    decreases topo.len() - i,
{
    if 0 <= i < topo.len() && !loop_enter_at(ir, topo, members, i) {
        lemma_first_enter_in_topo(ir, topo, members, i + 1);
    }
}

fn concat_emits(a: &Vec<CheckpointEmit>, b: Vec<CheckpointEmit>) -> (r: Vec<CheckpointEmit>)
    ensures
        r@ == a@ + b@,
{
    let mut r: Vec<CheckpointEmit> = Vec::new();
    let mut i: usize = 0;
    while i < a.len()
        invariant
            0 <= i <= a.len(),
            r@ == a@.subrange(0, i as int),
        decreases a.len() - i,
    {
        let x = &a[i];
        r.push(CheckpointEmit { ordinal: x.ordinal, topo: x.topo, len: x.len });
        assert(r@ =~= a@.subrange(0, i + 1));
        i += 1;
    }
    let mut j: usize = 0;
    while j < b.len()
        invariant
            0 <= j <= b.len(),
            r@ == a@ + b@.subrange(0, j as int),
        decreases b.len() - j,
    {
        let x = &b[j];
        r.push(CheckpointEmit { ordinal: x.ordinal, topo: x.topo, len: x.len });
        assert(r@ =~= a@ + b@.subrange(0, j + 1));
        j += 1;
    }
    assert(b@.subrange(0, b@.len() as int) =~= b@);
    r
}

/// The pre-loop table of a parallel host: for every loop of the function
/// whose body holds a checkpoint, that checkpoint's wait and check hoisted to
/// the loop's first `LoopEnter`, in loop order and checkpoint order.
pub fn pre_loop_checks(ir: &CategoryIr, topo: &[usize], loops: &[LoopShape], checkpoints: &[Checkpoint]) -> (r: Vec<Vec<CheckpointEmit>>)
    requires
        ir.wf(),
        forall|i: int| 0 <= i < topo@.len() ==> (#[trigger] topo@[i] as int) < ir.morphisms.len(),
        forall|i: int|
            0 <= i < checkpoints@.len() && (#[trigger] checkpoints@[i]).topo != u32::MAX ==> (checkpoints@[i].topo as int)
                < topo@.len(),
    ensures
        r@.len() == ir.morphisms.len(),
        forall|m: int| 0 <= m < r@.len() ==> (#[trigger] r@[m])@ == pre_loop_of(*ir, topo@, loops@, checkpoints@, loops@.len() as int)[m],
{
    let n = ir.morphisms.len();
    let mut r: Vec<Vec<CheckpointEmit>> = Vec::new();
    while r.len() < n
        invariant
            r@.len() <= n,
            forall|m: int| 0 <= m < r@.len() ==> (#[trigger] r@[m])@ == Seq::<CheckpointEmit>::empty(),
        decreases n - r@.len(),
    {
        r.push(Vec::new());
    }
    let mut l: usize = 0;
    while l < loops.len()
        invariant
            ir.wf(),
            n == ir.morphisms.len(),
            forall|i: int| 0 <= i < topo@.len() ==> (#[trigger] topo@[i] as int) < ir.morphisms.len(),
            forall|i: int|
                0 <= i < checkpoints@.len() && (#[trigger] checkpoints@[i]).topo != u32::MAX ==> (
                checkpoints@[i].topo as int) < topo@.len(),
            0 <= l <= loops.len(),
            r@.len() == n,
            forall|m: int| 0 <= m < n ==> (#[trigger] r@[m])@ == pre_loop_of(*ir, topo@, loops@, checkpoints@, l as int)[m],
        decreases loops.len() - l,
    {
        let shape = &loops[l];
        let members = loop_members(ir, topo, shape.objects.as_slice(), shape.plan.as_slice());
        assert(members@ =~= loop_member_marks(*ir, topo@, loops@[l as int]));
        let first = first_loop_enter(ir, topo, members.as_slice());
        proof {
            lemma_first_enter_in_topo(*ir, topo@, members@, 0);
        }
        match first {
            Some(e) => {
                let hoisted = loop_checkpoints(checkpoints, topo, members.as_slice());
                let ghost before = r@;
                let list = concat_emits(&r[e], hoisted);
                r.set(e, list);
                proof {
                    lemma_pre_loop_len(*ir, topo@, loops@, checkpoints@, l as int);
                    let prev = pre_loop_of(*ir, topo@, loops@, checkpoints@, l as int);
                    let mem = loop_member_marks(*ir, topo@, loops@[l as int]);
                    assert(pre_loop_of(*ir, topo@, loops@, checkpoints@, l + 1) == prev.update(
                        e as int,
                        prev[e as int] + loop_ckpts(checkpoints@, topo@, mem, checkpoints@.len() as int),
                    ));
                    assert(r@[e as int]@ == prev[e as int] + loop_ckpts(checkpoints@, topo@, mem, checkpoints@.len() as int));
                    assert forall|m: int| 0 <= m < n implies (#[trigger] r@[m])@ == pre_loop_of(
                        *ir,
                        topo@,
                        loops@,
                        checkpoints@,
                        l + 1,
                    )[m] by {
                        if m != e as int {
                            assert(r@[m] == before[m]);
                        }
                    }
                }
            },
            None => {},
        }
        l += 1;
    }
    r
}

} // verus!
