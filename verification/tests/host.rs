use lib::emit::EmitPlan;
use lib::emit::{FnEmit, GuardFlavor};
use lib::frame::WaitEntry;
use lib::host::{assigned_morphisms, host_wait_tables, pinned_sites, Checkpoint, Task, TaskKind};
use lib::ir::{CategoryIr, FuncDef, Morphism, Object, ObjectKind, Operation, Ty, Value};
use lib::site::{TileRead, TileSite};

fn tasks() -> Vec<Task> {
    vec![
        Task { kind: TaskKind::Split { site: 0, n: 100 }, pinned: false, deps: vec![], rank: 2 },
        Task { kind: TaskKind::Sequence { morphisms: vec![1, 2] }, pinned: true, deps: vec![0], rank: 0 },
        Task { kind: TaskKind::Sequence { morphisms: vec![] }, pinned: false, deps: vec![0, 1], rank: 1 },
    ]
}

fn ir() -> CategoryIr {
    let obj = || Object { ty: Ty::Int { bits: 32, signed: true }, kind: ObjectKind::Temporary, value: None, owner: Some(0) };
    CategoryIr {
        objects: vec![obj(), obj(), obj()],
        morphisms: vec![
            Morphism { op: Operation::MapEach { body: 1, captures: 0 }, source: 0, target: 1 },
            Morphism { op: Operation::Output, source: 1, target: 2 },
            Morphism { op: Operation::Output, source: 2, target: 2 },
            Morphism { op: Operation::Output, source: 0, target: 0 },
        ],
        funcs: vec![FuncDef { morphisms: vec![0, 1, 2, 3], proven: vec![], topo: vec![3, 0, 2, 1] }],
        in_edges: vec![vec![3], vec![0], vec![1, 2]],
        out_edges: vec![vec![0, 3], vec![1], vec![2]],
    }
}

fn emitter(ir: &CategoryIr) -> FnEmit<'_> {
    let n = ir.objects.len();
    FnEmit {
        ir,
        f: 0,
        slots: vec![None; n],
        frame: None,
        frame_geps: String::new(),
        runtime_write: false,
        allocas: String::new(),
        body: String::new(),
        next: 0,
        guard_flavor: GuardFlavor::Host,
        split_range: false,
        perf_timing: false,
        move_panel: None,
        heap_min_bytes: 256 * 1024,
        heap_ok: true,
        heap_used: false,
        elem: ir.objects.iter().map(|_| None).collect(),
        elided_arrays: vec![false; n],
        elided_updates: vec![false; n],
        update_aliases: vec![None; n],
        host: None,
        plan: EmitPlan { gated: Vec::new(), guard_sites: Vec::new(), tile_plan: None, packing: false, contract: false, kc_nest: false },
    }
}

#[test]
fn tasks_take_over_their_members() {
    assert_eq!(assigned_morphisms(&tasks(), 4), vec![true, true, true, false]);
    assert_eq!(assigned_morphisms(&[], 2), vec![false, false]);
}

#[test]
fn pinned_tasks_wait_at_their_first_member() {
    let pins = pinned_sites(&tasks(), &[3, 0, 2, 1], 4);
    let view: Vec<Option<(usize, u32, usize)>> = pins.iter().map(|p| p.as_ref().map(|p| (p.task, p.topo, p.len))).collect();
    assert_eq!(view, vec![None, Some((1, 3, 1)), None, None]);
}

#[test]
fn wait_tables_for_live_checkpoints_and_pins() {
    let checkpoints = vec![
        Checkpoint { topo: u32::MAX, wait: vec![WaitEntry { task: 7, threshold: None }] },
        Checkpoint { topo: 2, wait: vec![WaitEntry { task: 0, threshold: Some(5) }] },
    ];
    assert_eq!(
        host_wait_tables(&checkpoints, &tasks()),
        [
            "@ckpt0_entries = private unnamed_addr constant [1 x i64] [i64 5]\n",
            "@pin1_entries = private unnamed_addr constant [1 x i64] [i64 4294967295]\n",
            "\n",
        ]
        .concat()
    );
    assert_eq!(host_wait_tables(&checkpoints[..1], &tasks()[..1]), "");
}

#[test]
fn registration_lines() {
    let ir = ir();
    let mut e = emitter(&ir);
    e.register_tasks(&tasks(), false, None, &[(64, 4), (0, 0), (0, 0)]);
    let expected = [
        "  %h = call ptr @mapal_par_begin(i32 3)\n",
        "  call void @mapal_par_task(ptr %h, i32 0, i32 1, ptr @task0, i64 100, i32 2, i64 64, i32 4, i32 0)\n",
        "  call void @mapal_par_task(ptr %h, i32 1, i32 0, ptr @task1, i64 2, i32 0, i64 0, i32 0, i32 0)\n",
        "  call void @mapal_par_task(ptr %h, i32 2, i32 0, ptr @task2, i64 1, i32 1, i64 0, i32 0, i32 0)\n",
        "  call void @mapal_par_pin(ptr %h, i32 1)\n",
        "  call void @mapal_par_dep(ptr %h, i32 0, i32 1)\n",
        "  call void @mapal_par_dep(ptr %h, i32 0, i32 2)\n",
        "  call void @mapal_par_dep(ptr %h, i32 1, i32 2)\n",
        "  call void @mapal_par_launch(ptr %h, ptr %frame)\n",
    ]
    .concat();
    assert_eq!(e.body, expected);
}

#[test]
fn unread_and_packing_splits_run_unsplit() {
    let ir = ir();
    let split = vec![Task { kind: TaskKind::Split { site: 0, n: 100 }, pinned: false, deps: vec![], rank: 0 }];
    let read = |ci| TileRead { slot: 0, base: 0, ci, ck: 1, clane: 0, ksplit: None };
    let site = TileSite { rows: 4, c: 8, k: 8, elem: Ty::Float { bits: 32 }, a: read(1), b: read(0), seed: Value::F32(0), mul_a_first: true, add_acc_first: true };
    let sites = vec![Some(site), None, None, None];
    let mut e = emitter(&ir);
    e.register_tasks(&split, true, Some(&sites), &[(0, 0)]);
    assert!(e.body.contains("i32 0, i32 0, ptr @task0, i64 100,"));
    let mut e = emitter(&ir);
    e.elided_arrays[1] = true;
    e.register_tasks(&split, true, Some(&sites), &[(0, 0)]);
    assert!(e.body.contains("i32 0, i32 0, ptr @task0, i64 1,"));
}
