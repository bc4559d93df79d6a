use lib::emit::EmitPlan;
use lib::emit::{FnEmit, GuardFlavor};
use lib::host::TaskKind;
use lib::ir::{CategoryIr, FuncDef, Morphism, Object, ObjectKind, Operation, Ty, Value};
use lib::site::{TileRead, TileSite};
use lib::task::{packed_split, task_definition, task_members, task_watermark};

fn emitter(ir: &CategoryIr) -> FnEmit<'_> {
    FnEmit {
        ir,
        f: 0,
        slots: Vec::new(),
        frame: None,
        frame_geps: String::new(),
        runtime_write: false,
        allocas: String::new(),
        body: String::new(),
        next: 0,
        guard_flavor: GuardFlavor::Task,
        split_range: false,
        perf_timing: false,
        move_panel: None,
        heap_min_bytes: 256 * 1024,
        heap_ok: false,
        heap_used: false,
        elem: Vec::new(),
        elided_arrays: Vec::new(),
        elided_updates: Vec::new(),
        update_aliases: Vec::new(),
        host: None,
        plan: EmitPlan { gated: Vec::new(), guard_sites: Vec::new(), tile_plan: None, packing: false, contract: false, kc_nest: false },
    }
}

fn ir_of(ops: Vec<Operation>) -> CategoryIr {
    let obj = || Object { ty: Ty::Int { bits: 64, signed: true }, kind: ObjectKind::Temporary, value: None, owner: Some(0) };
    let n = ops.len();
    CategoryIr {
        objects: vec![obj(), obj()],
        morphisms: ops.into_iter().map(|op| Morphism { op, source: 0, target: 1 }).collect(),
        funcs: vec![FuncDef { morphisms: (0..n).collect(), proven: Vec::new(), topo: (0..n).collect() }],
        in_edges: vec![Vec::new(), (0..n).collect()],
        out_edges: vec![(0..n).collect(), Vec::new()],
    }
}

#[test]
fn task_definition_wraps_the_entry_block() {
    let text = task_definition(3, "_slice", "  %s0 = alloca i64\n", "  %f = gep\n", "  ret void\n");
    assert_eq!(
        text,
        "define internal void @task3_slice(i64 %lo, i64 %hi, ptr %frame) {\nentry:\n  %s0 = alloca i64\n  %f = gep\n  ret void\n}\n"
    );
}

#[test]
fn task_members_are_the_site_or_the_sequence() {
    assert_eq!(task_members(&TaskKind::Split { site: 4, n: 100 }), vec![4]);
    assert_eq!(task_members(&TaskKind::Sequence { morphisms: vec![1, 2] }), vec![1, 2]);
}

#[test]
fn watermark_only_for_sequences_without_folds_or_loops() {
    let ir = ir_of(vec![Operation::Add, Operation::Fold { body: 0, captures: 0 }, Operation::LoopEnter, Operation::Mul]);
    assert!(task_watermark(&ir, &TaskKind::Sequence { morphisms: vec![0, 3] }));
    assert!(!task_watermark(&ir, &TaskKind::Sequence { morphisms: vec![0, 1] }));
    assert!(!task_watermark(&ir, &TaskKind::Sequence { morphisms: vec![2] }));
    assert!(!task_watermark(&ir, &TaskKind::Split { site: 0, n: 8 }));
}

fn tile_site(b_ci: u64) -> TileSite {
    let read = |ci, ck, clane| TileRead { slot: 0, base: 0, ci, ck, clane, ksplit: None };
    TileSite {
        rows: 4,
        c: 8,
        k: 8,
        elem: Ty::Float { bits: 32 },
        a: read(8, 1, 0),
        b: read(b_ci, 8, 1),
        seed: Value::F32(0),
        mul_a_first: true,
        add_acc_first: true,
    }
}

#[test]
fn packed_split_needs_a_packing_tiled_site_and_packing_on() {
    let sites = vec![Some(tile_site(0)), Some(tile_site(8)), None];
    let split = |site| TaskKind::Split { site, n: 32 };
    assert_eq!(packed_split(&split(0), true, Some(&sites)), Some((0, 32)));
    assert_eq!(packed_split(&split(0), false, Some(&sites)), None);
    assert_eq!(packed_split(&split(1), true, Some(&sites)), None);
    assert_eq!(packed_split(&split(2), true, Some(&sites)), None);
    assert_eq!(packed_split(&split(0), true, None), None);
    assert_eq!(packed_split(&TaskKind::Sequence { morphisms: vec![0] }, true, Some(&sites)), None);
}

#[test]
fn packed_task_wrapper_runs_the_pack_then_the_slices() {
    let ir = ir_of(Vec::new());
    let mut e = emitter(&ir);
    e.emit_packed_task_wrapper(2, 5, 16, 4096, 512, 4);
    let expected = [
        "  %t0 = call ptr @mapal_par_begin(i32 1)\n",
        "  call void @mapal_par_task(ptr %t0, i32 0, i32 1, ptr @task2_pack, i64 16, i32 5, i64 1, i32 4, i32 0)\n",
        "  call void @mapal_par_launch(ptr %t0, ptr %frame)\n",
        "  call void @mapal_par_finish(ptr %t0)\n",
        "  %t1 = call ptr @mapal_par_begin(i32 1)\n",
        "  call void @mapal_par_task(ptr %t1, i32 0, i32 1, ptr @task2_slice, i64 4096, i32 5, i64 512, i32 4, i32 0)\n",
        "  call void @mapal_par_launch(ptr %t1, ptr %frame)\n",
        "  call void @mapal_par_finish(ptr %t1)\n",
        "  ret void\n",
    ]
    .concat();
    assert_eq!(e.body, expected);
}
