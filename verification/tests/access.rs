use lib::emit::EmitPlan;
use lib::emit::{FnEmit, GuardFlavor};
use lib::ir::{CategoryIr, FuncDef, Morphism, Object, ObjectKind, Operation, Ty};

fn int_ty(bits: u32, signed: bool) -> Ty {
    Ty::Int { bits, signed }
}

/// Object 3 is the destination (slot `%x`); morphism 2 is proven in bounds.
fn ir() -> CategoryIr {
    let obj = |ty| Object { ty, kind: ObjectKind::Temporary, value: None, owner: Some(0) };
    CategoryIr {
        objects: vec![obj(int_ty(32, true)), obj(int_ty(64, true)), obj(int_ty(32, true)), obj(int_ty(32, true))],
        morphisms: vec![
            Morphism { op: Operation::Output, source: 0, target: 1 },
            Morphism { op: Operation::Index, source: 2, target: 3 },
            Morphism { op: Operation::Index, source: 2, target: 3 },
        ],
        funcs: vec![FuncDef { morphisms: vec![0, 1, 2], proven: vec![2], topo: vec![0, 2, 1] }],
        in_edges: vec![vec![], vec![0], vec![], vec![1, 2]],
        out_edges: vec![vec![0], vec![], vec![1, 2], vec![]],
    }
}

fn emitter(ir: &CategoryIr) -> FnEmit<'_> {
    let mut slots = vec![None; ir.objects.len()];
    slots[3] = Some("%x".to_string());
    FnEmit {
        ir,
        f: 0,
        slots,
        frame: None,
        frame_geps: String::new(),
        runtime_write: false,
        allocas: String::new(),
        body: String::new(),
        next: 0,
        guard_flavor: GuardFlavor::Host,
        split_range: false,
        perf_timing: false,
        move_panel: None,
        heap_min_bytes: 256 * 1024,
        heap_ok: false,
        heap_used: false,
        elem: ir.objects.iter().map(|_| None).collect(),
        elided_arrays: vec![false; ir.objects.len()],
        elided_updates: vec![false; ir.objects.len()],
        update_aliases: vec![None; ir.objects.len()],
        host: None,
        plan: EmitPlan { gated: Vec::new(), guard_sites: Vec::new(), tile_plan: None, packing: false, contract: false, kc_nest: false },
    }
}

#[test]
fn index_widening() {
    let ir = ir();
    let mut e = emitter(&ir);
    assert_eq!(e.load_index("i64", "%i", &int_ty(64, true)), "%i");
    assert_eq!(e.body, "");
    assert_eq!(e.load_index("i32", "%i", &int_ty(32, true)), "%t0");
    assert_eq!(e.load_index("i8", "%j", &int_ty(8, false)), "%t1");
    assert_eq!(e.body, "  %t0 = sext i32 %i to i64\n  %t1 = zext i8 %j to i64\n");
}

#[test]
fn proven_index_reads_without_a_guard() {
    let ir = ir();
    let mut e = emitter(&ir);
    e.emit_index(2, 3, "[4 x i32]", "i32", 4, "%arr", "%i");
    assert_eq!(
        e.body,
        "  %t0 = getelementptr [4 x i32], ptr %arr, i64 0, i64 %i\n  %t1 = load i32, ptr %t0\n  store i32 %t1, ptr %x\n"
    );
    assert_eq!(e.next, 2);
}

#[test]
fn host_index_traps_out_of_bounds() {
    let ir = ir();
    let mut e = emitter(&ir);
    e.emit_index(1, 3, "[4 x i32]", "i32", 4, "%arr", "%i");
    let expected = [
        "  %t0 = icmp slt i64 %i, 0\n",
        "  %t1 = icmp sge i64 %i, 4\n",
        "  %t2 = or i1 %t0, %t1\n",
        "  br i1 %t2, label %bb3, label %bb4\n",
        "bb3:\n",
        "  call void @mapal_trap(i32 1)\n",
        "  unreachable\n",
        "bb4:\n",
        "  %t5 = getelementptr [4 x i32], ptr %arr, i64 0, i64 %i\n",
        "  %t6 = load i32, ptr %t5\n",
        "  store i32 %t6, ptr %x\n",
    ]
    .concat();
    assert_eq!(e.body, expected);
    assert_eq!(e.next, 7);
    assert!(!e.runtime_write);
}

#[test]
fn task_index_records_and_reads_zero() {
    let ir = ir();
    let mut e = emitter(&ir);
    e.guard_flavor = GuardFlavor::Task;
    e.emit_index(1, 3, "[4 x i32]", "i32", 4, "%arr", "%i");
    let expected = [
        "  %t0 = icmp slt i64 %i, 0\n",
        "  %t1 = icmp sge i64 %i, 4\n",
        "  %t2 = or i1 %t0, %t1\n",
        "  br i1 %t2, label %bb3, label %bb4\n",
        "bb3:\n",
        "  call void @mapal_par_trap(i64 2, i32 1)\n",
        "  br label %bb5\n",
        "bb4:\n",
        "  %t6 = getelementptr [4 x i32], ptr %arr, i64 0, i64 %i\n",
        "  %t7 = load i32, ptr %t6\n",
        "  br label %bb5\n",
        "bb5:\n",
        "  %t8 = phi i32 [zeroinitializer, %bb3], [%t7, %bb4]\n",
        "  store i32 %t8, ptr %x\n",
    ]
    .concat();
    assert_eq!(e.body, expected);
    assert_eq!(e.next, 9);
    assert!(e.runtime_write);
}

#[test]
fn iota_loop() {
    let ir = ir();
    let mut e = emitter(&ir);
    e.emit_iota(3, "[8 x i32]", 8);
    assert_eq!(e.allocas, "  %s0 = alloca i64\n");
    let expected = [
        "  store i64 0, ptr %s0\n",
        "  br label %bb1\n",
        "bb1:\n",
        "  %t4 = load i64, ptr %s0\n",
        "  %t5 = icmp uge i64 %t4, 8\n",
        "  br i1 %t5, label %bb3, label %bb2\n",
        "bb2:\n",
        "  %t6 = trunc i64 %t4 to i32\n",
        "  %t7 = getelementptr [8 x i32], ptr %x, i64 0, i64 %t4\n",
        "  store i32 %t6, ptr %t7\n",
        "  %t8 = add i64 %t4, 1\n",
        "  store i64 %t8, ptr %s0\n",
        "  br label %bb1\n",
        "bb3:\n",
    ]
    .concat();
    assert_eq!(e.body, expected);
    assert_eq!(e.next, 9);
}

#[test]
fn fill_loop_over_a_task_slice() {
    let ir = ir();
    let mut e = emitter(&ir);
    e.split_range = true;
    e.emit_fill(3, "[8 x double]", 8, "double", "%v");
    let expected = [
        "  store i64 %lo, ptr %s0\n",
        "  br label %bb1\n",
        "bb1:\n",
        "  %t4 = load i64, ptr %s0\n",
        "  %t5 = icmp uge i64 %t4, %hi\n",
        "  br i1 %t5, label %bb3, label %bb2\n",
        "bb2:\n",
        "  %t6 = getelementptr [8 x double], ptr %x, i64 0, i64 %t4\n",
        "  store double %v, ptr %t6\n",
        "  %t7 = add i64 %t4, 1\n",
        "  store i64 %t7, ptr %s0\n",
        "  br label %bb1\n",
        "bb3:\n",
    ]
    .concat();
    assert_eq!(e.body, expected);
    assert_eq!(e.next, 8);
}
