use lib::emit::EmitPlan;
use lib::emit::{tile_vec_llt, FnEmit, GuardFlavor, TileCtx};
use lib::frame::{FrameField, FrameLayout};
use lib::ir::{CategoryIr, FuncDef, Morphism, Object, ObjectKind, Operation, Ty, Value};
use lib::site::{TileRead, TileSite};

fn empty_ir() -> CategoryIr {
    CategoryIr { objects: Vec::new(), morphisms: Vec::new(), funcs: Vec::new(), in_edges: Vec::new(), out_edges: Vec::new() }
}

fn emitter(ir: &CategoryIr) -> FnEmit<'_> {
    FnEmit {
        ir,
        f: 0,
        slots: vec![None; ir.objects.len()],
        frame: None,
        frame_geps: String::new(),
        runtime_write: false,
        allocas: String::new(),
        body: String::new(),
        next: 0,
        guard_flavor: GuardFlavor::Host,
        split_range: false,
        perf_timing: false,
        move_panel: None,
        heap_min_bytes: 256 * 1024,
        heap_ok: false,
        heap_used: false,
        elem: ir.objects.iter().map(|_| None).collect(),
        elided_arrays: vec![false; ir.objects.len()],
        elided_updates: vec![false; ir.objects.len()],
        update_aliases: vec![None; ir.objects.len()],
        host: None,
        plan: EmitPlan { gated: Vec::new(), guard_sites: Vec::new(), tile_plan: None, packing: false, contract: false, kc_nest: false },
    }
}

#[test]
fn ordinals_are_shared_by_temporaries_labels_and_scratch() {
    let ir = empty_ir();
    let mut e = emitter(&ir);
    assert_eq!(e.tmp(), "%t0");
    assert_eq!(e.label(), "bb1");
    assert_eq!(e.scratch("i64"), "%s2");
    assert_eq!(e.fresh(), 3);
    assert_eq!(e.next, 4);
    assert_eq!(e.allocas, "  %s2 = alloca i64\n");
}

#[test]
fn lines_and_labels() {
    let ir = empty_ir();
    let mut e = emitter(&ir);
    e.label_line("bb7");
    e.line("ret void");
    assert_eq!(e.body, "bb7:\n  ret void\n");
}

#[test]
fn small_blocks_stay_on_the_stack() {
    let ir = empty_ir();
    let mut e = emitter(&ir);
    e.heap_ok = true;
    e.entry_alloc("%a", "[4 x i32]", None);
    e.entry_alloc("%b", "[4 x i32]", Some(64));
    assert_eq!(e.allocas, "  %a = alloca [4 x i32]\n  %b = alloca [4 x i32], align 64\n");
    assert!(!e.heap_used);
    e.heap_teardown();
    assert_eq!(e.body, "");
}

#[test]
fn large_blocks_go_to_the_arena_only_when_allowed() {
    let ir = empty_ir();
    let mut e = emitter(&ir);
    e.entry_alloc("%a", "[65536 x float]", None);
    assert_eq!(e.allocas, "  %a = alloca [65536 x float]\n");
    assert!(!e.heap_used);
    e.heap_ok = true;
    e.entry_alloc("%b", "[65536 x float]", None);
    e.entry_alloc("%c", "[65536 x double]", Some(64));
    assert!(e.allocas.ends_with(
        "  %b = call ptr @mapal_rt_alloc(i64 262144, i64 4)\n  %c = call ptr @mapal_rt_alloc(i64 524288, i64 64)\n"
    ));
    assert!(e.heap_used);
    e.heap_teardown();
    assert_eq!(e.body, "  call void @mapal_rt_free_all()\n");
}

#[test]
fn heap_block_threshold() {
    let ir = empty_ir();
    let mut e = emitter(&ir);
    e.heap_ok = true;
    e.heap_min_bytes = 100;
    assert!(!e.heap_block(99));
    assert!(!e.heap_used);
    assert!(e.heap_block(100));
    assert!(e.heap_used);
}

#[test]
fn memcpy_skips_an_identity() {
    let ir = empty_ir();
    let mut e = emitter(&ir);
    e.emit_memcpy("%o1", "%o1", "[4 x i32]");
    assert_eq!(e.body, "");
    e.emit_memcpy("%o2", "%o1", "[4 x i32]");
    assert_eq!(
        e.body,
        "  call void @llvm.memcpy.p0.p0.i64(ptr %o2, ptr %o1, i64 ptrtoint (ptr getelementptr ([4 x i32], ptr null, i64 1) to i64), i1 false)\n"
    );
}

#[test]
fn trap_guard() {
    let ir = empty_ir();
    let mut e = emitter(&ir);
    e.next = 5;
    e.trap_if("%c", 1);
    assert_eq!(
        e.body,
        "  br i1 %c, label %bb5, label %bb6\nbb5:\n  call void @mapal_trap(i32 1)\n  unreachable\nbb6:\n"
    );
    assert_eq!(e.next, 7);
}

#[test]
fn bulk_bounds_follow_the_split() {
    let ir = empty_ir();
    let mut e = emitter(&ir);
    assert_eq!(e.bulk_bounds(42), ("0".to_string(), "42".to_string()));
    e.split_range = true;
    assert_eq!(e.bulk_bounds(42), ("%lo".to_string(), "%hi".to_string()));
}

#[test]
fn accumulator_lane_offsets() {
    let ir = empty_ir();
    let mut e = emitter(&ir);
    assert_eq!(e.emit_acc_lane("%l", None, 0, 8), "%l");
    assert_eq!(e.body, "");
    assert_eq!(e.emit_acc_lane("%l", None, 3, 8), "%t0");
    assert_eq!(e.emit_acc_lane("%l", Some("%b"), 0, 8), "%t1");
    assert_eq!(e.emit_acc_lane("%l", Some("%b"), 2, 8), "%t3");
    assert_eq!(
        e.body,
        "  %t0 = add i64 %l, 24\n  %t1 = add i64 %l, %b\n  %t2 = add i64 %b, 16\n  %t3 = add i64 %l, %t2\n"
    );
}

fn site(rows: u64, c: u64) -> TileSite {
    let read = |slot| TileRead { slot, base: 0, ci: 0, ck: 1, clane: 0, ksplit: None };
    TileSite {
        rows,
        c,
        k: 4,
        elem: Ty::Float { bits: 32 },
        a: read(0),
        b: read(1),
        seed: Value::F32(0),
        mul_a_first: true,
        add_acc_first: true,
    }
}

#[test]
fn row_window_clips_signed() {
    let ir = empty_ir();
    let mut e = emitter(&ir);
    let (lo, hi) = e.emit_row_window(&site(4, 10), "%lo", "%hi", "%r");
    assert_eq!((lo.as_str(), hi.as_str()), ("%t2", "%t5"));
    assert_eq!(
        e.body,
        "  %t0 = sub i64 %lo, %r\n  %t1 = icmp slt i64 %t0, 0\n  %t2 = select i1 %t1, i64 0, i64 %t0\n  %t3 = sub i64 %hi, %r\n  %t4 = icmp sgt i64 %t3, 10\n  %t5 = select i1 %t4, i64 10, i64 %t3\n"
    );
}

#[test]
fn move_panel_declines_shapes_it_cannot_tile() {
    let ir = empty_ir();
    let mut e = emitter(&ir);
    assert_eq!(e.move_panel_index("%i", 64), "%i");
    for (w, b, n) in [(0, 2, 64), (8, 0, 64), (8, 2, 60), (8, 3, 64), (8, 2, 8), (8, 4, 24)] {
        e.move_panel = Some((w, b));
        assert_eq!(e.move_panel_index("%i", n), "%i");
    }
    assert_eq!(e.body, "");
    assert_eq!(e.next, 0);
}

#[test]
fn move_panel_text() {
    let ir = empty_ir();
    let mut e = emitter(&ir);
    e.move_panel = Some((8, 2));
    assert_eq!(e.move_panel_index("%i", 32), "%t11");
    let expected = [
        "%t0 = urem i64 %i, 2",
        "%t1 = udiv i64 %i, 2",
        "%t2 = urem i64 %t1, 2",
        "%t3 = udiv i64 %t1, 2",
        "%t4 = urem i64 %t3, 4",
        "%t5 = udiv i64 %t3, 4",
        "%t6 = mul i64 %t5, 2",
        "%t7 = add i64 %t6, %t2",
        "%t8 = mul i64 %t7, 8",
        "%t9 = mul i64 %t4, 2",
        "%t10 = add i64 %t8, %t9",
        "%t11 = add i64 %t10, %t0",
    ]
    .iter()
    .map(|l| format!("  {l}\n"))
    .collect::<String>();
    assert_eq!(e.body, expected);
}

/// What the move-panel instructions compute, evaluated directly.
fn panel(p: u64, w: u64, b: u64) -> u64 {
    let dc = p % b;
    let q = p / b;
    let dr = q % b;
    let q2 = q / b;
    let cb = q2 % (w / b);
    let rb = q2 / (w / b);
    (rb * b + dr) * w + cb * b + dc
}

#[test]
fn move_panel_visits_every_element_once() {
    for (w, b, n) in [(8, 2, 32), (12, 3, 72), (4, 4, 32), (6, 1, 12)] {
        let mut hit = vec![false; n as usize];
        for p in 0..n {
            let t = panel(p, w, b) as usize;
            assert!(t < n as usize);
            assert!(!hit[t]);
            hit[t] = true;
        }
    }
}

fn frame_ir() -> CategoryIr {
    let o = |owner| Object { ty: Ty::Int { bits: 32, signed: true }, kind: ObjectKind::Temporary, value: None, owner: Some(owner) };
    CategoryIr {
        objects: vec![o(0), o(0), o(0)],
        morphisms: vec![
            Morphism { op: Operation::Div, source: 0, target: 1 },
            Morphism { op: Operation::Index, source: 0, target: 1 },
            Morphism { op: Operation::Update, source: 0, target: 2 },
            Morphism { op: Operation::LoopEnter, source: 0, target: 0 },
        ],
        funcs: vec![FuncDef { morphisms: vec![0, 1, 2, 3], proven: vec![], topo: vec![3, 2, 1, 0] }],
        in_edges: vec![vec![3], vec![0, 1], vec![2]],
        out_edges: vec![vec![0, 1, 2, 3], vec![], vec![]],
    }
}

#[test]
fn slots_resolve_through_the_frame() {
    let ir = frame_ir();
    let mut e = emitter(&ir);
    let field = |owner, index, ordinal| {
        Some(FrameField { owner, index, ordinal, llt: "i32".to_string() })
    };
    e.frame = Some(FrameLayout {
        fields: vec![field(0, 0, 3), field(0, 0, 3), None],
        order: vec![0],
        packed: vec![],
    });
    e.slots[2] = Some("%x".to_string());
    assert_eq!(e.slot(2), Some("%x".to_string()));
    assert_eq!(e.slot(1), Some("%o3".to_string()));
    assert_eq!(e.frame_geps, "  %o3 = getelementptr %Frame, ptr %frame, i32 0, i32 0\n");
    assert_eq!(e.slot(0), Some("%o3".to_string()));
    assert_eq!(e.frame_geps.matches("getelementptr").count(), 1);
    e.store_obj(0, "i32", "7");
    assert_eq!(e.body, "  store i32 7, ptr %o3\n");
}

#[test]
fn objects_without_storage_have_no_slot() {
    let ir = frame_ir();
    let mut e = emitter(&ir);
    assert_eq!(e.slot(0), None);
    e.frame = Some(FrameLayout { fields: vec![None], order: vec![], packed: vec![] });
    assert_eq!(e.slot(1), None);
    e.store_obj(1, "i32", "7");
    assert_eq!(e.body, "");
}

#[test]
fn trap_sites() {
    let mut ir = frame_ir();
    {
        let e = emitter(&ir);
        assert!(e.local_trap_site(0));
        assert!(e.local_trap_site(1));
        assert!(e.local_trap_site(2));
        assert!(!e.local_trap_site(3));
    }
    ir.funcs[0].proven = vec![1];
    ir.objects[1].ty = Ty::Float { bits: 64 };
    let e = emitter(&ir);
    assert!(!e.local_trap_site(0));
    assert!(!e.local_trap_site(1));
}

#[test]
fn task_guards_report_their_site() {
    let ir = frame_ir();
    let mut e = emitter(&ir);
    e.guard_flavor = GuardFlavor::Task;
    assert_eq!(e.task_site(1), 2);
    e.record_trap(0, 0);
    e.emit_watermark(3);
    assert!(e.runtime_write);
    e.set_task_body_site(9);
    assert_eq!(e.task_site(0), 9);
    e.record_trap(0, 1);
    assert_eq!(
        e.body,
        "  call void @mapal_par_trap(i64 3, i32 0)\n  call void @mapal_par_watermark(i64 0)\n  call void @mapal_par_trap(i64 9, i32 1)\n"
    );
}

#[test]
fn pair_source_method() {
    let ir = CategoryIr {
        objects: vec![
            Object { ty: Ty::Bool, kind: ObjectKind::Input, value: None, owner: None },
            Object { ty: Ty::Tuple(vec![Ty::Bool]), kind: ObjectKind::Temporary, value: None, owner: None },
        ],
        morphisms: vec![Morphism { op: Operation::Pair { slot: 0 }, source: 0, target: 1 }],
        funcs: vec![],
        in_edges: vec![vec![], vec![0]],
        out_edges: vec![vec![0], vec![]],
    };
    let e = emitter(&ir);
    assert_eq!(e.pair_source(1, 0), Some(0));
    assert_eq!(e.pair_source(1, 1), None);
}

#[test]
fn perf_timing_setter() {
    let ir = empty_ir();
    let mut e = emitter(&ir);
    e.set_perf_timing(true);
    assert!(e.perf_timing);
}

#[test]
fn affine_tile_index() {
    let ir = empty_ir();
    let mut e = emitter(&ir);
    let r = e.emit_tile_index(Some("5".to_string()), &[(0, "%z"), (3, "%k"), (1, "%j")]);
    assert_eq!(r, Some("%t2".to_string()));
    assert_eq!(e.body, "  %t0 = mul i64 %k, 3\n  %t1 = add i64 5, %t0\n  %t2 = add i64 %t1, %j\n");
    let r = e.emit_tile_index(None, &[(1, "%j")]);
    assert_eq!(r, Some("%j".to_string()));
    let r = e.emit_tile_index(None, &[(0, "%j")]);
    assert_eq!(r, None);
    assert_eq!(e.next, 3);
}

#[test]
fn index_guard() {
    let ir = empty_ir();
    let mut e = emitter(&ir);
    e.guard_index("%i", 16);
    assert_eq!(
        e.body,
        "  %t0 = icmp slt i64 %i, 0\n  %t1 = icmp sge i64 %i, 16\n  %t2 = or i1 %t0, %t1\n  br i1 %t2, label %bb3, label %bb4\nbb3:\n  call void @mapal_trap(i32 1)\n  unreachable\nbb4:\n"
    );
}

fn ctx(elem: &str, tile_j: u64) -> TileCtx {
    let s = || String::new();
    TileCtx {
        acc: s(),
        acc_llt: s(),
        elem_llt: elem.to_string(),
        seed: s(),
        mul_op: "fmul",
        add_op: "fadd",
        a_ptr: s(),
        b_ptr: s(),
        out_ptr: s(),
        a_llt: s(),
        b_llt: s(),
        out_llt: s(),
        k_ctr: s(),
        lane_ctr: s(),
        tile_j,
        tile_i: 4,
        tile_kc: 128,
        packed: None,
        contract_flag: "",
    }
}

#[test]
fn tile_vector_type() {
    assert_eq!(tile_vec_llt(&ctx("float", 16)), "<16 x float>");
}

#[test]
fn splats() {
    let ir = empty_ir();
    let mut e = emitter(&ir);
    assert_eq!(e.emit_vec_splat(&ctx("double", 4), "%s"), "%t1");
    assert_eq!(
        e.body,
        "  %t0 = insertelement <4 x double> poison, double %s, i64 0\n  %t1 = shufflevector <4 x double> %t0, <4 x double> poison, <4 x i32> zeroinitializer\n"
    );
}

#[test]
fn panel_base_and_kc_lanes() {
    let ir = empty_ir();
    let mut e = emitter(&ir);
    let s = site(4, 32);
    assert_eq!(e.emit_tile_panel_base(&s, &ctx("float", 8), "%j0"), "%t1");
    assert_eq!(e.emit_tile_kc_acc_lane("%l", "%ab", 0, 64), "%t2");
    assert_eq!(e.emit_tile_kc_acc_lane("%l", "%ab", 3, 64), "%t4");
    assert_eq!(
        e.body,
        "  %t0 = udiv i64 %j0, 8\n  %t1 = mul i64 %t0, 32\n  %t2 = add i64 %l, %ab\n  %t3 = add i64 %ab, 192\n  %t4 = add i64 %l, %t3\n"
    );
}

#[test]
fn body_capture_count() {
    let o = Object { ty: Ty::Bool, kind: ObjectKind::Temporary, value: None, owner: None };
    let ir = CategoryIr {
        objects: vec![o],
        morphisms: vec![
            Morphism { op: Operation::Fold { body: 2, captures: 1 }, source: 0, target: 0 },
            Morphism { op: Operation::MapEach { body: 1, captures: 3 }, source: 0, target: 0 },
            Morphism { op: Operation::MapEach { body: 1, captures: 5 }, source: 0, target: 0 },
        ],
        funcs: vec![],
        in_edges: vec![vec![0, 1, 2]],
        out_edges: vec![vec![0, 1, 2]],
    };
    let mut e = emitter(&ir);
    e.f = 1;
    assert_eq!(e.body_captures(), 3);
    e.f = 2;
    assert_eq!(e.body_captures(), 1);
    e.f = 0;
    assert_eq!(e.body_captures(), 0);
}

#[test]
fn clock_reading_is_stored() {
    let ir = frame_ir();
    let mut e = emitter(&ir);
    e.slots[1] = Some("%o1".to_string());
    e.emit_time_ms(1);
    assert_eq!(e.body, "  %t0 = call double @mapal_time_ms()\n  store double %t0, ptr %o1\n");
}

fn staged_ir(use_op: Operation) -> CategoryIr {
    let obj = |ty: Ty| Object { ty, kind: ObjectKind::Temporary, value: None, owner: Some(0) };
    let arr = || Ty::Array { elem: Box::new(Ty::Int { bits: 64, signed: true }), size: 4 };
    let int = || Ty::Int { bits: 64, signed: true };
    CategoryIr {
        objects: vec![obj(arr()), obj(int()), obj(Ty::Tuple(vec![arr(), int()])), obj(int())],
        morphisms: vec![
            Morphism { op: Operation::Pair { slot: 0 }, source: 0, target: 2 },
            Morphism { op: Operation::Pair { slot: 1 }, source: 1, target: 2 },
            Morphism { op: use_op, source: 2, target: 3 },
        ],
        funcs: vec![FuncDef { morphisms: vec![0, 1, 2], proven: Vec::new(), topo: vec![0, 1, 2] }],
        in_edges: vec![Vec::new(), Vec::new(), vec![0, 1], vec![2]],
        out_edges: vec![vec![0], vec![1], vec![2], Vec::new()],
    }
}

#[test]
fn staged_array_components_read_only_by_address_are_pointers() {
    let ir = staged_ir(Operation::Index);
    let e = emitter(&ir);
    assert!(e.pointer_only_array_component(2, 0));
    // The scalar component is not an array.
    assert!(!e.pointer_only_array_component(2, 1));
    // A fold reads its captures and its array by address, not its seed slot.
    let ir = staged_ir(Operation::Fold { body: 0, captures: 0 });
    let e = emitter(&ir);
    assert!(!e.pointer_only_array_component(2, 0));
    let ir = staged_ir(Operation::Zip);
    let e = emitter(&ir);
    assert!(e.pointer_only_array_component(2, 0));
    // A non-product object has no components.
    let e = emitter(&ir);
    assert!(!e.pointer_only_array_component(0, 0));
}
