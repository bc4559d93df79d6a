use lib::emit::EmitPlan;
use lib::attrs::FnAttrs;
use lib::emit::{FnEmit, GuardFlavor};
use lib::frame::{FrameField, FrameLayout, PackedField};
use lib::ir::{CategoryIr, FuncDef, Morphism, Object, ObjectKind, Operation, Ty};

/// Function 0 computes plainly; function 1 loops.
fn ir() -> CategoryIr {
    let obj = |owner| Object { ty: Ty::Int { bits: 32, signed: true }, kind: ObjectKind::Temporary, value: None, owner: Some(owner) };
    CategoryIr {
        objects: vec![obj(0), obj(0), obj(0), obj(1)],
        morphisms: vec![
            Morphism { op: Operation::Output, source: 0, target: 1 },
            Morphism { op: Operation::LoopEnter, source: 3, target: 3 },
        ],
        funcs: vec![
            FuncDef { morphisms: vec![0], proven: vec![], topo: vec![0] },
            FuncDef { morphisms: vec![1], proven: vec![], topo: vec![1] },
        ],
        in_edges: vec![vec![], vec![0], vec![], vec![1]],
        out_edges: vec![vec![0], vec![], vec![], vec![1]],
    }
}

fn emitter(ir: &CategoryIr) -> FnEmit<'_> {
    let n = ir.objects.len();
    FnEmit {
        ir,
        f: 0,
        slots: vec![None; n],
        frame: None,
        frame_geps: String::new(),
        runtime_write: false,
        allocas: String::new(),
        body: String::new(),
        next: 0,
        guard_flavor: GuardFlavor::Host,
        split_range: false,
        perf_timing: false,
        move_panel: None,
        heap_min_bytes: 256 * 1024,
        heap_ok: false,
        heap_used: false,
        elem: ir.objects.iter().map(|_| None).collect(),
        elided_arrays: vec![false; n],
        elided_updates: vec![false; n],
        update_aliases: vec![None; n],
        host: None,
        plan: EmitPlan { gated: Vec::new(), guard_sites: Vec::new(), tile_plan: None, packing: false, contract: false, kc_nest: false },
    }
}

#[test]
fn prologue_and_return() {
    let ir = ir();
    let mut e = emitter(&ir);
    e.slots[0] = Some("%o0".to_string());
    e.slots[2] = Some("%o2".to_string());
    e.next = 5;
    e.emit_prologue(Some("i32"), 0);
    e.emit_prologue(None, 0);
    e.perf_timing = true;
    e.heap_used = true;
    assert_eq!(e.emit_return(Some("i32"), 2), "i32");
    assert_eq!(
        e.body,
        "  store i32 %arg, ptr %o0\n  %t5 = load i32, ptr %o2\n  call void @mapal_perf_end()\n  call void @mapal_rt_free_all()\n  ret i32 %t5\n"
    );
    let mut v = emitter(&ir);
    assert_eq!(v.emit_return(None, 2), "void");
    assert_eq!(v.body, "  ret void\n");
}

#[test]
fn attributes_follow_the_analysis() {
    let ir = ir();
    let attrs = FnAttrs::analyze(&ir);
    let mut e = emitter(&ir);
    e.allocas = "  %o0 = alloca i32\n".to_string();
    e.body = "  ret i32 0\n".to_string();
    assert_eq!(
        e.define_function(&attrs, "f0", "i32", Some("i32"), false),
        "define internal i32 @f0(i32 %arg) readonly nounwind willreturn {\nentry:\n  %o0 = alloca i32\n  ret i32 0\n}\n"
    );
    assert_eq!(
        e.define_function(&attrs, "f0", "i32", Some("ptr"), true),
        "define internal i32 @f0(ptr noalias nocapture readonly %arg) readonly nounwind willreturn {\nentry:\n  %o0 = alloca i32\n  ret i32 0\n}\n"
    );
    e.runtime_write = true;
    assert_eq!(
        e.define_function(&attrs, "f0", "i32", Some("ptr"), true),
        "define internal i32 @f0(ptr %arg) {\nentry:\n  %o0 = alloca i32\n  ret i32 0\n}\n"
    );
    let mut t = emitter(&ir);
    t.perf_timing = true;
    assert_eq!(
        t.define_function(&attrs, "f0", "void", None, false),
        "define internal void @f0() {\nentry:\n  call void @mapal_perf_begin()\n}\n"
    );
    let mut l = emitter(&ir);
    l.f = 1;
    assert_eq!(
        l.define_function(&attrs, "f1", "void", None, false),
        "define internal void @f1() readonly nounwind {\nentry:\n}\n"
    );
}

fn frame() -> FrameLayout {
    FrameLayout {
        fields: vec![
            Some(FrameField { owner: 0, index: 0, ordinal: 0, llt: "i64".to_string() }),
            Some(FrameField { owner: 1, index: 1, ordinal: 1, llt: "[4 x i32]".to_string() }),
        ],
        order: vec![0, 1],
        packed: vec![None, Some(PackedField { index: 2, ordinal: 0 })],
    }
}

#[test]
fn frame_block_and_packs() {
    let ir = ir();
    let mut e = emitter(&ir);
    let mut fr = frame();
    fr.packed = vec![None, None];
    e.alloc_frame(&fr);
    assert_eq!(e.allocas, "  %frame = alloca %Frame\n");
    assert!(!e.heap_used);
    let mut h = emitter(&ir);
    h.heap_ok = true;
    h.heap_min_bytes = 16;
    h.alloc_frame(&fr);
    assert_eq!(h.allocas, "  %frame = call ptr @mapal_rt_alloc(i64 24, i64 8)\n");
    assert!(h.heap_used);

    let mut p = emitter(&ir);
    p.frame = Some(frame());
    p.allocate_frame_packs(Some(&vec![None, Some("[256 x float]".to_string())]));
    assert_eq!(p.allocas, "  %pack0 = alloca [256 x float], align 64\n");
    assert_eq!(
        p.frame_geps,
        "  %pack_field0 = getelementptr %Frame, ptr %frame, i32 0, i32 2\n  store ptr %pack0, ptr %pack_field0\n"
    );
    p.allocate_frame_packs(None);
    assert_eq!(p.allocas, "  %pack0 = alloca [256 x float], align 64\n");
}

#[test]
fn parallel_entry_definition() {
    let ir = ir();
    let mut e = emitter(&ir);
    e.allocas = "  %frame = alloca %Frame\n".to_string();
    e.frame_geps = "  %o0 = getelementptr %Frame, ptr %frame, i32 0, i32 0\n".to_string();
    e.body = "  ret void\n".to_string();
    assert_eq!(
        e.define_parallel_entry("main", "void", Some("i64")),
        "define internal void @main(i64 %arg) {\nentry:\n  %frame = alloca %Frame\n  %o0 = getelementptr %Frame, ptr %frame, i32 0, i32 0\n  ret void\n}\n"
    );
}

#[test]
fn only_the_entry_function_may_use_the_arena() {
    let ir = ir();
    let mut e = emitter(&ir);
    e.slots[0] = Some("%o0".to_string());
    e.begin_function(0, Some("i32"), 0);
    assert!(e.heap_ok);
    assert_eq!(e.body, "  store i32 %arg, ptr %o0\n");
    let mut g = emitter(&ir);
    g.heap_ok = true;
    g.begin_function(1, None, 0);
    assert!(!g.heap_ok);
    assert_eq!(g.body, "");
}

#[test]
fn a_finished_function_returns_and_is_defined() {
    let ir = ir();
    let attrs = FnAttrs::analyze(&ir);
    let mut e = emitter(&ir);
    e.slots[1] = Some("%o1".to_string());
    e.allocas = "  %o1 = alloca i32\n".to_string();
    e.next = 3;
    assert_eq!(
        e.finish_function(&attrs, "f0", Some("i32"), 1, Some("i32"), false),
        "define internal i32 @f0(i32 %arg) readonly nounwind willreturn {\nentry:\n  %o1 = alloca i32\n  %t3 = load i32, ptr %o1\n  ret i32 %t3\n}\n"
    );
}
