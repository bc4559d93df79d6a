use lib::emit::EmitPlan;
use lib::emit::{FnEmit, GuardFlavor};
use lib::ir::{CategoryIr, ElemSrc, FuncDef, Morphism, Object, ObjectKind, Operation, Ty};

fn array_ty() -> Ty {
    Ty::Array { elem: Box::new(Ty::Int { bits: 32, signed: true }), size: 8 }
}

/// Object 0 is a scalar, object 1 the generated array, objects 2.. results.
/// Morphism 0 generates the array with `op`; the rest are its consumers.
fn ir_with(op: Operation, kind: ObjectKind, consumers: Vec<Operation>) -> CategoryIr {
    let obj = |ty, kind| Object { ty, kind, value: None, owner: Some(0) };
    let mut objects = vec![obj(Ty::Int { bits: 32, signed: true }, ObjectKind::Input), obj(array_ty(), kind)];
    let mut morphisms = vec![Morphism { op, source: 0, target: 1 }];
    for c in consumers {
        let target = objects.len();
        objects.push(obj(array_ty(), ObjectKind::Temporary));
        morphisms.push(Morphism { op: c, source: 1, target });
    }
    let mut in_edges = vec![Vec::new(); objects.len()];
    let mut out_edges = vec![Vec::new(); objects.len()];
    for (m, morph) in morphisms.iter().enumerate() {
        in_edges[morph.target].push(m);
        out_edges[morph.source].push(m);
    }
    let all = (0..morphisms.len()).collect::<Vec<_>>();
    CategoryIr {
        objects,
        morphisms,
        funcs: vec![FuncDef { morphisms: all.clone(), proven: vec![], topo: all }],
        in_edges,
        out_edges,
    }
}

fn emitter(ir: &CategoryIr, law: Option<ElemSrc>) -> FnEmit<'_> {
    let mut elem: Vec<Option<ElemSrc>> = ir.objects.iter().map(|_| None).collect();
    elem[1] = law;
    FnEmit {
        ir,
        f: 0,
        slots: vec![None; ir.objects.len()],
        frame: None,
        frame_geps: String::new(),
        runtime_write: false,
        allocas: String::new(),
        body: String::new(),
        next: 0,
        guard_flavor: GuardFlavor::Host,
        split_range: false,
        perf_timing: false,
        move_panel: None,
        heap_min_bytes: 256 * 1024,
        heap_ok: false,
        heap_used: false,
        elem,
        elided_arrays: vec![false; ir.objects.len()],
        elided_updates: vec![false; ir.objects.len()],
        update_aliases: vec![None; ir.objects.len()],
        host: None,
        plan: EmitPlan { gated: Vec::new(), guard_sites: Vec::new(), tile_plan: None, packing: false, contract: false, kc_nest: false },
    }
}

fn map(captures: u32) -> Operation {
    Operation::MapEach { body: 1, captures }
}

fn elided(op: Operation, kind: ObjectKind, consumers: Vec<Operation>, law: Option<ElemSrc>) -> Vec<bool> {
    let ir = ir_with(op, kind, consumers);
    let mut e = emitter(&ir, law);
    e.mark_elided_arrays(&[0]);
    e.elided_arrays
}

#[test]
fn iota_read_only_by_plain_maps_is_elided() {
    let r = elided(Operation::Iota, ObjectKind::Temporary, vec![map(0), map(0)], Some(ElemSrc::Index));
    assert_eq!(r, vec![false, true, false, false]);
}

#[test]
fn fill_broadcast_and_zip_pair_are_elided() {
    let broadcast = ElemSrc::Broadcast { source: 0, slot: 0 };
    assert!(elided(Operation::Fill, ObjectKind::Temporary, vec![map(0)], Some(broadcast))[1]);
    let pair = ElemSrc::Pair(Box::new(ElemSrc::Index), Box::new(ElemSrc::Broadcast { source: 0, slot: 1 }));
    assert!(elided(Operation::Zip, ObjectKind::Temporary, vec![map(0)], Some(pair))[1]);
}

#[test]
fn a_capturing_map_or_fold_keeps_the_array() {
    assert!(!elided(Operation::Iota, ObjectKind::Temporary, vec![map(0), map(1)], Some(ElemSrc::Index))[1]);
    let fold = Operation::Fold { body: 1, captures: 2 };
    assert!(!elided(Operation::Iota, ObjectKind::Temporary, vec![fold], Some(ElemSrc::Index))[1]);
    assert!(!elided(Operation::Iota, ObjectKind::Temporary, vec![Operation::Output], Some(ElemSrc::Index))[1]);
}

#[test]
fn a_capture_free_fold_reads_the_law() {
    let fold = Operation::Fold { body: 1, captures: 0 };
    assert!(elided(Operation::Iota, ObjectKind::Temporary, vec![fold], Some(ElemSrc::Index))[1]);
    let fold = Operation::Fold { body: 1, captures: 0 };
    assert!(elided(Operation::Iota, ObjectKind::Temporary, vec![map(0), fold], Some(ElemSrc::Index))[1]);
}

#[test]
fn unread_loaded_or_applied_arrays_are_kept() {
    assert!(!elided(Operation::Iota, ObjectKind::Temporary, vec![], Some(ElemSrc::Index))[1]);
    let load = ElemSrc::Load { source: 0, slot: None };
    assert!(!elided(Operation::Enumerate, ObjectKind::Temporary, vec![map(0)], Some(load))[1]);
    let apply = ElemSrc::Apply { body: 1, source: 0, captures: 0, inner: Box::new(ElemSrc::Index), array: 1 };
    assert!(!elided(Operation::Iota, ObjectKind::Temporary, vec![map(0)], Some(apply))[1]);
    assert!(!elided(Operation::Iota, ObjectKind::Temporary, vec![map(0)], None)[1]);
}

#[test]
fn only_generated_temporaries_are_considered() {
    assert!(!elided(Operation::Iota, ObjectKind::Constant, vec![map(0)], Some(ElemSrc::Index))[1]);
    assert!(!elided(Operation::Output, ObjectKind::Temporary, vec![map(0)], Some(ElemSrc::Index))[1]);
}

#[test]
fn unknown_morphisms_are_skipped_and_marks_accumulate() {
    let ir = ir_with(Operation::Iota, ObjectKind::Temporary, vec![map(0)]);
    let mut e = emitter(&ir, Some(ElemSrc::Index));
    e.elided_arrays[2] = true;
    e.mark_elided_arrays(&[99, 1, 0]);
    assert_eq!(e.elided_arrays, vec![false, true, true]);
}
