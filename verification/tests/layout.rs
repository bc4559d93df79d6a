use lib::emit::EmitPlan;
use lib::emit::{FnEmit, GuardFlavor};
use lib::ir::{CategoryIr, FuncDef, Morphism, Object, ObjectKind, Operation, Ty, Value};
use lib::site::{TileRead, TileSite};

fn int_ty() -> Ty {
    Ty::Int { bits: 32, signed: true }
}

/// 0 input, 1 constant, 2 elided array, 3 no slot type, 4 another
/// function's, 5 array, 6 in-place update of 5, 7 wide scalar.
fn ir() -> CategoryIr {
    let obj = |kind, owner| Object { ty: int_ty(), kind, value: None, owner: Some(owner) };
    let mut objects = vec![
        obj(ObjectKind::Input, 0),
        obj(ObjectKind::Constant, 0),
        obj(ObjectKind::Temporary, 0),
        obj(ObjectKind::Temporary, 0),
        obj(ObjectKind::Temporary, 1),
        obj(ObjectKind::Temporary, 0),
        obj(ObjectKind::Temporary, 0),
        obj(ObjectKind::Temporary, 0),
    ];
    objects[1].value = Some(Value::I32(3));
    CategoryIr {
        objects,
        morphisms: vec![
            Morphism { op: Operation::MapEach { body: 1, captures: 0 }, source: 0, target: 5 },
            Morphism { op: Operation::Update, source: 5, target: 6 },
            Morphism { op: Operation::Output, source: 6, target: 7 },
        ],
        funcs: vec![FuncDef { morphisms: vec![0, 1, 2], proven: vec![], topo: vec![0, 1, 2] }],
        in_edges: vec![vec![], vec![], vec![], vec![], vec![], vec![0], vec![1], vec![2]],
        out_edges: vec![vec![0], vec![], vec![], vec![], vec![], vec![1], vec![2], vec![]],
    }
}

fn emitter(ir: &CategoryIr) -> FnEmit<'_> {
    let n = ir.objects.len();
    let mut elided_arrays = vec![false; n];
    elided_arrays[2] = true;
    let mut elided_updates = vec![false; n];
    elided_updates[6] = true;
    let mut update_aliases = vec![None; n];
    update_aliases[6] = Some(5);
    FnEmit {
        ir,
        f: 0,
        slots: vec![None; n],
        frame: None,
        frame_geps: String::new(),
        runtime_write: false,
        allocas: String::new(),
        body: String::new(),
        next: 0,
        guard_flavor: GuardFlavor::Host,
        split_range: false,
        perf_timing: false,
        move_panel: None,
        heap_min_bytes: 256 * 1024,
        heap_ok: false,
        heap_used: false,
        elem: ir.objects.iter().map(|_| None).collect(),
        elided_arrays,
        elided_updates,
        update_aliases,
        host: None,
        plan: EmitPlan { gated: Vec::new(), guard_sites: Vec::new(), tile_plan: None, packing: false, contract: false, kc_nest: false },
    }
}

fn slot_llts() -> Vec<Option<String>> {
    let mut v: Vec<Option<String>> = vec![None; 8];
    v[0] = Some("i32".to_string());
    v[2] = Some("[4 x i32]".to_string());
    v[4] = Some("i32".to_string());
    v[5] = Some("[4 x i32]".to_string());
    v[6] = Some("[4 x i32]".to_string());
    v[7] = Some("i64".to_string());
    v
}

fn site(b_ci: u64) -> TileSite {
    let read = |ci| TileRead { slot: 0, base: 0, ci, ck: 1, clane: 0, ksplit: None };
    TileSite { rows: 4, c: 8, k: 8, elem: Ty::Float { bits: 32 }, a: read(1), b: read(b_ci), seed: Value::F32(0), mul_a_first: true, add_acc_first: true }
}

#[test]
fn frame_fields_follow_ordinals_and_aliases() {
    let ir = ir();
    let e = emitter(&ir);
    let layout = e.build_frame_layout(&slot_llts(), false, None, &[]);
    assert_eq!(layout.order, vec![0, 5, 7]);
    let f = |o: usize| layout.fields[o].as_ref().map(|f| (f.owner, f.index, f.ordinal, f.llt.clone()));
    assert_eq!(f(0), Some((0, 0, 0, "i32".to_string())));
    assert_eq!(f(5), Some((5, 1, 3, "[4 x i32]".to_string())));
    assert_eq!(f(6), Some((5, 1, 3, "[4 x i32]".to_string())));
    assert_eq!(f(7), Some((7, 2, 5, "i64".to_string())));
    for o in [1, 2, 3, 4] {
        assert!(layout.fields[o].is_none());
    }
    assert!(layout.packed.iter().all(|p| p.is_none()));
    assert_eq!(layout.struct_llt(), "{ i32, [4 x i32], i64 }");
}

#[test]
fn packing_sites_get_pointer_fields() {
    let ir = ir();
    let e = emitter(&ir);
    let sites = vec![Some(site(0)), None, Some(site(1))];
    let layout = e.build_frame_layout(&slot_llts(), true, Some(&sites), &[2, 0, 1]);
    let p = |m: usize| layout.packed[m].as_ref().map(|p| (p.index, p.ordinal));
    assert_eq!(p(0), Some((3, 0)));
    assert_eq!(p(1), None);
    assert_eq!(p(2), None);
    assert_eq!(layout.struct_llt(), "{ i32, [4 x i32], i64, ptr }");
    let again = e.build_frame_layout(&slot_llts(), true, Some(&sites), &[0, 0]);
    assert_eq!(again.packed[0].as_ref().map(|p| (p.index, p.ordinal)), Some((4, 1)));
    let off = e.build_frame_layout(&slot_llts(), false, Some(&sites), &[0]);
    assert!(off.packed[0].is_none());
}

#[test]
fn local_slots_take_the_same_ordinals() {
    let ir = ir();
    let mut e = emitter(&ir);
    e.allocate_local_slots(&slot_llts());
    let names: Vec<Option<&str>> = e.slots.iter().map(|s| s.as_deref()).collect();
    assert_eq!(names, vec![Some("%o0"), None, None, None, None, Some("%o3"), None, Some("%o5")]);
    assert_eq!(e.allocas, "  %o0 = alloca i32\n  %o3 = alloca [4 x i32]\n  %o5 = alloca i64\n");
    assert!(!e.heap_used);
}

#[test]
fn large_local_slots_go_to_the_arena() {
    let ir = ir();
    let mut e = emitter(&ir);
    e.heap_ok = true;
    e.heap_min_bytes = 16;
    e.allocate_local_slots(&slot_llts());
    assert_eq!(
        e.allocas,
        "  %o0 = alloca i32\n  %o3 = call ptr @mapal_rt_alloc(i64 16, i64 4)\n  %o5 = alloca i64\n"
    );
    assert!(e.heap_used);
}
