use lib::emit::FnEmit;
use lib::frame::WaitEntry;
use lib::host::{first_loop_enter, loop_checkpoints, loop_members, pre_loop_checks, Checkpoint, LoopShape};
use lib::ir::{CategoryIr, ElemSrc, FuncDef, GuardSite, Morphism, Object, ObjectKind, Operation, Ty};
use lib::llt::{llt_align, llt_bytes};

fn loop_ir() -> CategoryIr {
    let obj = || Object { ty: Ty::Int { bits: 32, signed: true }, kind: ObjectKind::Temporary, value: None, owner: Some(0) };
    CategoryIr {
        objects: vec![obj(), obj(), obj(), obj()],
        morphisms: vec![
            Morphism { op: Operation::Output, source: 0, target: 1 },
            Morphism { op: Operation::LoopEnter, source: 1, target: 2 },
            Morphism { op: Operation::Print { newline: true }, source: 2, target: 2 },
            Morphism { op: Operation::LoopEnter, source: 2, target: 3 },
            Morphism { op: Operation::LoopExit, source: 3, target: 3 },
        ],
        funcs: vec![FuncDef { morphisms: vec![0, 1, 2, 3, 4], proven: vec![], topo: vec![0, 1, 2, 3, 4] }],
        in_edges: vec![vec![], vec![0], vec![1, 2], vec![3, 4]],
        out_edges: vec![vec![0], vec![1], vec![2, 3], vec![4]],
    }
}

fn checkpoints() -> Vec<Checkpoint> {
    vec![
        Checkpoint { topo: u32::MAX, wait: vec![] },
        Checkpoint { topo: 2, wait: vec![WaitEntry { task: 0, threshold: None }] },
        Checkpoint { topo: 0, wait: vec![] },
        Checkpoint { topo: 4, wait: vec![WaitEntry { task: 1, threshold: Some(3) }, WaitEntry { task: 0, threshold: None }] },
    ]
}

#[test]
fn loop_members_are_touching_walk_morphisms_and_plan_morphisms() {
    let ir = loop_ir();
    let topo = [0usize, 1, 2, 3, 4];
    let members = loop_members(&ir, &topo, &[false, false, true, false], &[4, 99]);
    assert_eq!(members, vec![false, true, true, true, true]);
}

#[test]
fn the_first_loop_enter_in_walk_order_is_chosen() {
    let ir = loop_ir();
    let topo = [0usize, 3, 1, 2, 4];
    assert_eq!(first_loop_enter(&ir, &topo, &[false, true, true, true, true]), Some(3));
    assert_eq!(first_loop_enter(&ir, &topo, &[true, false, true, false, true]), None);
}

#[test]
fn only_live_checkpoints_inside_the_loop_are_hoisted_with_live_ordinals() {
    let topo = [0usize, 1, 2, 3, 4];
    let r = loop_checkpoints(&checkpoints(), &topo, &[false, true, true, true, true]);
    let got: Vec<(usize, u32, usize)> = r.iter().map(|c| (c.ordinal, c.topo, c.len)).collect();
    assert_eq!(got, vec![(0, 2, 1), (2, 4, 2)]);
}

#[test]
fn the_pre_loop_table_collects_each_loop_at_its_entry() {
    let ir = loop_ir();
    let topo = [0usize, 1, 2, 3, 4];
    let loops = vec![
        LoopShape { objects: vec![false, false, true, false], plan: vec![] },
        LoopShape { objects: vec![false, false, false, false], plan: vec![0] },
        LoopShape { objects: vec![false, false, false, true], plan: vec![] },
    ];
    let table = pre_loop_checks(&ir, &topo, &loops, &checkpoints());
    let shape: Vec<Vec<(usize, u32)>> = table.iter().map(|l| l.iter().map(|c| (c.ordinal, c.topo)).collect()).collect();
    assert_eq!(shape, vec![vec![], vec![(0, 2)], vec![], vec![(2, 4)], vec![]]);
}

#[test]
fn a_new_emitter_starts_empty() {
    let ir = loop_ir();
    let e = FnEmit::new(&ir, 0, guard_plan(), Vec::new(), vec![Some(ElemSrc::Index), None, None, None], true, true, false, true, Some((4, 2)), 1024);
    assert_eq!(e.next, 0);
    assert!(e.body.is_empty() && e.allocas.is_empty());
    assert_eq!(e.slots, vec![None; 4]);
    assert_eq!(e.elided_arrays, vec![false; 4]);
    assert!(!e.heap_ok && !e.heap_used && !e.perf_timing && !e.split_range);
    assert_eq!(e.move_panel, Some((4, 2)));
    assert_eq!(e.heap_min_bytes, 1024);
    assert_eq!(e.plan.gated, vec![false, true, false, true, true]);
    assert_eq!(e.plan.guard_sites.iter().map(|g| g.as_ref().map(|g| g.on_true.clone())).collect::<Vec<_>>(), vec![None, None, Some(vec![3, 4]), None, None]);
    assert!(e.plan.tile_plan.is_some() && e.plan.packing && !e.plan.contract && e.plan.kc_nest);
}

fn guard_plan() -> Vec<GuardSite> {
    vec![
        GuardSite { phi: 2, on_true: vec![1], on_false: vec![], gated: true },
        GuardSite { phi: 0, on_true: vec![0], on_false: vec![2], gated: false },
        GuardSite { phi: 2, on_true: vec![3, 4], on_false: vec![9], gated: true },
    ]
}

#[test]
fn minted_names_never_repeat() {
    let ir = loop_ir();
    let mut e = FnEmit::new(&ir, 0, Vec::new(), Vec::new(), vec![None, None, None, None], false, false, false, false, None, 1024);
    let mut names = vec![e.tmp(), e.label(), e.scratch("i64"), e.tmp(), e.label(), e.scratch("i64")];
    names.sort();
    names.dedup();
    assert_eq!(names.len(), 6);
}

#[test]
fn an_array_is_count_times_its_element() {
    assert_eq!(llt_bytes("[7 x { i8, double }]"), 7 * llt_bytes("{ i8, double }"));
    assert_eq!(llt_align("[7 x { i8, double }]"), llt_align("{ i8, double }"));
    assert_eq!(llt_bytes("[0 x i64]"), 0);
}

#[test]
fn a_struct_is_padded_to_its_alignment_and_covers_its_fields() {
    let s = "{ i8, i32, i8 }";
    assert_eq!(llt_bytes(s) % llt_align(s), 0);
    assert!(llt_bytes(s) >= 1 + 4 + 1);
    assert_eq!(llt_bytes(s), 12);
}
