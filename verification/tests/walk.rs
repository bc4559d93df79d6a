use lib::emit::EmitPlan;
use lib::emit::{FnEmit, GuardFlavor};
use lib::host::{CheckpointEmit, HostEmit, PinnedEmit};
use lib::ir::{CategoryIr, FuncDef, Morphism, Object, ObjectKind, Operation, Ty};
use lib::walk::WalkAction;

fn ir() -> CategoryIr {
    let obj = || Object { ty: Ty::Int { bits: 32, signed: true }, kind: ObjectKind::Temporary, value: None, owner: Some(0) };
    let m = |op, source, target| Morphism { op, source, target };
    let morphisms = vec![
        m(Operation::LoopEnter, 0, 1),
        m(Operation::LoopBack, 1, 1),
        m(Operation::Output, 2, 3),
        m(Operation::Output, 1, 3),
        m(Operation::Output, 2, 2),
        m(Operation::Output, 2, 3),
        m(Operation::LoopEnter, 0, 2),
    ];
    let mut in_edges = vec![Vec::new(); 4];
    let mut out_edges = vec![Vec::new(); 4];
    for (i, morph) in morphisms.iter().enumerate() {
        in_edges[morph.target].push(i);
        out_edges[morph.source].push(i);
    }
    CategoryIr {
        objects: vec![obj(), obj(), obj(), obj()],
        morphisms,
        funcs: vec![FuncDef { morphisms: (0..7).collect(), proven: vec![], topo: (0..7).collect() }],
        in_edges,
        out_edges,
    }
}

fn emitter(ir: &CategoryIr) -> FnEmit<'_> {
    let n = ir.objects.len();
    FnEmit {
        ir,
        f: 0,
        slots: vec![None; n],
        frame: None,
        frame_geps: String::new(),
        runtime_write: false,
        allocas: String::new(),
        body: String::new(),
        next: 0,
        guard_flavor: GuardFlavor::Host,
        split_range: false,
        perf_timing: false,
        move_panel: None,
        heap_min_bytes: 256 * 1024,
        heap_ok: true,
        heap_used: false,
        elem: ir.objects.iter().map(|_| None).collect(),
        elided_arrays: vec![false; n],
        elided_updates: vec![false; n],
        update_aliases: vec![None; n],
        host: None,
        plan: EmitPlan { gated: Vec::new(), guard_sites: Vec::new(), tile_plan: None, packing: false, contract: false, kc_nest: false },
    }
}

fn plans() -> (Vec<bool>, Vec<bool>, Vec<bool>) {
    let mut owned = vec![false; 7];
    owned[4] = true;
    let in_scc = vec![false, true, false, false];
    let mut gated = vec![false; 7];
    gated[5] = true;
    gated[6] = true;
    (owned, in_scc, gated)
}

#[test]
fn walk_decisions() {
    let ir = ir();
    let e = emitter(&ir);
    let (owned, in_scc, gated) = plans();
    let actions: Vec<WalkAction> = (0..7).map(|m| e.walk_action(m, &owned, &in_scc, &gated)).collect();
    assert_eq!(
        actions,
        vec![
            WalkAction::Loop(1),
            WalkAction::Skip,
            WalkAction::Morphism(2),
            WalkAction::Skip,
            WalkAction::Skip,
            WalkAction::Skip,
            WalkAction::Skip,
        ]
    );
}

fn host() -> HostEmit {
    let mut checkpoints: Vec<Option<CheckpointEmit>> = (0..7).map(|_| None).collect();
    checkpoints[3] = Some(CheckpointEmit { ordinal: 1, topo: 9, len: 4 });
    let mut pinned: Vec<Option<PinnedEmit>> = (0..7).map(|_| None).collect();
    pinned[2] = Some(PinnedEmit { task: 1, topo: 4, len: 2 });
    let mut pre_loop: Vec<Vec<CheckpointEmit>> = (0..7).map(|_| Vec::new()).collect();
    pre_loop[0] = vec![CheckpointEmit { ordinal: 0, topo: 3, len: 1 }, CheckpointEmit { ordinal: 2, topo: 5, len: 0 }];
    HostEmit { checkpoints, pinned, pre_loop }
}

#[test]
fn host_walk_injects_waits() {
    let ir = ir();
    let (owned, in_scc, gated) = plans();
    let mut members = vec![false; 7];
    members[0] = true;
    let mut e = emitter(&ir);
    e.host = Some(host());
    assert_eq!(e.walk_filtered_step(0, &members, false, &owned, &in_scc, &gated), WalkAction::Skip);
    assert_eq!(e.body, "");
    assert_eq!(e.walk_filtered_step(2, &members, false, &owned, &in_scc, &gated), WalkAction::Morphism(2));
    assert_eq!(
        e.body,
        [
            "  call void @mapal_par_wait(ptr %h, ptr @pin1_entries, i32 2)\n",
            "  call void @mapal_par_check(ptr %h, i64 4)\n",
            "  call void @mapal_par_run_pinned(ptr %h, i32 1)\n",
        ]
        .concat()
    );
    let mut e = emitter(&ir);
    e.host = Some(host());
    assert_eq!(e.walk_filtered_step(0, &members, true, &owned, &in_scc, &gated), WalkAction::Loop(1));
    assert_eq!(
        e.body,
        [
            "  call void @mapal_par_wait(ptr %h, ptr @ckpt0_entries, i32 1)\n",
            "  call void @mapal_par_check(ptr %h, i64 3)\n",
            "  call void @mapal_par_wait(ptr %h, ptr @ckpt2_entries, i32 0)\n",
            "  call void @mapal_par_check(ptr %h, i64 5)\n",
        ]
        .concat()
    );
}

#[test]
fn checkpoints_wait_before_their_site() {
    let ir = ir();
    let mut e = emitter(&ir);
    e.emit_checkpoint(3);
    assert_eq!(e.body, "");
    e.host = Some(host());
    e.emit_checkpoint(2);
    assert_eq!(e.body, "");
    e.emit_checkpoint(3);
    assert_eq!(
        e.body,
        "  call void @mapal_par_wait(ptr %h, ptr @ckpt1_entries, i32 4)\n  call void @mapal_par_check(ptr %h, i64 9)\n"
    );
}
