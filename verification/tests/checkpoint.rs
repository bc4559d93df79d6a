use lib::checkpoint::checkpoint_injection;
use lib::ir::{CategoryIr, Morphism, Object, ObjectKind, Operation, Ty};

fn ir(morphisms: Vec<Morphism>, n_objects: usize) -> CategoryIr {
    let objects = (0..n_objects)
        .map(|_| Object { ty: Ty::Bool, kind: ObjectKind::Temporary, value: None, owner: Some(0) })
        .collect::<Vec<_>>();
    let mut in_edges = vec![Vec::new(); n_objects];
    let mut out_edges = vec![Vec::new(); n_objects];
    for (m, morph) in morphisms.iter().enumerate() {
        in_edges[morph.target].push(m);
        out_edges[morph.source].push(m);
    }
    CategoryIr { objects, morphisms, funcs: Vec::new(), in_edges, out_edges }
}

fn m(op: Operation, source: usize, target: usize) -> Morphism {
    Morphism { op, source, target }
}

/// Objects: 0 produced by assigned m0; 1 = pair(0) via m1; 2 = proj(1) via m2;
/// the checkpoint m3 reads 2. Object 3 produced by assigned m4; 4 = pair(3)
/// via m5 also feeds 2 (through m6: proj(4) -> 2).
fn routed() -> CategoryIr {
    ir(
        vec![
            m(Operation::Output, 5, 0),
            m(Operation::Pair { slot: 0 }, 0, 1),
            m(Operation::Proj { index: 0 }, 1, 2),
            m(Operation::Output, 2, 5),
            m(Operation::Output, 5, 3),
            m(Operation::Pair { slot: 0 }, 3, 4),
            m(Operation::Proj { index: 0 }, 4, 2),
        ],
        6,
    )
}

#[test]
fn earliest_boundary_in_topo_order() {
    let ir = routed();
    let assigned = vec![true, false, false, false, true, false, false];
    assert_eq!(checkpoint_injection(&ir, 3, &assigned, &[0, 4, 5, 1, 2, 6, 3]), 5);
    assert_eq!(checkpoint_injection(&ir, 3, &assigned, &[0, 4, 1, 5, 2, 6, 3]), 1);
}

#[test]
fn boundary_missing_from_topo_ranks_last() {
    let ir = routed();
    let assigned = vec![true, false, false, false, true, false, false];
    assert_eq!(checkpoint_injection(&ir, 3, &assigned, &[5]), 5);
    assert_eq!(checkpoint_injection(&ir, 3, &assigned, &[1]), 1);
}

#[test]
fn no_boundary_keeps_the_checkpoint() {
    let ir = routed();
    let none = vec![false; 7];
    assert_eq!(checkpoint_injection(&ir, 3, &none, &[0, 1, 2, 3, 4, 5, 6]), 3);
}

#[test]
fn assigned_routing_is_not_crossed() {
    let ir = routed();
    let assigned = vec![true, false, true, false, true, false, true];
    assert_eq!(checkpoint_injection(&ir, 3, &assigned, &[0, 1, 2, 3, 4, 5, 6]), 3);
}
