use lib::attrs::FnAttrs;
use lib::ir::{CategoryIr, FuncDef, Morphism, Object, ObjectKind, Operation, Ty, Value};

fn int_ty() -> Ty {
    Ty::Int { bits: 32, signed: true }
}

fn obj(ty: Ty, owner: usize) -> Object {
    Object { ty, kind: ObjectKind::Temporary, value: None, owner: Some(owner) }
}

fn constant(v: Value, owner: usize) -> Object {
    Object { ty: int_ty(), kind: ObjectKind::Constant, value: Some(v), owner: Some(owner) }
}

/// Builds an IR whose edges are derived from the morphisms' ends.
fn build(objects: Vec<Object>, morphisms: Vec<Morphism>, funcs: Vec<FuncDef>) -> CategoryIr {
    let mut in_edges = vec![Vec::new(); objects.len()];
    let mut out_edges = vec![Vec::new(); objects.len()];
    for (m, morph) in morphisms.iter().enumerate() {
        in_edges[morph.target].push(m);
        out_edges[morph.source].push(m);
    }
    CategoryIr { objects, morphisms, funcs, in_edges, out_edges }
}

fn func(morphisms: Vec<usize>) -> FuncDef {
    FuncDef { morphisms, proven: Vec::new(), topo: Vec::new() }
}

/// A division `pair(a, divisor) -> q` in function 0, with the divisor given.
fn division_ir(divisor: Object) -> CategoryIr {
    let objects = vec![
        obj(int_ty(), 0),
        divisor,
        obj(Ty::Tuple(vec![int_ty(), int_ty()]), 0),
        obj(int_ty(), 0),
    ];
    let morphisms = vec![
        Morphism { op: Operation::Pair { slot: 0 }, source: 0, target: 2 },
        Morphism { op: Operation::Pair { slot: 1 }, source: 1, target: 2 },
        Morphism { op: Operation::Div, source: 2, target: 3 },
    ];
    build(objects, morphisms, vec![func(vec![0, 1, 2])])
}

#[test]
fn literal_divisor_keeps_a_function_clean() {
    let ir = division_ir(constant(Value::I32(2), 0));
    let attrs = FnAttrs::analyze(&ir);
    assert!(attrs.clean(0));
    assert!(!attrs.loopy(0));
}

#[test]
fn zero_or_minus_one_divisor_traps() {
    for v in [Value::I32(0), Value::I64(-1)] {
        let ir = division_ir(constant(v, 0));
        assert!(!FnAttrs::analyze(&ir).clean(0));
    }
}

#[test]
fn unknown_divisor_traps() {
    let ir = division_ir(obj(int_ty(), 0));
    assert!(!FnAttrs::analyze(&ir).clean(0));
}

#[test]
fn float_division_does_not_trap() {
    let objects = vec![
        obj(Ty::Tuple(vec![Ty::Float { bits: 32 }, Ty::Float { bits: 32 }]), 0),
        obj(Ty::Float { bits: 32 }, 0),
    ];
    let morphisms = vec![Morphism { op: Operation::Div, source: 0, target: 1 }];
    let ir = build(objects, morphisms, vec![func(vec![0])]);
    assert!(FnAttrs::analyze(&ir).clean(0));
}

#[test]
fn proven_index_is_clean_unproven_is_not() {
    let objects = vec![obj(int_ty(), 0), obj(int_ty(), 0)];
    let morphisms = vec![Morphism { op: Operation::Index, source: 0, target: 1 }];
    let mut ir = build(objects, morphisms, vec![func(vec![0])]);
    assert!(!FnAttrs::analyze(&ir).clean(0));
    ir.funcs[0].proven = vec![0];
    assert!(FnAttrs::analyze(&ir).clean(0));
}

#[test]
fn update_and_print_are_unclean() {
    for op in [Operation::Update, Operation::Print { newline: true }] {
        let objects = vec![obj(int_ty(), 0), obj(int_ty(), 0)];
        let ir = build(objects, vec![Morphism { op, source: 0, target: 1 }], vec![func(vec![0])]);
        assert!(!FnAttrs::analyze(&ir).clean(0));
    }
}

#[test]
fn owning_a_token_is_unclean() {
    let objects = vec![obj(Ty::Tuple(vec![int_ty(), Ty::IoToken]), 0), obj(int_ty(), 1)];
    let ir = build(objects, Vec::new(), vec![func(vec![]), func(vec![])]);
    let attrs = FnAttrs::analyze(&ir);
    assert!(!attrs.clean(0));
    assert!(attrs.clean(1));
}

#[test]
fn uncleanness_and_loops_propagate_to_callers() {
    // f0 calls f1, f1 runs f2 as a map body; f2 divides by an unknown value
    // and f3 loops; f4 runs f3 as a fold body.
    let objects = vec![
        obj(Ty::Tuple(vec![int_ty(), int_ty()]), 2),
        obj(int_ty(), 2),
        obj(int_ty(), 0),
        obj(int_ty(), 1),
        obj(int_ty(), 3),
        obj(int_ty(), 4),
    ];
    let morphisms = vec![
        Morphism { op: Operation::Div, source: 0, target: 1 },
        Morphism { op: Operation::Call(1), source: 2, target: 2 },
        Morphism { op: Operation::MapEach { body: 2, captures: 0 }, source: 3, target: 3 },
        Morphism { op: Operation::LoopEnter, source: 4, target: 4 },
        Morphism { op: Operation::Fold { body: 3, captures: 0 }, source: 5, target: 5 },
    ];
    let funcs = vec![func(vec![1]), func(vec![2]), func(vec![0]), func(vec![3]), func(vec![4])];
    let attrs = FnAttrs::analyze(&build(objects, morphisms, funcs));
    assert!(!attrs.clean(0));
    assert!(!attrs.clean(1));
    assert!(!attrs.clean(2));
    assert!(attrs.clean(3));
    assert!(attrs.clean(4));
    assert!(!attrs.loopy(0));
    assert!(!attrs.loopy(2));
    assert!(attrs.loopy(3));
    assert!(attrs.loopy(4));
}

#[test]
fn call_cycles_are_loopy() {
    // f0 <-> f1 recurse; f2 calls f0; f3 calls itself; f4 is a leaf.
    let objects = (0..5).map(|f| obj(int_ty(), f)).collect::<Vec<_>>();
    let morphisms = vec![
        Morphism { op: Operation::Call(1), source: 0, target: 0 },
        Morphism { op: Operation::Call(0), source: 1, target: 1 },
        Morphism { op: Operation::Call(0), source: 2, target: 2 },
        Morphism { op: Operation::Call(3), source: 3, target: 3 },
    ];
    let funcs = vec![func(vec![0]), func(vec![1]), func(vec![2]), func(vec![3]), func(vec![])];
    let attrs = FnAttrs::analyze(&build(objects, morphisms, funcs));
    for f in 0..4 {
        assert!(attrs.loopy(f), "f{f}");
        assert!(attrs.clean(f), "f{f}");
    }
    assert!(!attrs.loopy(4));
}

#[test]
fn unknown_callee_is_unclean_but_not_loopy() {
    let objects = vec![obj(int_ty(), 0)];
    let morphisms = vec![Morphism { op: Operation::Call(7), source: 0, target: 0 }];
    let attrs = FnAttrs::analyze(&build(objects, morphisms, vec![func(vec![0])]));
    assert!(!attrs.clean(0));
    assert!(!attrs.loopy(0));
}

#[test]
fn unknown_ids_get_the_conservative_answer() {
    let ir = build(Vec::new(), Vec::new(), vec![func(vec![])]);
    let attrs = FnAttrs::analyze(&ir);
    assert!(attrs.clean(0));
    assert!(!attrs.clean(9));
    assert!(attrs.loopy(9));
}
