use lib::emit::EmitPlan;
use lib::arith::int_min;
use lib::emit::{FnEmit, GuardFlavor};
use lib::ir::{CategoryIr, FuncDef, Morphism, Object, ObjectKind, Operation, Ty, Value};

fn int32(signed: bool) -> Ty {
    Ty::Int { bits: 32, signed }
}

/// Objects: 0 = left operand, 1 = divisor, 2 = the operand pair, 3 = result.
/// The divisor is a constant when `divisor` is given.
fn pair_ir(divisor: Option<Value>) -> CategoryIr {
    let obj = |ty, kind, value| Object { ty, kind, value, owner: Some(0) };
    let d = match divisor {
        Some(v) => obj(int32(true), ObjectKind::Constant, Some(v)),
        None => obj(int32(true), ObjectKind::Input, None),
    };
    CategoryIr {
        objects: vec![
            obj(int32(true), ObjectKind::Input, None),
            d,
            obj(Ty::Tuple(vec![int32(true), int32(true)]), ObjectKind::Temporary, None),
            obj(int32(true), ObjectKind::Temporary, None),
        ],
        morphisms: vec![
            Morphism { op: Operation::Pair { slot: 0 }, source: 0, target: 2 },
            Morphism { op: Operation::Pair { slot: 1 }, source: 1, target: 2 },
            Morphism { op: Operation::Div, source: 2, target: 3 },
        ],
        funcs: vec![FuncDef { morphisms: vec![0, 1, 2], proven: vec![], topo: vec![0, 2, 1] }],
        in_edges: vec![vec![], vec![], vec![0, 1], vec![2]],
        out_edges: vec![vec![0], vec![1], vec![2], vec![]],
    }
}

fn emitter(ir: &CategoryIr) -> FnEmit<'_> {
    let mut slots = vec![None; ir.objects.len()];
    slots[3] = Some("%x".to_string());
    FnEmit {
        ir,
        f: 0,
        slots,
        frame: None,
        frame_geps: String::new(),
        runtime_write: false,
        allocas: String::new(),
        body: String::new(),
        next: 0,
        guard_flavor: GuardFlavor::Host,
        split_range: false,
        perf_timing: false,
        move_panel: None,
        heap_min_bytes: 256 * 1024,
        heap_ok: false,
        heap_used: false,
        elem: ir.objects.iter().map(|_| None).collect(),
        elided_arrays: vec![false; ir.objects.len()],
        elided_updates: vec![false; ir.objects.len()],
        update_aliases: vec![None; ir.objects.len()],
        host: None,
        plan: EmitPlan { gated: Vec::new(), guard_sites: Vec::new(), tile_plan: None, packing: false, contract: false, kc_nest: false },
    }
}

#[test]
fn int_min_literals() {
    assert_eq!(int_min("i32"), "-2147483648");
    assert_eq!(int_min("i64"), "-9223372036854775808");
    assert_eq!(int_min("i8"), "-128");
    assert_eq!(int_min("i32").parse::<i64>().unwrap(), i32::MIN as i64);
    assert_eq!(int_min("i64").parse::<i64>().unwrap(), i64::MIN);
}

#[test]
fn float_arith_has_no_guard() {
    let ir = pair_ir(None);
    let mut e = emitter(&ir);
    e.emit_arith(2, 2, 3, Operation::Div, &Ty::Float { bits: 64 }, "double", "%a", "%b");
    assert_eq!(e.body, "  %t0 = fdiv double %a, %b\n  store double %t0, ptr %x\n");
    assert_eq!(e.next, 1);
}

#[test]
fn integer_add_sub_mul_wrap() {
    let ir = pair_ir(None);
    let mut e = emitter(&ir);
    e.emit_arith(2, 2, 3, Operation::Mul, &int32(true), "i32", "%a", "%b");
    e.emit_arith(2, 2, 3, Operation::Sub, &int32(false), "i32", "%a", "%b");
    assert_eq!(
        e.body,
        "  %t0 = mul i32 %a, %b\n  store i32 %t0, ptr %x\n  %t1 = sub i32 %a, %b\n  store i32 %t1, ptr %x\n"
    );
}

#[test]
fn host_signed_division_guards_zero_and_overflow() {
    let ir = pair_ir(None);
    let mut e = emitter(&ir);
    e.emit_arith(2, 2, 3, Operation::Div, &int32(true), "i32", "%a", "%b");
    assert_eq!(
        e.body,
        [
            "  %t0 = icmp eq i32 %b, 0\n",
            "  br i1 %t0, label %bb1, label %bb2\n",
            "bb1:\n",
            "  call void @mapal_trap(i32 0)\n",
            "  unreachable\n",
            "bb2:\n",
            "  %t3 = icmp eq i32 %b, -1\n",
            "  %t4 = icmp eq i32 %a, -2147483648\n",
            "  %t5 = and i1 %t3, %t4\n",
            "  br i1 %t5, label %bb6, label %bb7\n",
            "bb6:\n",
            "  store i32 -2147483648, ptr %x\n",
            "  br label %bb8\n",
            "bb7:\n",
            "  %t9 = sdiv i32 %a, %b\n",
            "  store i32 %t9, ptr %x\n",
            "  br label %bb8\n",
            "bb8:\n",
        ]
        .concat()
    );
    assert_eq!(e.next, 10);
    assert!(!e.runtime_write);
}

#[test]
fn host_remainder_overflow_stores_zero() {
    let ir = pair_ir(Some(Value::I32(-1)));
    let mut e = emitter(&ir);
    e.emit_arith(2, 2, 3, Operation::Mod, &int32(true), "i32", "%a", "%b");
    assert_eq!(
        e.body,
        [
            "  %t0 = icmp eq i32 %b, -1\n",
            "  %t1 = icmp eq i32 %a, -2147483648\n",
            "  %t2 = and i1 %t0, %t1\n",
            "  br i1 %t2, label %bb3, label %bb4\n",
            "bb3:\n",
            "  store i32 0, ptr %x\n",
            "  br label %bb5\n",
            "bb4:\n",
            "  %t6 = srem i32 %a, %b\n",
            "  store i32 %t6, ptr %x\n",
            "  br label %bb5\n",
            "bb5:\n",
        ]
        .concat()
    );
    assert_eq!(e.next, 7);
}

#[test]
fn literal_divisor_drops_both_guards() {
    let ir = pair_ir(Some(Value::I32(4)));
    let mut e = emitter(&ir);
    e.emit_arith(2, 2, 3, Operation::Div, &int32(true), "i32", "%a", "%b");
    e.emit_arith(2, 2, 3, Operation::Mod, &int32(false), "i32", "%a", "%b");
    assert_eq!(
        e.body,
        "  %t0 = sdiv i32 %a, %b\n  store i32 %t0, ptr %x\n  %t1 = urem i32 %a, %b\n  store i32 %t1, ptr %x\n"
    );
}

#[test]
fn literal_zero_divisor_keeps_the_zero_guard() {
    let ir = pair_ir(Some(Value::I32(0)));
    let mut e = emitter(&ir);
    e.emit_arith(2, 2, 3, Operation::Div, &int32(false), "i32", "%a", "%b");
    assert_eq!(
        e.body,
        [
            "  %t0 = icmp eq i32 %b, 0\n",
            "  br i1 %t0, label %bb1, label %bb2\n",
            "bb1:\n",
            "  call void @mapal_trap(i32 0)\n",
            "  unreachable\n",
            "bb2:\n",
            "  %t3 = udiv i32 %a, %b\n",
            "  store i32 %t3, ptr %x\n",
        ]
        .concat()
    );
}

#[test]
fn task_signed_division_records_and_joins() {
    let ir = pair_ir(None);
    let mut e = emitter(&ir);
    e.guard_flavor = GuardFlavor::Task;
    e.emit_arith(2, 2, 3, Operation::Div, &int32(true), "i32", "%a", "%b");
    assert_eq!(
        e.body,
        [
            "  %t0 = icmp eq i32 %b, 0\n",
            "  br i1 %t0, label %bb1, label %bb2\n",
            "bb1:\n",
            "  call void @mapal_par_trap(i64 1, i32 0)\n",
            "  br label %bb3\n",
            "bb2:\n",
            "  %t4 = icmp eq i32 %b, -1\n",
            "  %t5 = icmp eq i32 %a, -2147483648\n",
            "  %t6 = and i1 %t4, %t5\n",
            "  br i1 %t6, label %bb7, label %bb8\n",
            "bb7:\n",
            "  br label %bb9\n",
            "bb8:\n",
            "  %t10 = sdiv i32 %a, %b\n",
            "  br label %bb9\n",
            "bb9:\n",
            "  %t11 = phi i32 [-2147483648, %bb7], [%t10, %bb8]\n",
            "  br label %bb3\n",
            "bb3:\n",
            "  %t12 = phi i32 [0, %bb1], [%t11, %bb9]\n",
            "  store i32 %t12, ptr %x\n",
        ]
        .concat()
    );
    assert_eq!(e.next, 13);
    assert!(e.runtime_write);
}

#[test]
fn task_body_unsigned_remainder() {
    let ir = pair_ir(None);
    let mut e = emitter(&ir);
    e.guard_flavor = GuardFlavor::TaskBody(7);
    e.emit_task_div(2, 3, Operation::Mod, "i64", "%a", "%b", false, false);
    assert_eq!(
        e.body,
        [
            "  %t0 = icmp eq i64 %b, 0\n",
            "  br i1 %t0, label %bb1, label %bb2\n",
            "bb1:\n",
            "  call void @mapal_par_trap(i64 7, i32 0)\n",
            "  br label %bb3\n",
            "bb2:\n",
            "  %t4 = urem i64 %a, %b\n",
            "  br label %bb3\n",
            "bb3:\n",
            "  %t5 = phi i64 [0, %bb1], [%t4, %bb2]\n",
            "  store i64 %t5, ptr %x\n",
        ]
        .concat()
    );
    assert_eq!(e.next, 6);
}

#[test]
fn task_with_literal_divisor_uses_the_host_lowering() {
    let ir = pair_ir(Some(Value::I32(3)));
    let mut e = emitter(&ir);
    e.guard_flavor = GuardFlavor::Task;
    e.emit_arith(2, 2, 3, Operation::Div, &int32(true), "i32", "%a", "%b");
    assert_eq!(e.body, "  %t0 = sdiv i32 %a, %b\n  store i32 %t0, ptr %x\n");
    assert!(!e.runtime_write);
}

#[test]
fn comparisons_pick_their_predicates() {
    let ir = pair_ir(None);
    let mut e = emitter(&ir);
    e.emit_compare(3, Operation::Neq, &Ty::Float { bits: 32 }, "float", "%a", "%b");
    e.emit_compare(3, Operation::Lt, &int32(false), "i32", "%a", "%b");
    e.emit_compare(3, Operation::Ge, &int32(true), "i32", "%a", "%b");
    e.emit_compare(3, Operation::Eq, &Ty::Bool, "i1", "%a", "%b");
    assert_eq!(
        e.body,
        [
            "  %t0 = fcmp une float %a, %b\n",
            "  store i1 %t0, ptr %x\n",
            "  %t1 = icmp ult i32 %a, %b\n",
            "  store i1 %t1, ptr %x\n",
            "  %t2 = icmp sge i32 %a, %b\n",
            "  store i1 %t2, ptr %x\n",
            "  %t3 = icmp eq i1 %a, %b\n",
            "  store i1 %t3, ptr %x\n",
        ]
        .concat()
    );
}
