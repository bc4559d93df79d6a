use lib::emit::EmitPlan;
use lib::emit::{FnEmit, GuardFlavor};
use lib::ir::{CategoryIr, FuncDef, Morphism, Object, ObjectKind, Operation, Ty, Value};
use lib::print::StrGlobal;

/// Object 0 pairs a token with an i32, object 1 with a u8, object 3 with
/// the string literal 2.
fn ir() -> CategoryIr {
    let obj = |ty, kind, value| Object { ty, kind, value, owner: Some(0) };
    let pair = |t| Ty::Tuple(vec![Ty::IoToken, t]);
    CategoryIr {
        objects: vec![
            obj(pair(Ty::Int { bits: 32, signed: true }), ObjectKind::Temporary, None),
            obj(pair(Ty::Int { bits: 8, signed: false }), ObjectKind::Temporary, None),
            obj(Ty::Str, ObjectKind::Constant, Some(Value::Str("hello".to_string()))),
            obj(pair(Ty::Str), ObjectKind::Temporary, None),
        ],
        morphisms: vec![Morphism { op: Operation::Pair { slot: 1 }, source: 2, target: 3 }],
        funcs: vec![FuncDef { morphisms: vec![0], proven: vec![], topo: vec![0] }],
        in_edges: vec![vec![], vec![], vec![], vec![0]],
        out_edges: vec![vec![], vec![], vec![0], vec![]],
    }
}

fn emitter(ir: &CategoryIr) -> FnEmit<'_> {
    let n = ir.objects.len();
    FnEmit {
        ir,
        f: 0,
        slots: vec![None; n],
        frame: None,
        frame_geps: String::new(),
        runtime_write: false,
        allocas: String::new(),
        body: String::new(),
        next: 0,
        guard_flavor: GuardFlavor::Host,
        split_range: false,
        perf_timing: false,
        move_panel: None,
        heap_min_bytes: 256 * 1024,
        heap_ok: false,
        heap_used: false,
        elem: ir.objects.iter().map(|_| None).collect(),
        elided_arrays: vec![false; n],
        elided_updates: vec![false; n],
        update_aliases: vec![None; n],
        host: None,
        plan: EmitPlan { gated: Vec::new(), guard_sites: Vec::new(), tile_plan: None, packing: false, contract: false, kc_nest: false },
    }
}

#[test]
fn print_calls() {
    let ir = ir();
    let mut strings: Vec<Option<StrGlobal>> = (0..4).map(|_| None).collect();
    strings[2] = Some(StrGlobal { name: "@str0".to_string(), bytes: b"hello".to_vec() });
    let mut e = emitter(&ir);
    e.emit_print(0, true, &strings, "%v");
    e.emit_print(1, false, &strings, "%w");
    e.emit_print(3, true, &strings, "");
    assert_eq!(
        e.body,
        [
            "  call void @mapal_print_i32(i32 %v, i1 zeroext true)\n",
            "  call void @mapal_print_u8(i8 zeroext %w, i1 zeroext false)\n",
            "  call void @mapal_print_str(ptr @str0, i64 5, i1 zeroext true)\n",
        ]
        .concat()
    );
}
