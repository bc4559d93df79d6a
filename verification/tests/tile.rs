use lib::emit::EmitPlan;
use lib::emit::{FnEmit, GuardFlavor, TileCtx};
use lib::ir::{CategoryIr, Ty, Value};
use lib::site::{TileRead, TileSite};

fn empty_ir() -> CategoryIr {
    CategoryIr { objects: Vec::new(), morphisms: Vec::new(), funcs: Vec::new(), in_edges: Vec::new(), out_edges: Vec::new() }
}

fn emitter(ir: &CategoryIr) -> FnEmit<'_> {
    FnEmit {
        ir,
        f: 0,
        slots: Vec::new(),
        frame: None,
        frame_geps: String::new(),
        runtime_write: false,
        allocas: String::new(),
        body: String::new(),
        next: 0,
        guard_flavor: GuardFlavor::Host,
        split_range: false,
        perf_timing: false,
        move_panel: None,
        heap_min_bytes: 256 * 1024,
        heap_ok: false,
        heap_used: false,
        elem: Vec::new(),
        elided_arrays: Vec::new(),
        elided_updates: Vec::new(),
        update_aliases: Vec::new(),
        host: None,
        plan: EmitPlan { gated: Vec::new(), guard_sites: Vec::new(), tile_plan: None, packing: false, contract: false, kc_nest: false },
    }
}

fn ctx(tile_i: u64) -> TileCtx {
    let s = |x: &str| x.to_string();
    TileCtx {
        acc: s("%acc"),
        acc_llt: s("[4 x float]"),
        elem_llt: s("float"),
        seed: s("0.0"),
        mul_op: "fmul",
        add_op: "fadd",
        a_ptr: s("%a"),
        b_ptr: s("%b"),
        out_ptr: s("%out"),
        a_llt: s("[8 x float]"),
        b_llt: s("[16 x float]"),
        out_llt: s("[8 x float]"),
        k_ctr: s("%k"),
        lane_ctr: s("%lane"),
        tile_j: 4,
        tile_i,
        tile_kc: 128,
        packed: None,
        contract_flag: "",
    }
}

fn site(k: u64, mul_a_first: bool, add_acc_first: bool) -> TileSite {
    let read = |ck| TileRead { slot: 0, base: 0, ci: 0, ck, clane: 1, ksplit: None };
    TileSite {
        rows: 1,
        c: 8,
        k,
        elem: Ty::Float { bits: 32 },
        a: read(1),
        b: read(4),
        seed: Value::F32(0),
        mul_a_first,
        add_acc_first,
    }
}

#[test]
fn window_block_single_row_odd_k() {
    let ir = empty_ir();
    let mut e = emitter(&ir);
    e.emit_tile_window_block(&site(3, true, true), &ctx(1), "%jb", &None);
    let expected = [
        "  store i64 0, ptr %lane\n",
        "  br label %bb0\n",
        "bb0:\n",
        "  %t3 = load i64, ptr %lane\n",
        "  %t4 = icmp uge i64 %t3, 4\n",
        "  br i1 %t4, label %bb2, label %bb1\n",
        "bb1:\n",
        "  %t5 = getelementptr [4 x float], ptr %acc, i64 0, i64 %t3\n",
        "  store float 0.0, ptr %t5\n",
        "  %t6 = add i64 %t3, 1\n",
        "  store i64 %t6, ptr %lane\n",
        "  br label %bb0\n",
        "bb2:\n",
        "  store i64 0, ptr %k\n",
        "  br label %bb7\n",
        "bb7:\n",
        "  %t10 = load i64, ptr %k\n",
        "  %t11 = icmp uge i64 %t10, 3\n",
        "  br i1 %t11, label %bb9, label %bb8\n",
        "bb8:\n",
        "  %t12 = getelementptr [8 x float], ptr %a, i64 0, i64 %t10\n",
        "  %t13 = load float, ptr %t12\n",
        "  %t14 = mul i64 %t10, 4\n",
        "  %t15 = add i64 %t14, %jb\n",
        "  store i64 0, ptr %lane\n",
        "  br label %bb16\n",
        "bb16:\n",
        "  %t19 = load i64, ptr %lane\n",
        "  %t20 = icmp uge i64 %t19, 4\n",
        "  br i1 %t20, label %bb18, label %bb17\n",
        "bb17:\n",
        "  %t21 = add i64 %t15, %t19\n",
        "  %t22 = getelementptr [16 x float], ptr %b, i64 0, i64 %t21\n",
        "  %t23 = load float, ptr %t22\n",
        "  %t24 = fmul float %t13, %t23\n",
        "  %t25 = getelementptr [4 x float], ptr %acc, i64 0, i64 %t19\n",
        "  %t26 = load float, ptr %t25\n",
        "  %t27 = fadd float %t26, %t24\n",
        "  store float %t27, ptr %t25\n",
        "  %t28 = add i64 %t19, 1\n",
        "  store i64 %t28, ptr %lane\n",
        "  br label %bb16\n",
        "bb18:\n",
        "  %t29 = add i64 %t10, 1\n",
        "  store i64 %t29, ptr %k\n",
        "  br label %bb7\n",
        "bb9:\n",
        "  store i64 0, ptr %lane\n",
        "  br label %bb30\n",
        "bb30:\n",
        "  %t33 = load i64, ptr %lane\n",
        "  %t34 = icmp uge i64 %t33, 4\n",
        "  br i1 %t34, label %bb32, label %bb31\n",
        "bb31:\n",
        "  %t35 = getelementptr [4 x float], ptr %acc, i64 0, i64 %t33\n",
        "  %t36 = load float, ptr %t35\n",
        "  %t37 = add i64 %jb, %t33\n",
        "  %t38 = getelementptr [8 x float], ptr %out, i64 0, i64 %t37\n",
        "  store float %t36, ptr %t38\n",
        "  %t39 = add i64 %t33, 1\n",
        "  store i64 %t39, ptr %lane\n",
        "  br label %bb30\n",
        "bb32:\n",
    ]
    .concat();
    assert_eq!(e.body, expected);
    assert_eq!(e.next, 40);
}

#[test]
fn window_block_even_k_pairs_steps() {
    let ir = empty_ir();
    let mut e = emitter(&ir);
    e.emit_tile_window_block(&site(4, false, false), &ctx(2), "%jb", &Some("8".to_string()));
    let body = &e.body;
    // Two subrows: seed and store sweeps at accumulator offset 4 for the second.
    assert_eq!(body.matches("store float 0.0").count(), 2);
    // Three window steps (the pair and the tail), each with two subrows.
    assert_eq!(body.matches("fmul float").count(), 6);
    assert_eq!(body.matches("icmp ult i64").count(), 2);
    // Operands in the source's order: b * a, then product + acc.
    assert!(body.contains("= fmul float %t"));
    // The first step reads `a[8 + k]`.
    assert!(body.contains("%t23 = add i64 8, %t18\n"));
    assert!(body.contains("add i64 %jb, 4\n"));
}
