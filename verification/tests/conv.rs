use lib::emit::EmitPlan;
use lib::conv::ConvTileCtx;
use lib::emit::{FnEmit, GuardFlavor};
use lib::ir::{CategoryIr, Ty, Value};
use lib::site::{KSplit, TileRead, TileSite};

fn empty_ir() -> CategoryIr {
    CategoryIr { objects: Vec::new(), morphisms: Vec::new(), funcs: Vec::new(), in_edges: Vec::new(), out_edges: Vec::new() }
}

fn emitter(ir: &CategoryIr) -> FnEmit<'_> {
    FnEmit {
        ir,
        f: 0,
        slots: Vec::new(),
        frame: None,
        frame_geps: String::new(),
        runtime_write: false,
        allocas: String::new(),
        body: String::new(),
        next: 0,
        guard_flavor: GuardFlavor::Host,
        split_range: false,
        perf_timing: false,
        move_panel: None,
        heap_min_bytes: 256 * 1024,
        heap_ok: false,
        heap_used: false,
        elem: Vec::new(),
        elided_arrays: Vec::new(),
        elided_updates: Vec::new(),
        update_aliases: Vec::new(),
        host: None,
        plan: EmitPlan { gated: Vec::new(), guard_sites: Vec::new(), tile_plan: None, packing: false, contract: false, kc_nest: false },
    }
}

fn conv_ctx(contract_flag: &'static str) -> ConvTileCtx {
    let s = |x: &str| x.to_string();
    ConvTileCtx {
        tile_j: 4,
        acc: s("%acc"),
        acc_llt: s("[4 x float]"),
        elem_llt: s("float"),
        seed: s("0.0"),
        mul_op: "fmul",
        add_op: "fadd",
        a_ptr: s("%a"),
        b_ptr: s("%b"),
        out_ptr: s("%out"),
        a_llt: s("[8 x float]"),
        b_llt: s("[16 x float]"),
        out_llt: s("[8 x float]"),
        lane_ctr: s("%lane"),
        contract_flag,
    }
}

fn conv_site(k: u64, div: u64, cq: u64, cr: u64, mul_a_first: bool, add_acc_first: bool) -> TileSite {
    TileSite {
        rows: 1,
        c: 8,
        k,
        elem: Ty::Float { bits: 32 },
        a: TileRead { slot: 0, base: 0, ci: 0, ck: 1, clane: 0, ksplit: None },
        b: TileRead { slot: 1, base: 0, ci: 0, ck: 0, clane: 1, ksplit: Some(KSplit { div, cq, cr }) },
        seed: Value::F32(0),
        mul_a_first,
        add_acc_first,
    }
}

#[test]
fn conv_tile_runtime_width_keeps_memory_accumulator() {
    let ir = empty_ir();
    let mut e = emitter(&ir);
    let a_row = Some("%ar".to_string());
    let b_row = Some("%br".to_string());
    e.emit_tile_conv_tile(&conv_site(2, 2, 10, 3, true, true), &conv_ctx(""), "%j0", "%r0", &a_row, &b_row, "%tj");
    let expected = [
        "  store i64 0, ptr %lane\n",
        "  br label %bb0\n",
        "bb0:\n",
        "  %t3 = load i64, ptr %lane\n",
        "  %t4 = icmp uge i64 %t3, %tj\n",
        "  br i1 %t4, label %bb2, label %bb1\n",
        "bb1:\n",
        "  %t5 = getelementptr [4 x float], ptr %acc, i64 0, i64 %t3\n",
        "  store float 0.0, ptr %t5\n",
        "  %t6 = add i64 %t3, 1\n",
        "  store i64 %t6, ptr %lane\n",
        "  br label %bb0\n",
        "bb2:\n",
        "  %t7 = add i64 %br, %j0\n",
        "  %t8 = add i64 %ar, 0\n",
        "  %t9 = getelementptr [8 x float], ptr %a, i64 0, i64 %t8\n",
        "  %t10 = load float, ptr %t9\n",
        "  store i64 0, ptr %lane\n",
        "  br label %bb11\n",
        "bb11:\n",
        "  %t14 = load i64, ptr %lane\n",
        "  %t15 = icmp uge i64 %t14, %tj\n",
        "  br i1 %t15, label %bb13, label %bb12\n",
        "bb12:\n",
        "  %t16 = add i64 %t7, %t14\n",
        "  %t17 = getelementptr [16 x float], ptr %b, i64 0, i64 %t16\n",
        "  %t18 = load float, ptr %t17\n",
        "  %t19 = fmul float %t10, %t18\n",
        "  %t20 = getelementptr [4 x float], ptr %acc, i64 0, i64 %t14\n",
        "  %t21 = load float, ptr %t20\n",
        "  %t22 = fadd float %t21, %t19\n",
        "  store float %t22, ptr %t20\n",
        "  %t23 = add i64 %t14, 1\n",
        "  store i64 %t23, ptr %lane\n",
        "  br label %bb11\n",
        "bb13:\n",
        "  %t24 = add i64 %ar, 1\n",
        "  %t25 = getelementptr [8 x float], ptr %a, i64 0, i64 %t24\n",
        "  %t26 = load float, ptr %t25\n",
        "  %t27 = add i64 %t7, 3\n",
        "  store i64 0, ptr %lane\n",
        "  br label %bb28\n",
        "bb28:\n",
        "  %t31 = load i64, ptr %lane\n",
        "  %t32 = icmp uge i64 %t31, %tj\n",
        "  br i1 %t32, label %bb30, label %bb29\n",
        "bb29:\n",
        "  %t33 = add i64 %t27, %t31\n",
        "  %t34 = getelementptr [16 x float], ptr %b, i64 0, i64 %t33\n",
        "  %t35 = load float, ptr %t34\n",
        "  %t36 = fmul float %t26, %t35\n",
        "  %t37 = getelementptr [4 x float], ptr %acc, i64 0, i64 %t31\n",
        "  %t38 = load float, ptr %t37\n",
        "  %t39 = fadd float %t38, %t36\n",
        "  store float %t39, ptr %t37\n",
        "  %t40 = add i64 %t31, 1\n",
        "  store i64 %t40, ptr %lane\n",
        "  br label %bb28\n",
        "bb30:\n",
        "  %t41 = add i64 %r0, %j0\n",
        "  store i64 0, ptr %lane\n",
        "  br label %bb42\n",
        "bb42:\n",
        "  %t45 = load i64, ptr %lane\n",
        "  %t46 = icmp uge i64 %t45, %tj\n",
        "  br i1 %t46, label %bb44, label %bb43\n",
        "bb43:\n",
        "  %t47 = getelementptr [4 x float], ptr %acc, i64 0, i64 %t45\n",
        "  %t48 = load float, ptr %t47\n",
        "  %t49 = add i64 %t41, %t45\n",
        "  %t50 = getelementptr [8 x float], ptr %out, i64 0, i64 %t49\n",
        "  store float %t48, ptr %t50\n",
        "  %t51 = add i64 %t45, 1\n",
        "  store i64 %t51, ptr %lane\n",
        "  br label %bb42\n",
        "bb44:\n",
    ]
    .concat();
    assert_eq!(e.body, expected);
    assert_eq!(e.next, 52);
}

#[test]
fn conv_tile_constant_width_runs_on_vectors() {
    let ir = empty_ir();
    let mut e = emitter(&ir);
    e.emit_tile_conv_tile(
        &conv_site(4, 2, 10, 1, false, false),
        &conv_ctx(" contract"),
        "%j0",
        "%r0",
        &None,
        &None,
        "4",
    );
    let expected = [
        "  %t0 = insertelement <4 x float> poison, float 0.0, i64 0\n",
        "  %t1 = shufflevector <4 x float> %t0, <4 x float> poison, <4 x i32> zeroinitializer\n",
        "  %t2 = getelementptr [8 x float], ptr %a, i64 0, i64 0\n",
        "  %t3 = load float, ptr %t2\n",
        "  %t4 = insertelement <4 x float> poison, float %t3, i64 0\n",
        "  %t5 = shufflevector <4 x float> %t4, <4 x float> poison, <4 x i32> zeroinitializer\n",
        "  %t6 = getelementptr [16 x float], ptr %b, i64 0, i64 %j0\n",
        "  %t7 = load <4 x float>, ptr %t6, align 4\n",
        "  %t8 = fmul contract <4 x float> %t7, %t5\n",
        "  %t9 = fadd contract <4 x float> %t8, %t1\n",
        "  %t10 = getelementptr [8 x float], ptr %a, i64 0, i64 1\n",
        "  %t11 = load float, ptr %t10\n",
        "  %t12 = insertelement <4 x float> poison, float %t11, i64 0\n",
        "  %t13 = shufflevector <4 x float> %t12, <4 x float> poison, <4 x i32> zeroinitializer\n",
        "  %t14 = add i64 %j0, 1\n",
        "  %t15 = getelementptr [16 x float], ptr %b, i64 0, i64 %t14\n",
        "  %t16 = load <4 x float>, ptr %t15, align 4\n",
        "  %t17 = fmul contract <4 x float> %t16, %t13\n",
        "  %t18 = fadd contract <4 x float> %t17, %t9\n",
        "  %t19 = getelementptr [8 x float], ptr %a, i64 0, i64 2\n",
        "  %t20 = load float, ptr %t19\n",
        "  %t21 = insertelement <4 x float> poison, float %t20, i64 0\n",
        "  %t22 = shufflevector <4 x float> %t21, <4 x float> poison, <4 x i32> zeroinitializer\n",
        "  %t23 = add i64 %j0, 10\n",
        "  %t24 = getelementptr [16 x float], ptr %b, i64 0, i64 %t23\n",
        "  %t25 = load <4 x float>, ptr %t24, align 4\n",
        "  %t26 = fmul contract <4 x float> %t25, %t22\n",
        "  %t27 = fadd contract <4 x float> %t26, %t18\n",
        "  %t28 = getelementptr [8 x float], ptr %a, i64 0, i64 3\n",
        "  %t29 = load float, ptr %t28\n",
        "  %t30 = insertelement <4 x float> poison, float %t29, i64 0\n",
        "  %t31 = shufflevector <4 x float> %t30, <4 x float> poison, <4 x i32> zeroinitializer\n",
        "  %t32 = add i64 %j0, 11\n",
        "  %t33 = getelementptr [16 x float], ptr %b, i64 0, i64 %t32\n",
        "  %t34 = load <4 x float>, ptr %t33, align 4\n",
        "  %t35 = fmul contract <4 x float> %t34, %t31\n",
        "  %t36 = fadd contract <4 x float> %t35, %t27\n",
        "  %t37 = add i64 %r0, %j0\n",
        "  %t38 = getelementptr [8 x float], ptr %out, i64 0, i64 %t37\n",
        "  store <4 x float> %t36, ptr %t38, align 4\n",
    ]
    .concat();
    assert_eq!(e.body, expected);
    assert_eq!(e.next, 39);
}

#[test]
fn conv_tile_vec_matches_the_dispatched_form() {
    let ir = empty_ir();
    let site = conv_site(2, 1, 5, 0, true, true);
    let mut direct = emitter(&ir);
    direct.emit_tile_conv_tile_vec(&site, &conv_ctx(""), "%j0", "%r0", &None, &None);
    let mut dispatched = emitter(&ir);
    dispatched.emit_tile_conv_tile(&site, &conv_ctx(""), "%j0", "%r0", &None, &None, "+4");
    assert_eq!(direct.body, dispatched.body);
    assert!(direct.body.contains("%t14 = add i64 %j0, 5\n"));
}
