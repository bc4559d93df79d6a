use lib::emit::EmitPlan;
use lib::emit::{FnEmit, GuardFlavor, PackedBuffer, TileCtx};
use lib::ir::{CategoryIr, Ty, Value};
use lib::site::{TileRead, TileSite};

fn empty_ir() -> CategoryIr {
    CategoryIr { objects: Vec::new(), morphisms: Vec::new(), funcs: Vec::new(), in_edges: Vec::new(), out_edges: Vec::new() }
}

fn emitter(ir: &CategoryIr) -> FnEmit<'_> {
    FnEmit {
        ir,
        f: 0,
        slots: Vec::new(),
        frame: None,
        frame_geps: String::new(),
        runtime_write: false,
        allocas: String::new(),
        body: String::new(),
        next: 0,
        guard_flavor: GuardFlavor::Host,
        split_range: false,
        perf_timing: false,
        move_panel: None,
        heap_min_bytes: 256 * 1024,
        heap_ok: false,
        heap_used: false,
        elem: Vec::new(),
        elided_arrays: Vec::new(),
        elided_updates: Vec::new(),
        update_aliases: Vec::new(),
        host: None,
        plan: EmitPlan { gated: Vec::new(), guard_sites: Vec::new(), tile_plan: None, packing: false, contract: false, kc_nest: false },
    }
}

fn trio_ctx(tile_i: u64, packed: Option<PackedBuffer>) -> TileCtx {
    let s = |x: &str| x.to_string();
    TileCtx {
        acc: s("%acc"),
        acc_llt: s("[4 x float]"),
        elem_llt: s("float"),
        seed: s("0.0"),
        mul_op: "fmul",
        add_op: "fadd",
        a_ptr: s("%a"),
        b_ptr: s("%b"),
        out_ptr: s("%out"),
        a_llt: s("[8 x float]"),
        b_llt: s("[16 x float]"),
        out_llt: s("[8 x float]"),
        k_ctr: s("%k"),
        lane_ctr: s("%lane"),
        tile_j: 4,
        tile_i,
        tile_kc: 8,
        packed,
        contract_flag: "",
    }
}

fn trio_site(k: u64) -> TileSite {
    let read = |ck| TileRead { slot: 0, base: 0, ci: 0, ck, clane: 1, ksplit: None };
    TileSite {
        rows: 2,
        c: 8,
        k,
        elem: Ty::Float { bits: 32 },
        a: read(1),
        b: read(4),
        seed: Value::F32(0),
        mul_a_first: true,
        add_acc_first: true,
    }
}

#[test]
fn trio_remainder_tile_keeps_one_step_k_loop() {
    let ir = empty_ir();
    let mut e = emitter(&ir);
    let a_rows = [Some("%ar".to_string())];
    e.emit_tile_trio(&trio_site(2), &trio_ctx(2, None), "%j0", "%r0", &a_rows, &Some("%br".to_string()), "%tj", false, None, None);
    let expected = [
        "  store i64 0, ptr %lane\n",
        "  br label %bb0\n",
        "bb0:\n",
        "  %t3 = load i64, ptr %lane\n",
        "  %t4 = icmp uge i64 %t3, %tj\n",
        "  br i1 %t4, label %bb2, label %bb1\n",
        "bb1:\n",
        "  %t5 = getelementptr [4 x float], ptr %acc, i64 0, i64 %t3\n",
        "  store float 0.0, ptr %t5\n",
        "  %t6 = add i64 %t3, 1\n",
        "  store i64 %t6, ptr %lane\n",
        "  br label %bb0\n",
        "bb2:\n",
        "  store i64 0, ptr %k\n",
        "  br label %bb7\n",
        "bb7:\n",
        "  %t10 = load i64, ptr %k\n",
        "  %t11 = icmp uge i64 %t10, 2\n",
        "  br i1 %t11, label %bb9, label %bb8\n",
        "bb8:\n",
        "  %t12 = add i64 %ar, %t10\n",
        "  %t13 = getelementptr [8 x float], ptr %a, i64 0, i64 %t12\n",
        "  %t14 = load float, ptr %t13\n",
        "  store i64 0, ptr %lane\n",
        "  br label %bb15\n",
        "bb15:\n",
        "  %t18 = load i64, ptr %lane\n",
        "  %t19 = icmp uge i64 %t18, %tj\n",
        "  br i1 %t19, label %bb17, label %bb16\n",
        "bb16:\n",
        "  %t20 = mul i64 %t10, 4\n",
        "  %t21 = add i64 %br, %t20\n",
        "  %t22 = add i64 %t21, %j0\n",
        "  %t23 = add i64 %t22, %t18\n",
        "  %t24 = getelementptr [16 x float], ptr %b, i64 0, i64 %t23\n",
        "  %t25 = load float, ptr %t24\n",
        "  %t26 = fmul float %t14, %t25\n",
        "  %t27 = getelementptr [4 x float], ptr %acc, i64 0, i64 %t18\n",
        "  %t28 = load float, ptr %t27\n",
        "  %t29 = fadd float %t28, %t26\n",
        "  store float %t29, ptr %t27\n",
        "  %t30 = add i64 %t18, 1\n",
        "  store i64 %t30, ptr %lane\n",
        "  br label %bb15\n",
        "bb17:\n",
        "  %t31 = add i64 %t10, 1\n",
        "  store i64 %t31, ptr %k\n",
        "  br label %bb7\n",
        "bb9:\n",
        "  %t32 = add i64 %r0, %j0\n",
        "  store i64 0, ptr %lane\n",
        "  br label %bb33\n",
        "bb33:\n",
        "  %t36 = load i64, ptr %lane\n",
        "  %t37 = icmp uge i64 %t36, %tj\n",
        "  br i1 %t37, label %bb35, label %bb34\n",
        "bb34:\n",
        "  %t38 = getelementptr [4 x float], ptr %acc, i64 0, i64 %t36\n",
        "  %t39 = load float, ptr %t38\n",
        "  %t40 = add i64 %t32, %t36\n",
        "  %t41 = getelementptr [8 x float], ptr %out, i64 0, i64 %t40\n",
        "  store float %t39, ptr %t41\n",
        "  %t42 = add i64 %t36, 1\n",
        "  store i64 %t42, ptr %lane\n",
        "  br label %bb33\n",
        "bb35:\n",
    ]
    .concat();
    assert_eq!(e.body, expected);
    assert_eq!(e.next, 43);
}

#[test]
fn trio_main_tile_carries_accumulators_in_phis() {
    let ir = empty_ir();
    let mut e = emitter(&ir);
    let a_rows = [None];
    e.emit_tile_trio(&trio_site(3), &trio_ctx(1, None), "%j0", "%r0", &a_rows, &None, "4", true, None, None);
    let expected = [
        "  %t0 = insertelement <4 x float> poison, float 0.0, i64 0\n",
        "  %t1 = shufflevector <4 x float> %t0, <4 x float> poison, <4 x i32> zeroinitializer\n",
        "  br label %bb2\n",
        "bb2:\n",
        "  store i64 0, ptr %k\n",
        "  br label %bb3\n",
        "bb3:\n",
        "  %t9 = phi <4 x float> [ %t1, %bb2 ], [ %t8, %bb4 ]\n",
        "  %t10 = load i64, ptr %k\n",
        "  %t11 = add i64 %t10, 1\n",
        "  %t12 = icmp ult i64 %t11, 3\n",
        "  br i1 %t12, label %bb4, label %bb5\n",
        "bb4:\n",
        "  %t13 = getelementptr [8 x float], ptr %a, i64 0, i64 %t10\n",
        "  %t14 = load float, ptr %t13\n",
        "  %t15 = mul i64 %t10, 4\n",
        "  %t16 = add i64 %t15, %j0\n",
        "  %t17 = getelementptr [16 x float], ptr %b, i64 0, i64 %t16\n",
        "  %t18 = load <4 x float>, ptr %t17, align 4\n",
        "  %t19 = insertelement <4 x float> poison, float %t14, i64 0\n",
        "  %t20 = shufflevector <4 x float> %t19, <4 x float> poison, <4 x i32> zeroinitializer\n",
        "  %t21 = fmul <4 x float> %t20, %t18\n",
        "  %t22 = fadd <4 x float> %t9, %t21\n",
        "  %t23 = getelementptr [8 x float], ptr %a, i64 0, i64 %t11\n",
        "  %t24 = load float, ptr %t23\n",
        "  %t25 = mul i64 %t11, 4\n",
        "  %t26 = add i64 %t25, %j0\n",
        "  %t27 = getelementptr [16 x float], ptr %b, i64 0, i64 %t26\n",
        "  %t28 = load <4 x float>, ptr %t27, align 4\n",
        "  %t29 = insertelement <4 x float> poison, float %t24, i64 0\n",
        "  %t30 = shufflevector <4 x float> %t29, <4 x float> poison, <4 x i32> zeroinitializer\n",
        "  %t31 = fmul <4 x float> %t30, %t28\n",
        "  %t8 = fadd <4 x float> %t22, %t31\n",
        "  %t32 = add i64 %t10, 2\n",
        "  store i64 %t32, ptr %k\n",
        "  br label %bb3\n",
        "bb5:\n",
        "  %t33 = icmp ult i64 %t10, 3\n",
        "  br i1 %t33, label %bb6, label %bb7\n",
        "bb6:\n",
        "  %t34 = getelementptr [8 x float], ptr %a, i64 0, i64 %t10\n",
        "  %t35 = load float, ptr %t34\n",
        "  %t36 = mul i64 %t10, 4\n",
        "  %t37 = add i64 %t36, %j0\n",
        "  %t38 = getelementptr [16 x float], ptr %b, i64 0, i64 %t37\n",
        "  %t39 = load <4 x float>, ptr %t38, align 4\n",
        "  %t40 = insertelement <4 x float> poison, float %t35, i64 0\n",
        "  %t41 = shufflevector <4 x float> %t40, <4 x float> poison, <4 x i32> zeroinitializer\n",
        "  %t42 = fmul <4 x float> %t41, %t39\n",
        "  %t43 = fadd <4 x float> %t9, %t42\n",
        "  br label %bb7\n",
        "bb7:\n",
        "  %t44 = phi <4 x float> [ %t9, %bb5 ], [ %t43, %bb6 ]\n",
        "  %t45 = add i64 %r0, %j0\n",
        "  %t46 = getelementptr [8 x float], ptr %out, i64 0, i64 %t45\n",
        "  store <4 x float> %t44, ptr %t46, align 4\n",
    ]
    .concat();
    assert_eq!(e.body, expected);
    assert_eq!(e.next, 47);
}

#[test]
fn kc_trio_later_panel_reloads_and_spills() {
    let ir = empty_ir();
    let mut e = emitter(&ir);
    let s = |x: &str| x.to_string();
    let packed = PackedBuffer { ptr: s("%bp"), llt: s("[64 x float]") };
    let apack = PackedBuffer { ptr: s("%ap"), llt: s("[32 x float]") };
    e.emit_tile_kc_trio(
        &trio_site(2),
        &trio_ctx(2, Some(packed)),
        &apack,
        "%j0",
        "%ab",
        "%r0",
        1,
        "%tj",
        false,
        "%pb",
        None,
        "%klo",
        "%khi",
        false,
    );
    let expected = [
        "  %t0 = add i64 %r0, %j0\n",
        "  store i64 0, ptr %lane\n",
        "  br label %bb1\n",
        "bb1:\n",
        "  %t4 = load i64, ptr %lane\n",
        "  %t5 = icmp uge i64 %t4, %tj\n",
        "  br i1 %t5, label %bb3, label %bb2\n",
        "bb2:\n",
        "  %t6 = add i64 %t4, %ab\n",
        "  %t7 = getelementptr [4 x float], ptr %acc, i64 0, i64 %t6\n",
        "  %t8 = add i64 %t0, %t4\n",
        "  %t9 = getelementptr [8 x float], ptr %out, i64 0, i64 %t8\n",
        "  %t10 = load float, ptr %t9\n",
        "  store float %t10, ptr %t7\n",
        "  %t11 = add i64 %t4, 1\n",
        "  store i64 %t11, ptr %lane\n",
        "  br label %bb1\n",
        "bb3:\n",
        "  store i64 %klo, ptr %k\n",
        "  br label %bb12\n",
        "bb12:\n",
        "  %t15 = load i64, ptr %k\n",
        "  %t16 = icmp uge i64 %t15, %khi\n",
        "  br i1 %t16, label %bb14, label %bb13\n",
        "bb13:\n",
        "  %t17 = sub i64 %t15, %klo\n",
        "  %t18 = getelementptr [32 x float], ptr %ap, i64 0, i64 %t17\n",
        "  %t19 = load float, ptr %t18\n",
        "  store i64 0, ptr %lane\n",
        "  br label %bb20\n",
        "bb20:\n",
        "  %t23 = load i64, ptr %lane\n",
        "  %t24 = icmp uge i64 %t23, %tj\n",
        "  br i1 %t24, label %bb22, label %bb21\n",
        "bb21:\n",
        "  %t25 = mul i64 %t15, 4\n",
        "  %t26 = add i64 %pb, %t25\n",
        "  %t27 = add i64 %t26, %t23\n",
        "  %t28 = getelementptr [64 x float], ptr %bp, i64 0, i64 %t27\n",
        "  %t29 = load float, ptr %t28\n",
        "  %t30 = fmul float %t19, %t29\n",
        "  %t31 = add i64 %t23, %ab\n",
        "  %t32 = getelementptr [4 x float], ptr %acc, i64 0, i64 %t31\n",
        "  %t33 = load float, ptr %t32\n",
        "  %t34 = fadd float %t33, %t30\n",
        "  store float %t34, ptr %t32\n",
        "  %t35 = add i64 %t23, 1\n",
        "  store i64 %t35, ptr %lane\n",
        "  br label %bb20\n",
        "bb22:\n",
        "  %t36 = add i64 %t15, 1\n",
        "  store i64 %t36, ptr %k\n",
        "  br label %bb12\n",
        "bb14:\n",
        "  store i64 0, ptr %lane\n",
        "  br label %bb37\n",
        "bb37:\n",
        "  %t40 = load i64, ptr %lane\n",
        "  %t41 = icmp uge i64 %t40, %tj\n",
        "  br i1 %t41, label %bb39, label %bb38\n",
        "bb38:\n",
        "  %t42 = add i64 %t40, %ab\n",
        "  %t43 = getelementptr [4 x float], ptr %acc, i64 0, i64 %t42\n",
        "  %t44 = load float, ptr %t43\n",
        "  %t45 = add i64 %t0, %t40\n",
        "  %t46 = getelementptr [8 x float], ptr %out, i64 0, i64 %t45\n",
        "  store float %t44, ptr %t46\n",
        "  %t47 = add i64 %t40, 1\n",
        "  store i64 %t47, ptr %lane\n",
        "  br label %bb37\n",
        "bb39:\n",
    ]
    .concat();
    assert_eq!(e.body, expected);
    assert_eq!(e.next, 48);
}

#[test]
fn kc_a_values_read_the_packed_panel_by_subrow() {
    let ir = empty_ir();
    let mut e = emitter(&ir);
    let s = |x: &str| x.to_string();
    let apack = PackedBuffer { ptr: s("%ap"), llt: s("[32 x float]") };
    let v = e.emit_tile_kc_a_values(&trio_ctx(2, None), &apack, 2, "%ko");
    assert_eq!(v, vec![s("%t1"), s("%t4")]);
    let expected = [
        "  %t0 = getelementptr [32 x float], ptr %ap, i64 0, i64 %ko\n",
        "  %t1 = load float, ptr %t0\n",
        "  %t2 = add i64 %ko, 8\n",
        "  %t3 = getelementptr [32 x float], ptr %ap, i64 0, i64 %t2\n",
        "  %t4 = load float, ptr %t3\n",
    ]
    .concat();
    assert_eq!(e.body, expected);
}

#[test]
fn vec_out_ptrs_step_by_output_rows() {
    let ir = empty_ir();
    let mut e = emitter(&ir);
    let v = e.emit_tile_vec_out_ptrs(&trio_site(2), &trio_ctx(2, None), "%os", 2);
    assert_eq!(v, vec!["%t0".to_string(), "%t2".to_string()]);
    let expected = [
        "  %t0 = getelementptr [8 x float], ptr %out, i64 0, i64 %os\n",
        "  %t1 = add i64 %os, 8\n",
        "  %t2 = getelementptr [8 x float], ptr %out, i64 0, i64 %t1\n",
    ]
    .concat();
    assert_eq!(e.body, expected);
}
