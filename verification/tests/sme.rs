use lib::emit::EmitPlan;
use lib::emit::{FnEmit, GuardFlavor, PackedBuffer};
use lib::ir::{CategoryIr, Ty, Value};
use lib::site::{TileRead, TileSite};
use lib::sme::{SmeCtx, sme_panel_rows, sme_tile_site, slice_sizing};

fn empty_ir() -> CategoryIr {
    CategoryIr { objects: Vec::new(), morphisms: Vec::new(), funcs: Vec::new(), in_edges: Vec::new(), out_edges: Vec::new() }
}

fn emitter(ir: &CategoryIr, split_range: bool) -> FnEmit<'_> {
    FnEmit {
        ir,
        f: 0,
        slots: Vec::new(),
        frame: None,
        frame_geps: String::new(),
        runtime_write: false,
        allocas: String::new(),
        body: String::new(),
        next: 0,
        guard_flavor: GuardFlavor::Host,
        split_range,
        perf_timing: false,
        move_panel: None,
        heap_min_bytes: 256 * 1024,
        heap_ok: false,
        heap_used: false,
        elem: Vec::new(),
        elided_arrays: Vec::new(),
        elided_updates: Vec::new(),
        update_aliases: Vec::new(),
        host: None,
        plan: EmitPlan { gated: Vec::new(), guard_sites: Vec::new(), tile_plan: None, packing: false, contract: false, kc_nest: false },
    }
}

fn site(rows: u64, c: u64, k: u64) -> TileSite {
    TileSite {
        rows,
        c,
        k,
        elem: Ty::Float { bits: 32 },
        a: TileRead { slot: 0, base: 0, ci: 2, ck: 1, clane: 0, ksplit: None },
        b: TileRead { slot: 1, base: 0, ci: 0, ck: 4, clane: 1, ksplit: None },
        seed: Value::F32(0),
        mul_a_first: true,
        add_acc_first: true,
    }
}

fn ctx(kc_budget: u64, kc_nest: bool, packed: Option<PackedBuffer>) -> SmeCtx {
    SmeCtx {
        elem_llt: "float".to_string(),
        a_llt: "[8 x float]".to_string(),
        b_llt: "[8 x float]".to_string(),
        out_llt: "[16 x float]".to_string(),
        a_ptr: "%a".to_string(),
        b_ptr: "%b".to_string(),
        out_ptr: "%out".to_string(),
        packed,
        pack_w: 2,
        side: 2,
        block_i: 2,
        block_j: 2,
        kc_budget,
        kc_nest,
        store_kernel: "mapal_sme_store".to_string(),
        acc_kernel: "mapal_sme_acc".to_string(),
    }
}

#[test]
fn the_matmul_shape_under_fusion_takes_the_rung() {
    let s = site(4, 4, 2);
    assert!(sme_tile_site(&s, Some(2), Some((2, 2)), true, false, 16));
    assert!(sme_tile_site(&s, Some(2), Some((2, 2)), true, true, 2));
}

#[test]
fn each_clause_refuses() {
    let s = site(4, 4, 2);
    assert!(!sme_tile_site(&s, None, Some((2, 2)), true, false, 2));
    assert!(!sme_tile_site(&s, Some(2), None, true, false, 2));
    assert!(!sme_tile_site(&s, Some(2), Some((2, 2)), false, false, 2));
    let mut d = site(4, 4, 2);
    d.elem = Ty::Float { bits: 64 };
    assert!(!sme_tile_site(&d, Some(2), Some((2, 2)), true, false, 2));
    let mut seed = site(4, 4, 2);
    seed.seed = Value::F32(0x3f80_0000);
    assert!(!sme_tile_site(&seed, Some(2), Some((2, 2)), true, false, 2));
    let mut lane = site(4, 4, 2);
    lane.b.clane = 2;
    assert!(!sme_tile_site(&lane, Some(2), Some((2, 2)), true, false, 2));
    assert!(!sme_tile_site(&site(6, 4, 2), Some(2), Some((2, 2)), true, false, 2));
    assert!(!sme_tile_site(&site(4, 6, 2), Some(2), Some((2, 2)), true, false, 2));
    assert!(!sme_tile_site(&site(4, 4, 1), Some(2), Some((2, 2)), true, false, 2));
    assert!(!sme_tile_site(&s, Some(2), Some((2, 2)), true, true, 16));
}

#[test]
fn panel_height_and_slice_quantum() {
    assert_eq!(sme_panel_rows(Some(16), Some((2, 4))), Some(32));
    assert_eq!(sme_panel_rows(None, Some((2, 4))), None);
    let s = site(4, 4, 2);
    assert_eq!(slice_sizing(&s, Some(2), Some((2, 2)), true, false, 2, 3, false), (16, 1));
    assert_eq!(slice_sizing(&s, Some(2), Some((2, 2)), false, false, 2, 3, true), (12, 4));
    assert_eq!(slice_sizing(&site(1, 4, 2), Some(2), Some((2, 2)), true, false, 2, 3, false), (0, 0));
    assert_eq!(slice_sizing(&s, None, None, true, false, 2, u64::MAX, false), (u64::MAX, 1));
}

#[test]
fn unblocked_in_place_emission() {
    let ir = empty_ir();
    let mut e = emitter(&ir, false);
    e.emit_tiled_map_sme(&site(4, 4, 2), &ctx(8, false, None));
    assert_eq!(
        e.allocas,
        "  %s0 = alloca [8 x float], align 64\n  %s1 = alloca i64\n  %s2 = alloca i64\n  %s3 = alloca i64\n  %s4 = alloca i64\n"
    );
    let expected = [
        "  %t17 = udiv i64 0, 4\n",
        "  %t18 = udiv i64 16, 4\n",
        "  store i64 %t17, ptr %s1\n",
        "  br label %bb5\n",
        "bb5:\n",
        "  %t19 = load i64, ptr %s1\n",
        "  %t20 = icmp uge i64 %t19, %t18\n",
        "  br i1 %t20, label %bb7, label %bb6\n",
        "bb6:\n",
        "  store i64 0, ptr %s4\n",
        "  br label %bb11\n",
        "bb11:\n",
        "  %t21 = load i64, ptr %s4\n",
        "  %t22 = icmp uge i64 %t21, 4\n",
        "  br i1 %t22, label %bb13, label %bb12\n",
        "bb12:\n",
        "  %t23 = add i64 %t19, %t21\n",
        "  store i64 0, ptr %s3\n",
        "  br label %bb8\n",
        "bb8:\n",
        "  %t24 = load i64, ptr %s3\n",
        "  %t25 = icmp uge i64 %t24, 2\n",
        "  br i1 %t25, label %bb10, label %bb9\n",
        "bb9:\n",
        "  %t26 = mul i64 %t23, 2\n",
        "  %t27 = add i64 %t26, %t24\n",
        "  %t28 = getelementptr [8 x float], ptr %a, i64 0, i64 %t27\n",
        "  %t29 = load float, ptr %t28\n",
        "  %t30 = mul i64 %t24, 4\n",
        "  %t31 = add i64 %t30, %t21\n",
        "  %t32 = getelementptr [8 x float], ptr %s0, i64 0, i64 %t31\n",
        "  store float %t29, ptr %t32\n",
        "  %t33 = add i64 %t24, 1\n",
        "  store i64 %t33, ptr %s3\n",
        "  br label %bb8\n",
        "bb10:\n",
        "  %t34 = add i64 %t21, 1\n",
        "  store i64 %t34, ptr %s4\n",
        "  br label %bb11\n",
        "bb13:\n",
        "  %t35 = mul i64 %t19, 4\n",
        "  store i64 0, ptr %s2\n",
        "  br label %bb14\n",
        "bb14:\n",
        "  %t36 = load i64, ptr %s2\n",
        "  %t37 = icmp uge i64 %t36, 4\n",
        "  br i1 %t37, label %bb16, label %bb15\n",
        "bb15:\n",
        "  %t38 = getelementptr [8 x float], ptr %b, i64 0, i64 %t36\n",
        "  %t39 = add i64 %t35, %t36\n",
        "  %t40 = getelementptr [16 x float], ptr %out, i64 0, i64 %t39\n",
        "  call void @mapal_sme_store(ptr %s0, ptr %t38, ptr %t40, i64 4, i64 2, i64 4, i64 2)\n",
        "  %t41 = add i64 %t36, 4\n",
        "  store i64 %t41, ptr %s2\n",
        "  br label %bb14\n",
        "bb16:\n",
        "  %t42 = add i64 %t19, 4\n",
        "  store i64 %t42, ptr %s1\n",
        "  br label %bb5\n",
        "bb7:\n",
    ]
    .concat();
    assert_eq!(e.body, expected);
    assert_eq!(e.next, 43);
}

#[test]
fn blocked_packed_emission_stores_then_accumulates() {
    let ir = empty_ir();
    let mut e = emitter(&ir, true);
    let packed = PackedBuffer { ptr: "%bp".to_string(), llt: "[16 x float]".to_string() };
    e.emit_tiled_map_sme(&site(4, 4, 4), &ctx(2, true, Some(packed)));
    assert!(e.allocas.starts_with("  %s0 = alloca [8 x float], align 64\n"));
    assert!(e.allocas.ends_with("  %s5 = alloca i64\n"));
    assert!(e.body.starts_with("  %t24 = udiv i64 %lo, 4\n  %t25 = udiv i64 %hi, 4\n  store i64 0, ptr %s5\n"));
    assert!(e.body.contains("  %t35 = add i64 %t26, %t33\n"));
    assert!(e.body.contains("icmp eq i64 %t26, 0\n"));
    assert!(e.body.contains("call void @mapal_sme_store(ptr %s0, ptr "));
    assert!(e.body.contains("call void @mapal_sme_acc(ptr %s0, ptr "));
    assert!(e.body.contains(", i64 2, i64 8, i64 4, i64 2)\n"));
    assert!(e.body.contains("store i64 0, ptr %s5\n  br label %bb18\nbb18:\n"));
    assert!(e.body.ends_with("  br label %bb18\nbb20:\n"));
}
