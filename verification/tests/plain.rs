use lib::emit::EmitPlan;
use lib::emit::{FnEmit, GuardFlavor, PackedBuffer, TileCtx};
use lib::ir::{CategoryIr, Ty, Value};
use lib::site::{TileRead, TileSite};

fn empty_ir() -> CategoryIr {
    CategoryIr { objects: Vec::new(), morphisms: Vec::new(), funcs: Vec::new(), in_edges: Vec::new(), out_edges: Vec::new() }
}

fn emitter(ir: &CategoryIr) -> FnEmit<'_> {
    FnEmit {
        ir,
        f: 0,
        slots: Vec::new(),
        frame: None,
        frame_geps: String::new(),
        runtime_write: false,
        allocas: String::new(),
        body: String::new(),
        next: 0,
        guard_flavor: GuardFlavor::Host,
        split_range: false,
        perf_timing: false,
        move_panel: None,
        heap_min_bytes: 256 * 1024,
        heap_ok: false,
        heap_used: false,
        elem: Vec::new(),
        elided_arrays: Vec::new(),
        elided_updates: Vec::new(),
        update_aliases: Vec::new(),
        host: None,
        plan: EmitPlan { gated: Vec::new(), guard_sites: Vec::new(), tile_plan: None, packing: false, contract: false, kc_nest: false },
    }
}

fn plain_ctx(packed: Option<PackedBuffer>) -> TileCtx {
    let s = |x: &str| x.to_string();
    TileCtx {
        acc: s("%acc"),
        acc_llt: s("[4 x float]"),
        elem_llt: s("float"),
        seed: s("0.0"),
        mul_op: "fmul",
        add_op: "fadd",
        a_ptr: s("%a"),
        b_ptr: s("%b"),
        out_ptr: s("%out"),
        a_llt: s("[8 x float]"),
        b_llt: s("[16 x float]"),
        out_llt: s("[8 x float]"),
        k_ctr: s("%k"),
        lane_ctr: s("%lane"),
        tile_j: 4,
        tile_i: 1,
        tile_kc: 8,
        packed,
        contract_flag: "",
    }
}

fn plain_site() -> TileSite {
    TileSite {
        rows: 2,
        c: 6,
        k: 3,
        elem: Ty::Float { bits: 32 },
        a: TileRead { slot: 0, base: 0, ci: 3, ck: 1, clane: 0, ksplit: None },
        b: TileRead { slot: 1, base: 0, ci: 0, ck: 6, clane: 1, ksplit: None },
        seed: Value::F32(0),
        mul_a_first: true,
        add_acc_first: false,
    }
}

#[test]
fn plain_nest_seeds_accumulates_and_stores_each_tile() {
    let ir = empty_ir();
    let mut e = emitter(&ir);
    e.emit_tiled_plain_nest(&plain_site(), &plain_ctx(None), "%i", "%j", "0", "12");
    let expected = [
        "  %t0 = udiv i64 0, 6\n",
        "  %t1 = add i64 12, 5\n",
        "  %t2 = udiv i64 %t1, 6\n",
        "  store i64 %t0, ptr %i\n",
        "  br label %bb3\n",
        "bb3:\n",
        "  %t21 = load i64, ptr %i\n",
        "  %t22 = icmp uge i64 %t21, %t2\n",
        "  br i1 %t22, label %bb5, label %bb4\n",
        "bb4:\n",
        "  %t23 = mul i64 %t21, 6\n",
        "  %t24 = sub i64 0, %t23\n",
        "  %t25 = icmp slt i64 %t24, 0\n",
        "  %t26 = select i1 %t25, i64 0, i64 %t24\n",
        "  %t27 = sub i64 12, %t23\n",
        "  %t28 = icmp sgt i64 %t27, 6\n",
        "  %t29 = select i1 %t28, i64 6, i64 %t27\n",
        "  %t30 = mul i64 %t21, 3\n",
        "  store i64 %t26, ptr %j\n",
        "  br label %bb6\n",
        "bb6:\n",
        "  %t31 = load i64, ptr %j\n",
        "  %t32 = icmp uge i64 %t31, %t29\n",
        "  br i1 %t32, label %bb8, label %bb7\n",
        "bb7:\n",
        "  %t33 = sub i64 %t29, %t31\n",
        "  %t34 = icmp ult i64 %t33, 4\n",
        "  %t35 = select i1 %t34, i64 %t33, i64 4\n",
        "  store i64 0, ptr %lane\n",
        "  br label %bb9\n",
        "bb9:\n",
        "  %t36 = load i64, ptr %lane\n",
        "  %t37 = icmp uge i64 %t36, %t35\n",
        "  br i1 %t37, label %bb11, label %bb10\n",
        "bb10:\n",
        "  %t38 = getelementptr [4 x float], ptr %acc, i64 0, i64 %t36\n",
        "  store float 0.0, ptr %t38\n",
        "  %t39 = add i64 %t36, 1\n",
        "  store i64 %t39, ptr %lane\n",
        "  br label %bb9\n",
        "bb11:\n",
        "  store i64 0, ptr %k\n",
        "  br label %bb12\n",
        "bb12:\n",
        "  %t40 = load i64, ptr %k\n",
        "  %t41 = icmp uge i64 %t40, 3\n",
        "  br i1 %t41, label %bb14, label %bb13\n",
        "bb13:\n",
        "  %t42 = add i64 %t30, %t40\n",
        "  %t43 = getelementptr [8 x float], ptr %a, i64 0, i64 %t42\n",
        "  %t44 = load float, ptr %t43\n",
        "  %t45 = mul i64 %t40, 6\n",
        "  %t46 = add i64 %t45, %t31\n",
        "  store i64 0, ptr %lane\n",
        "  br label %bb15\n",
        "bb15:\n",
        "  %t47 = load i64, ptr %lane\n",
        "  %t48 = icmp uge i64 %t47, %t35\n",
        "  br i1 %t48, label %bb17, label %bb16\n",
        "bb16:\n",
        "  %t49 = add i64 %t46, %t47\n",
        "  %t50 = getelementptr [16 x float], ptr %b, i64 0, i64 %t49\n",
        "  %t51 = load float, ptr %t50\n",
        "  %t52 = fmul float %t44, %t51\n",
        "  %t53 = getelementptr [4 x float], ptr %acc, i64 0, i64 %t47\n",
        "  %t54 = load float, ptr %t53\n",
        "  %t55 = fadd float %t52, %t54\n",
        "  store float %t55, ptr %t53\n",
        "  %t56 = add i64 %t47, 1\n",
        "  store i64 %t56, ptr %lane\n",
        "  br label %bb15\n",
        "bb17:\n",
        "  %t57 = add i64 %t40, 1\n",
        "  store i64 %t57, ptr %k\n",
        "  br label %bb12\n",
        "bb14:\n",
        "  %t58 = add i64 %t23, %t31\n",
        "  store i64 0, ptr %lane\n",
        "  br label %bb18\n",
        "bb18:\n",
        "  %t59 = load i64, ptr %lane\n",
        "  %t60 = icmp uge i64 %t59, %t35\n",
        "  br i1 %t60, label %bb20, label %bb19\n",
        "bb19:\n",
        "  %t61 = getelementptr [4 x float], ptr %acc, i64 0, i64 %t59\n",
        "  %t62 = load float, ptr %t61\n",
        "  %t63 = add i64 %t58, %t59\n",
        "  %t64 = getelementptr [8 x float], ptr %out, i64 0, i64 %t63\n",
        "  store float %t62, ptr %t64\n",
        "  %t65 = add i64 %t59, 1\n",
        "  store i64 %t65, ptr %lane\n",
        "  br label %bb18\n",
        "bb20:\n",
        "  %t66 = add i64 %t31, 4\n",
        "  store i64 %t66, ptr %j\n",
        "  br label %bb6\n",
        "bb8:\n",
        "  %t67 = add i64 %t21, 1\n",
        "  store i64 %t67, ptr %i\n",
        "  br label %bb3\n",
        "bb5:\n",
    ]
    .concat();
    assert_eq!(e.body, expected);
    assert_eq!(e.next, 68);
}

#[test]
fn plain_nest_reads_b_from_the_packed_panel() {
    let ir = empty_ir();
    let mut e = emitter(&ir);
    let packed = PackedBuffer { ptr: "%bp".to_string(), llt: "[24 x float]".to_string() };
    e.emit_tiled_plain_nest(&plain_site(), &plain_ctx(Some(packed)), "%i", "%j", "0", "12");
    // No b start is hoisted per k; each lane finds its panel slot.
    let panel = [
        "bb16:\n",
        "  %t47 = add i64 %t31, %t45\n",
        "  %t48 = udiv i64 %t47, 4\n",
        "  %t49 = urem i64 %t47, 4\n",
        "  %t50 = mul i64 %t48, 12\n",
        "  %t51 = mul i64 %t40, 4\n",
        "  %t52 = add i64 %t50, %t51\n",
        "  %t53 = add i64 %t52, %t49\n",
        "  %t54 = getelementptr [24 x float], ptr %bp, i64 0, i64 %t53\n",
        "  %t55 = load float, ptr %t54\n",
        "  %t56 = fmul float %t44, %t55\n",
    ]
    .concat();
    assert!(!e.body.contains("mul i64 %t40, 6\n"));
    assert!(e.body.contains(&panel));
}
