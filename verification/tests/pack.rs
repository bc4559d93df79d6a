use lib::emit::EmitPlan;
use lib::emit::{FnEmit, GuardFlavor, PackedBuffer};
use lib::ir::{CategoryIr, Ty, Value};
use lib::site::{TileRead, TileSite};

fn empty_ir() -> CategoryIr {
    CategoryIr { objects: Vec::new(), morphisms: Vec::new(), funcs: Vec::new(), in_edges: Vec::new(), out_edges: Vec::new() }
}

fn emitter(ir: &CategoryIr, split_range: bool) -> FnEmit<'_> {
    FnEmit {
        ir,
        f: 0,
        slots: Vec::new(),
        frame: None,
        frame_geps: String::new(),
        runtime_write: false,
        allocas: String::new(),
        body: String::new(),
        next: 0,
        guard_flavor: GuardFlavor::Host,
        split_range,
        perf_timing: false,
        move_panel: None,
        heap_min_bytes: 256 * 1024,
        heap_ok: false,
        heap_used: false,
        elem: Vec::new(),
        elided_arrays: Vec::new(),
        elided_updates: Vec::new(),
        update_aliases: Vec::new(),
        host: None,
        plan: EmitPlan { gated: Vec::new(), guard_sites: Vec::new(), tile_plan: None, packing: false, contract: false, kc_nest: false },
    }
}

fn pack_site() -> TileSite {
    TileSite {
        rows: 3,
        c: 6,
        k: 2,
        elem: Ty::Float { bits: 32 },
        a: TileRead { slot: 0, base: 0, ci: 2, ck: 1, clane: 0, ksplit: None },
        b: TileRead { slot: 1, base: 0, ci: 0, ck: 8, clane: 1, ksplit: None },
        seed: Value::F32(0),
        mul_a_first: true,
        add_acc_first: true,
    }
}

fn packed() -> PackedBuffer {
    PackedBuffer { ptr: "%bp".to_string(), llt: "[16 x float]".to_string() }
}

#[test]
fn pack_copy_fills_each_panel_and_pads_dead_lanes() {
    let ir = empty_ir();
    let mut e = emitter(&ir, false);
    e.emit_pack_copy(&pack_site(), &packed(), "[16 x float]", "float", "%b", 4);
    assert_eq!(e.allocas, "  %s0 = alloca i64\n  %s1 = alloca i64\n  %s2 = alloca i64\n");
    let expected = [
        "  store i64 0, ptr %s0\n",
        "  br label %bb3\n",
        "bb3:\n",
        "  %t15 = load i64, ptr %s0\n",
        "  %t16 = icmp uge i64 %t15, 2\n",
        "  br i1 %t16, label %bb5, label %bb4\n",
        "bb4:\n",
        "  %t17 = mul i64 %t15, 4\n",
        "  %t18 = mul i64 %t15, 8\n",
        "  store i64 0, ptr %s1\n",
        "  br label %bb6\n",
        "bb6:\n",
        "  %t19 = load i64, ptr %s1\n",
        "  %t20 = icmp uge i64 %t19, 2\n",
        "  br i1 %t20, label %bb8, label %bb7\n",
        "bb7:\n",
        "  %t21 = mul i64 %t19, 4\n",
        "  %t22 = add i64 %t18, %t21\n",
        "  store i64 0, ptr %s2\n",
        "  br label %bb9\n",
        "bb9:\n",
        "  %t23 = load i64, ptr %s2\n",
        "  %t24 = icmp uge i64 %t23, 4\n",
        "  br i1 %t24, label %bb11, label %bb10\n",
        "bb10:\n",
        "  %t25 = add i64 %t17, %t23\n",
        "  %t26 = add i64 %t22, %t23\n",
        "  %t27 = getelementptr [16 x float], ptr %bp, i64 0, i64 %t26\n",
        "  %t28 = icmp ult i64 %t25, 6\n",
        "  br i1 %t28, label %bb12, label %bb13\n",
        "bb12:\n",
        "  %t29 = mul i64 %t19, 8\n",
        "  %t30 = add i64 %t29, %t25\n",
        "  %t31 = getelementptr [16 x float], ptr %b, i64 0, i64 %t30\n",
        "  %t32 = load float, ptr %t31\n",
        "  store float %t32, ptr %t27\n",
        "  br label %bb14\n",
        "bb13:\n",
        "  store float zeroinitializer, ptr %t27\n",
        "  br label %bb14\n",
        "bb14:\n",
        "  %t33 = add i64 %t23, 1\n",
        "  store i64 %t33, ptr %s2\n",
        "  br label %bb9\n",
        "bb11:\n",
        "  %t34 = add i64 %t19, 1\n",
        "  store i64 %t34, ptr %s1\n",
        "  br label %bb6\n",
        "bb8:\n",
        "  %t35 = add i64 %t15, 1\n",
        "  store i64 %t35, ptr %s0\n",
        "  br label %bb3\n",
        "bb5:\n",
    ]
    .concat();
    assert_eq!(e.body, expected);
    assert_eq!(e.next, 36);
}

#[test]
fn pack_copy_on_a_split_range_takes_the_task_slice_of_panels() {
    let ir = empty_ir();
    let mut e = emitter(&ir, true);
    e.emit_pack_copy(&pack_site(), &packed(), "[16 x float]", "float", "%b", 4);
    assert!(e.body.starts_with("  store i64 %lo, ptr %s0\n  br label %bb3\nbb3:\n  %t15 = load i64, ptr %s0\n  %t16 = icmp uge i64 %t15, %hi\n"));
}

#[test]
fn pack_copy_counts_a_partial_last_panel() {
    let ir = empty_ir();
    let mut e = emitter(&ir, false);
    let mut site = pack_site();
    site.c = 8;
    e.emit_pack_copy(&site, &packed(), "[16 x float]", "float", "%b", 4);
    assert!(e.body.contains("  %t16 = icmp uge i64 %t15, 2\n"));
    site.c = 9;
    let mut f = emitter(&ir, false);
    f.emit_pack_copy(&site, &packed(), "[16 x float]", "float", "%b", 4);
    assert!(f.body.contains("  %t16 = icmp uge i64 %t15, 3\n"));
}
