use lib::emit::EmitPlan;
use lib::conv::ConvTileCtx;
use lib::emit::{FnEmit, GuardFlavor, PackedBuffer, TileCtx};
use lib::ir::{CategoryIr, Ty, Value};
use lib::site::{KSplit, TileRead, TileSite};

fn empty_ir() -> CategoryIr {
    CategoryIr { objects: Vec::new(), morphisms: Vec::new(), funcs: Vec::new(), in_edges: Vec::new(), out_edges: Vec::new() }
}

fn emitter(ir: &CategoryIr, next: u32) -> FnEmit<'_> {
    FnEmit {
        ir,
        f: 0,
        slots: Vec::new(),
        frame: None,
        frame_geps: String::new(),
        runtime_write: false,
        allocas: String::new(),
        body: String::new(),
        next,
        guard_flavor: GuardFlavor::Host,
        split_range: false,
        perf_timing: false,
        move_panel: None,
        heap_min_bytes: 256 * 1024,
        heap_ok: false,
        heap_used: false,
        elem: Vec::new(),
        elided_arrays: Vec::new(),
        elided_updates: Vec::new(),
        update_aliases: Vec::new(),
        host: None,
        plan: EmitPlan { gated: Vec::new(), guard_sites: Vec::new(), tile_plan: None, packing: false, contract: false, kc_nest: false },
    }
}

fn tile_ctx(tile_i: u64, packed: Option<PackedBuffer>) -> TileCtx {
    let s = |x: &str| x.to_string();
    TileCtx {
        acc: s("%acc"),
        acc_llt: s("[8 x float]"),
        elem_llt: s("float"),
        seed: s("0.0"),
        mul_op: "fmul",
        add_op: "fadd",
        a_ptr: s("%a"),
        b_ptr: s("%b"),
        out_ptr: s("%out"),
        a_llt: s("[40 x float]"),
        b_llt: s("[160 x float]"),
        out_llt: s("[16 x float]"),
        k_ctr: s("%k"),
        lane_ctr: s("%lane"),
        tile_j: 4,
        tile_i,
        tile_kc: 8,
        packed,
        contract_flag: "",
    }
}

fn matmul_site() -> TileSite {
    let read = |ci, ck, clane| TileRead { slot: 0, base: 0, ci, ck, clane, ksplit: None };
    TileSite {
        rows: 2,
        c: 8,
        k: 20,
        elem: Ty::Float { bits: 32 },
        a: read(20, 1, 0),
        b: read(0, 8, 1),
        seed: Value::F32(0),
        mul_a_first: true,
        add_acc_first: true,
    }
}

const PROLOGUE: &str = "  %t0 = udiv i64 %lo, 8\n  %t1 = add i64 %hi, 7\n  %t2 = udiv i64 %t1, 8\n  %t3 = add i64 %lo, 7\n  %t4 = udiv i64 %t3, 8\n  %t5 = udiv i64 %hi, 8\n";

#[test]
fn blocked_nest_without_packing_runs_the_i_regions() {
    let ir = empty_ir();
    let site = matmul_site();
    let ctx = tile_ctx(2, None);
    let mut e = emitter(&ir, 0);
    e.emit_tiled_blocked_nest(&site, &ctx, "%i", "%j", "%lo", "%hi", &None, 16);
    let mut r = emitter(&ir, 6);
    r.emit_tile_i_regions(&site, &ctx, "%i", "%j", "%lo", "%hi", "%t0", "%t2", "%t4", "%t5", None);
    assert_eq!(e.body, format!("{PROLOGUE}{}", r.body));
    assert_eq!(e.next, r.next);
    assert_eq!(e.allocas, "");
}

#[test]
fn blocked_nest_with_an_a_panel_runs_the_kc_nest() {
    let ir = empty_ir();
    let site = matmul_site();
    let ctx = tile_ctx(2, Some(PackedBuffer { ptr: "%bp".to_string(), llt: "[160 x float]".to_string() }));
    let apack = Some(PackedBuffer { ptr: "%ap".to_string(), llt: "[16 x float]".to_string() });
    let mut e = emitter(&ir, 0);
    e.emit_tiled_blocked_nest(&site, &ctx, "%i", "%j", "%lo", "%hi", &apack, 16);
    let mut k = emitter(&ir, 6);
    k.emit_tile_packed_kc(&site, &ctx, "%i", "%j", "%lo", "%hi", "%t0", "%t2", "%t4", "%t5", apack.as_ref().unwrap(), 16);
    assert_eq!(e.body, format!("{PROLOGUE}{}", k.body));
    assert_eq!(e.allocas, "  %s6 = alloca i64\n  %s7 = alloca i64\n");
    // Without the a panel the packed site takes the j-outer nest.
    let mut f = emitter(&ir, 0);
    f.emit_tiled_blocked_nest(&site, &ctx, "%i", "%j", "%lo", "%hi", &None, 16);
    let mut j = emitter(&ir, 6);
    j.emit_tile_packed_j_outer(&site, &ctx, "%i", "%j", "%lo", "%hi", "%t0", "%t2", "%t4", "%t5");
    assert_eq!(f.body, format!("{PROLOGUE}{}", j.body));
}

#[test]
fn window_nest_runs_full_blocks_then_the_remainder_split() {
    let ir = empty_ir();
    let read = |ci, ck, clane| TileRead { slot: 0, base: 0, ci, ck, clane, ksplit: None };
    let site = TileSite {
        rows: 1,
        c: 64,
        k: 3,
        elem: Ty::Float { bits: 32 },
        a: read(0, 1, 0),
        b: read(0, 1, 1),
        seed: Value::F32(0),
        mul_a_first: true,
        add_acc_first: true,
    };
    let ctx = tile_ctx(2, None);
    let mut e = emitter(&ir, 0);
    e.emit_tiled_window_nest(&site, &ctx, "%j", "%lo", "%hi");
    let open = [
        "  store i64 %lo, ptr %j\n",
        "  br label %bb0\n",
        "bb0:\n",
        "  %t3 = load i64, ptr %j\n",
        "  %t4 = add i64 %t3, 8\n",
        "  %t5 = icmp ule i64 %t4, %hi\n",
        "  br i1 %t5, label %bb1, label %bb2\n",
        "bb1:\n",
    ]
    .concat();
    let mut blk = emitter(&ir, 6);
    blk.emit_tile_window_block(&site, &ctx, "%t3", &None);
    let x = blk.next;
    let mut js = emitter(&ir, x + 1);
    js.emit_tile_j_split(&site, &ctx, "%j", &format!("%t{x}"), "%hi", "0", &[None], &None);
    let expected = format!(
        "{open}{}  store i64 %t4, ptr %j\n  br label %bb0\nbb2:\n  %t{x} = load i64, ptr %j\n{}",
        blk.body, js.body
    );
    assert_eq!(e.body, expected);
    assert_eq!(e.next, js.next);
}

fn conv_ctx() -> ConvTileCtx {
    let s = |x: &str| x.to_string();
    ConvTileCtx {
        tile_j: 4,
        acc: s("%acc"),
        acc_llt: s("[4 x float]"),
        elem_llt: s("float"),
        seed: s("0.0"),
        mul_op: "fmul",
        add_op: "fadd",
        a_ptr: s("%a"),
        b_ptr: s("%b"),
        out_ptr: s("%out"),
        a_llt: s("[16 x float]"),
        b_llt: s("[64 x float]"),
        out_llt: s("[32 x float]"),
        lane_ctr: s("%lane"),
        contract_flag: "",
    }
}

fn conv_site() -> TileSite {
    TileSite {
        rows: 4,
        c: 8,
        k: 2,
        elem: Ty::Float { bits: 32 },
        a: TileRead { slot: 0, base: 0, ci: 0, ck: 1, clane: 0, ksplit: None },
        b: TileRead { slot: 1, base: 0, ci: 8, ck: 0, clane: 1, ksplit: Some(KSplit { div: 2, cq: 8, cr: 1 }) },
        seed: Value::F32(0),
        mul_a_first: true,
        add_acc_first: true,
    }
}

#[test]
fn conv_nest_without_sliding_is_one_row_range() {
    let ir = empty_ir();
    let mut e = emitter(&ir, 0);
    e.emit_tiled_conv_nest(&conv_site(), &conv_ctx(), "%i", "%j", "%lo", "%hi", None);
    let mut r = emitter(&ir, 3);
    r.emit_conv_row_range(&conv_site(), &conv_ctx(), "%i", "%j", "%t2", "%lo", "%hi");
    let open = "  %t0 = udiv i64 %lo, 8\n  %t1 = add i64 %hi, 7\n  %t2 = udiv i64 %t1, 8\n  store i64 %t0, ptr %i\n";
    assert_eq!(e.body, format!("{open}{}", r.body));
    assert_eq!(e.next, r.next);
}

#[test]
fn conv_nest_with_sliding_runs_head_blocks_and_tail_on_one_counter() {
    let ir = empty_ir();
    let (site, ctx) = (conv_site(), conv_ctx());
    let mut e = emitter(&ir, 0);
    e.emit_tiled_conv_nest(&site, &ctx, "%i", "%j", "%lo", "%hi", Some((2, 1)));
    let open = [
        "  %t0 = udiv i64 %lo, 8\n",
        "  %t1 = add i64 %hi, 7\n",
        "  %t2 = udiv i64 %t1, 8\n",
        "  store i64 %t0, ptr %i\n",
        "  %t3 = add i64 %lo, 7\n",
        "  %t4 = udiv i64 %t3, 8\n",
        "  %t5 = udiv i64 %hi, 8\n",
        "  %t6 = icmp ugt i64 %t4, %t2\n",
        "  %t7 = select i1 %t6, i64 %t2, i64 %t4\n",
    ]
    .concat();
    let mut head = emitter(&ir, 8);
    head.emit_conv_row_range(&site, &ctx, "%i", "%j", "%t7", "%lo", "%hi");
    let mut blocks = emitter(&ir, head.next);
    blocks.emit_conv_blocked_range(&site, &ctx, "%i", "%j", "%t5", 2, 1);
    let mut tail = emitter(&ir, blocks.next);
    tail.emit_conv_row_range(&site, &ctx, "%i", "%j", "%t2", "%lo", "%hi");
    assert_eq!(e.body, format!("{open}{}{}{}", head.body, blocks.body, tail.body));
    assert_eq!(e.next, tail.next);
}
