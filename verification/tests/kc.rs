use lib::emit::EmitPlan;
use lib::emit::{FnEmit, GuardFlavor, PackedBuffer, TileCtx};
use lib::ir::{CategoryIr, Ty, Value};
use lib::site::{TileRead, TileSite};

fn empty_ir() -> CategoryIr {
    CategoryIr { objects: Vec::new(), morphisms: Vec::new(), funcs: Vec::new(), in_edges: Vec::new(), out_edges: Vec::new() }
}

fn emitter(ir: &CategoryIr, next: u32) -> FnEmit<'_> {
    FnEmit {
        ir,
        f: 0,
        slots: Vec::new(),
        frame: None,
        frame_geps: String::new(),
        runtime_write: false,
        allocas: String::new(),
        body: String::new(),
        next,
        guard_flavor: GuardFlavor::Host,
        split_range: false,
        perf_timing: false,
        move_panel: None,
        heap_min_bytes: 256 * 1024,
        heap_ok: false,
        heap_used: false,
        elem: Vec::new(),
        elided_arrays: Vec::new(),
        elided_updates: Vec::new(),
        update_aliases: Vec::new(),
        host: None,
        plan: EmitPlan { gated: Vec::new(), guard_sites: Vec::new(), tile_plan: None, packing: false, contract: false, kc_nest: false },
    }
}

fn kc_ctx(tile_i: u64) -> TileCtx {
    let s = |x: &str| x.to_string();
    TileCtx {
        acc: s("%acc"),
        acc_llt: s("[8 x float]"),
        elem_llt: s("float"),
        seed: s("0.0"),
        mul_op: "fmul",
        add_op: "fadd",
        a_ptr: s("%a"),
        b_ptr: s("%b"),
        out_ptr: s("%out"),
        a_llt: s("[40 x float]"),
        b_llt: s("[160 x float]"),
        out_llt: s("[16 x float]"),
        k_ctr: s("%k"),
        lane_ctr: s("%lane"),
        tile_j: 4,
        tile_i,
        tile_kc: 8,
        packed: Some(PackedBuffer { ptr: s("%bp"), llt: s("[160 x float]") }),
        contract_flag: "",
    }
}

fn kc_site() -> TileSite {
    let read = |base, ci, ck| TileRead { slot: 0, base, ci, ck, clane: 1, ksplit: None };
    TileSite {
        rows: 2,
        c: 8,
        k: 20,
        elem: Ty::Float { bits: 32 },
        a: read(0, 20, 1),
        b: read(0, 0, 8),
        seed: Value::F32(0),
        mul_a_first: true,
        add_acc_first: true,
    }
}

fn apack() -> PackedBuffer {
    PackedBuffer { ptr: "%ap".to_string(), llt: "[16 x float]".to_string() }
}

#[test]
fn kc_apack_copies_each_subrow_into_its_panel_row() {
    let ir = empty_ir();
    let mut e = emitter(&ir, 0);
    let rows = [Some("%r0".to_string()), Some("%r1".to_string())];
    e.emit_tile_kc_apack(&kc_site(), &kc_ctx(2), &apack(), &rows, "%klo", "%khi");
    let expected = [
        "  store i64 %klo, ptr %k\n",
        "  br label %bb0\n",
        "bb0:\n",
        "  %t3 = load i64, ptr %k\n",
        "  %t4 = icmp uge i64 %t3, %khi\n",
        "  br i1 %t4, label %bb2, label %bb1\n",
        "bb1:\n",
        "  %t5 = add i64 %r0, %t3\n",
        "  %t6 = getelementptr [40 x float], ptr %a, i64 0, i64 %t5\n",
        "  %t7 = load float, ptr %t6\n",
        "  %t8 = sub i64 %t3, %klo\n",
        "  %t9 = getelementptr [16 x float], ptr %ap, i64 0, i64 %t8\n",
        "  store float %t7, ptr %t9\n",
        "  %t10 = add i64 %t3, 1\n",
        "  store i64 %t10, ptr %k\n",
        "  br label %bb0\n",
        "bb2:\n",
        "  store i64 %klo, ptr %k\n",
        "  br label %bb11\n",
        "bb11:\n",
        "  %t14 = load i64, ptr %k\n",
        "  %t15 = icmp uge i64 %t14, %khi\n",
        "  br i1 %t15, label %bb13, label %bb12\n",
        "bb12:\n",
        "  %t16 = add i64 %r1, %t14\n",
        "  %t17 = getelementptr [40 x float], ptr %a, i64 0, i64 %t16\n",
        "  %t18 = load float, ptr %t17\n",
        "  %t19 = sub i64 %t14, %klo\n",
        "  %t20 = add i64 %t19, 8\n",
        "  %t21 = getelementptr [16 x float], ptr %ap, i64 0, i64 %t20\n",
        "  store float %t18, ptr %t21\n",
        "  %t22 = add i64 %t14, 1\n",
        "  store i64 %t22, ptr %k\n",
        "  br label %bb11\n",
        "bb13:\n",
    ]
    .concat();
    assert_eq!(e.body, expected);
    assert_eq!(e.next, 23);
}

#[test]
fn kc_boundary_tile_clips_then_runs_the_one_row_trio_at_base_zero() {
    let ir = empty_ir();
    let site = kc_site();
    let ctx = kc_ctx(2);
    let mut e = emitter(&ir, 0);
    e.emit_tile_kc_boundary_tile(&site, &ctx, "%r0", "%jlo", "%jhi", "%j0", "4", true, &apack(), "%klo", "%khi", false);
    let head = [
        "  %t0 = udiv i64 %j0, 4\n",
        "  %t1 = mul i64 %t0, 80\n",
        "  %t2 = add i64 %j0, 4\n",
        "  %t3 = icmp ult i64 %jlo, %j0\n",
        "  %t4 = select i1 %t3, i64 %j0, i64 %jlo\n",
        "  %t5 = icmp ugt i64 %jhi, %t2\n",
        "  %t6 = select i1 %t5, i64 %t2, i64 %jhi\n",
        "  %t7 = icmp ult i64 %t4, %t6\n",
        "  br i1 %t7, label %bb8, label %bb9\n",
        "bb8:\n",
        "  %t10 = sub i64 %t6, %t4\n",
        "  %t11 = sub i64 %t4, %j0\n",
    ]
    .concat();
    let mut tr = emitter(&ir, 12);
    tr.emit_tile_kc_trio(&site, &ctx, &apack(), "%t4", "0", "%r0", 1, "%t10", true, "%t1", Some("%t11"), "%klo", "%khi", false);
    assert_eq!(e.body, format!("{head}{}  br label %bb9\nbb9:\n", tr.body));
    assert_eq!(e.next, tr.next);
}

#[test]
fn kc_j_split_runs_block_tiles_then_the_short_remainder() {
    let ir = empty_ir();
    let site = kc_site();
    let ctx = kc_ctx(2);
    let mut e = emitter(&ir, 0);
    e.emit_tile_kc_j_split(&site, &ctx, "%j", "%jb0", "%jbe", "%r0", 2, &apack(), "0", "8", true);
    let mut main = emitter(&ir, 10);
    main.emit_tile_kc_trio(&site, &ctx, &apack(), "%t5", "0", "%r0", 2, "4", true, "%t9", None, "0", "8", true);
    let u = main.next;
    let mut rem = emitter(&ir, u + 5);
    let w = format!("%t{}", u + 2);
    let pb = format!("%t{}", u + 4);
    rem.emit_tile_kc_trio(&site, &ctx, &apack(), "%t5", "0", "%r0", 2, &w, false, &pb, None, "0", "8", true);
    let open = [
        "  store i64 %jb0, ptr %j\n",
        "  br label %bb0\n",
        "bb0:\n",
        "  %t5 = load i64, ptr %j\n",
        "  %t6 = add i64 %t5, 4\n",
        "  %t7 = icmp ule i64 %t6, %jbe\n",
        "  br i1 %t7, label %bb1, label %bb2\n",
        "bb1:\n",
        "  %t8 = udiv i64 %t5, 4\n",
        "  %t9 = mul i64 %t8, 80\n",
    ]
    .concat();
    let step = format!(
        "  %t{u} = add i64 %t5, 4\n  store i64 %t{u}, ptr %j\n  br label %bb0\nbb2:\n  %t{a} = icmp ult i64 %t5, %jbe\n  br i1 %t{a}, label %bb3, label %bb4\nbb3:\n  %t{b} = sub i64 %jbe, %t5\n  %t{c} = udiv i64 %t5, 4\n  %t{d} = mul i64 %t{c}, 80\n",
        a = u + 1,
        b = u + 2,
        c = u + 3,
        d = u + 4,
    );
    assert_eq!(e.body, format!("{open}{}{step}{}  br label %bb4\nbb4:\n", main.body, rem.body));
    assert_eq!(e.next, rem.next);
}

#[test]
fn packed_kc_walks_nc_blocks_and_kc_panels() {
    let ir = empty_ir();
    let site = kc_site();
    let ctx = kc_ctx(2);
    let mut e = emitter(&ir, 0);
    e.emit_tile_packed_kc(&site, &ctx, "%i", "%j", "%lo", "%hi", "%ilo", "%ihi", "%flo", "%fhi", &apack(), 16);
    assert_eq!(e.allocas, "  %s0 = alloca i64\n  %s1 = alloca i64\n");
    let open = [
        "  store i64 0, ptr %s0\n",
        "  br label %bb2\n",
        "bb2:\n",
        "  %t8 = load i64, ptr %s0\n",
        "  %t9 = icmp uge i64 %t8, 8\n",
        "  br i1 %t9, label %bb4, label %bb3\n",
        "bb3:\n",
        "  %t10 = add i64 %t8, 16\n",
        "  %t11 = icmp ugt i64 %t10, 8\n",
        "  %t12 = select i1 %t11, i64 8, i64 %t10\n",
    ]
    .concat();
    let mut first = emitter(&ir, 13);
    first.emit_tile_kc_i_regions(&site, &ctx, "%i", "%j", "%lo", "%hi", "%ilo", "%ihi", "%flo", "%fhi", &apack(), "%t8", "%t12", "0", "8", true);
    let u = first.next;
    let kc_open = format!(
        "  store i64 8, ptr %s1\n  br label %bb5\nbb5:\n  %t{u} = load i64, ptr %s1\n  %t{a} = icmp uge i64 %t{u}, 20\n  br i1 %t{a}, label %bb7, label %bb6\nbb6:\n  %t{b} = add i64 %t{u}, 8\n  %t{c} = icmp ugt i64 %t{b}, 20\n  %t{d} = select i1 %t{c}, i64 20, i64 %t{b}\n",
        a = u + 1,
        b = u + 2,
        c = u + 3,
        d = u + 4,
    );
    let mut later = emitter(&ir, u + 5);
    let kc = format!("%t{u}");
    let k_hi = format!("%t{}", u + 4);
    later.emit_tile_kc_i_regions(&site, &ctx, "%i", "%j", "%lo", "%hi", "%ilo", "%ihi", "%flo", "%fhi", &apack(), "%t8", "%t12", &kc, &k_hi, false);
    let v = later.next;
    let close = format!(
        "  %t{v} = add i64 %t{u}, 8\n  store i64 %t{v}, ptr %s1\n  br label %bb5\nbb7:\n  %t{w} = add i64 %t8, 16\n  store i64 %t{w}, ptr %s0\n  br label %bb2\nbb4:\n",
        w = v + 1,
    );
    assert_eq!(e.body, format!("{open}{}{kc_open}{}{close}", first.body, later.body));
    assert_eq!(e.next, v + 2);
}
