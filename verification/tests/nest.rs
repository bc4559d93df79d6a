use lib::emit::EmitPlan;
use lib::emit::{FnEmit, GuardFlavor, PackedBuffer, TileCtx};
use lib::ir::{CategoryIr, Ty, Value};
use lib::site::{TileRead, TileSite};

fn empty_ir() -> CategoryIr {
    CategoryIr { objects: Vec::new(), morphisms: Vec::new(), funcs: Vec::new(), in_edges: Vec::new(), out_edges: Vec::new() }
}

fn emitter(ir: &CategoryIr, next: u32) -> FnEmit<'_> {
    FnEmit {
        ir,
        f: 0,
        slots: Vec::new(),
        frame: None,
        frame_geps: String::new(),
        runtime_write: false,
        allocas: String::new(),
        body: String::new(),
        next,
        guard_flavor: GuardFlavor::Host,
        split_range: false,
        perf_timing: false,
        move_panel: None,
        heap_min_bytes: 256 * 1024,
        heap_ok: false,
        heap_used: false,
        elem: Vec::new(),
        elided_arrays: Vec::new(),
        elided_updates: Vec::new(),
        update_aliases: Vec::new(),
        host: None,
        plan: EmitPlan { gated: Vec::new(), guard_sites: Vec::new(), tile_plan: None, packing: false, contract: false, kc_nest: false },
    }
}

fn nest_ctx(tile_i: u64, packed: Option<PackedBuffer>) -> TileCtx {
    let s = |x: &str| x.to_string();
    TileCtx {
        acc: s("%acc"),
        acc_llt: s("[4 x float]"),
        elem_llt: s("float"),
        seed: s("0.0"),
        mul_op: "fmul",
        add_op: "fadd",
        a_ptr: s("%a"),
        b_ptr: s("%b"),
        out_ptr: s("%out"),
        a_llt: s("[8 x float]"),
        b_llt: s("[16 x float]"),
        out_llt: s("[8 x float]"),
        k_ctr: s("%k"),
        lane_ctr: s("%lane"),
        tile_j: 4,
        tile_i,
        tile_kc: 8,
        packed,
        contract_flag: "",
    }
}

fn nest_site(a_base: u64) -> TileSite {
    let read = |base, ci, ck| TileRead { slot: 0, base, ci, ck, clane: 1, ksplit: None };
    TileSite {
        rows: 2,
        c: 8,
        k: 2,
        elem: Ty::Float { bits: 32 },
        a: read(a_base, 2, 1),
        b: read(0, 0, 4),
        seed: Value::F32(0),
        mul_a_first: true,
        add_acc_first: true,
    }
}

#[test]
fn j_split_runs_main_tiles_then_one_runtime_width_remainder() {
    let ir = empty_ir();
    let site = nest_site(0);
    let ctx = nest_ctx(1, None);
    let a_rows = [Some("%ar".to_string())];
    let mut e = emitter(&ir, 0);
    e.emit_tile_j_split(&site, &ctx, "%j", "%lo", "%hi", "%r0", &a_rows, &None);

    let mut main = emitter(&ir, 8);
    main.emit_tile_trio(&site, &ctx, "%t5", "%r0", &a_rows, &None, "4", true, None, None);
    let u = main.next;
    let mut rem = emitter(&ir, u + 5);
    rem.emit_tile_trio(&site, &ctx, "%t5", "%r0", &a_rows, &None, &format!("%t{}", u + 4), false, None, None);

    let open = [
        "  store i64 %lo, ptr %j\n",
        "  br label %bb0\n",
        "bb0:\n",
        "  %t5 = load i64, ptr %j\n",
        "  %t6 = add i64 %t5, 4\n",
        "  %t7 = icmp ule i64 %t6, %hi\n",
        "  br i1 %t7, label %bb1, label %bb2\n",
        "bb1:\n",
    ]
    .concat();
    let step = format!(
        "  %t{u} = add i64 %t5, 4\n  store i64 %t{u}, ptr %j\n  br label %bb0\nbb2:\n  %t{} = icmp ult i64 %t5, %hi\n  br i1 %t{}, label %bb3, label %bb4\nbb3:\n  %t{} = sub i64 %hi, %t5\n  %t{} = icmp ult i64 %t{}, 4\n  %t{} = select i1 %t{}, i64 %t{}, i64 4\n",
        u + 1,
        u + 1,
        u + 2,
        u + 3,
        u + 2,
        u + 4,
        u + 3,
        u + 2,
    );
    let expected = format!("{open}{}{step}{}  br label %bb4\nbb4:\n", main.body, rem.body);
    assert_eq!(e.body, expected);
    assert_eq!(e.next, rem.next);
    // The main tile at the literal width takes the phi-carried vector form.
    assert!(main.body.contains(" = phi <4 x float> "));
    assert!(!rem.body.contains(" = phi "));
}

#[test]
fn row_split_clips_the_window_and_hoists_row_bases() {
    let ir = empty_ir();
    let site = nest_site(3);
    let ctx = nest_ctx(1, None);
    let mut e = emitter(&ir, 0);
    e.emit_tile_row_split_j(&site, &ctx, "%j", "%lo", "%hi", "%i");
    let head = [
        "  %t0 = mul i64 %i, 8\n",
        "  %t1 = sub i64 %lo, %t0\n",
        "  %t2 = icmp slt i64 %t1, 0\n",
        "  %t3 = select i1 %t2, i64 0, i64 %t1\n",
        "  %t4 = sub i64 %hi, %t0\n",
        "  %t5 = icmp sgt i64 %t4, 8\n",
        "  %t6 = select i1 %t5, i64 8, i64 %t4\n",
        "  %t7 = mul i64 %i, 2\n",
        "  %t8 = add i64 3, %t7\n",
    ]
    .concat();
    let mut js = emitter(&ir, 9);
    js.emit_tile_j_split(&site, &ctx, "%j", "%t3", "%t6", "%t0", &[Some("%t8".to_string())], &None);
    assert_eq!(e.body, format!("{head}{}", js.body));
    assert_eq!(e.next, js.next);
}

#[test]
fn packed_boundary_row_clips_the_tile_to_the_row_window() {
    let ir = empty_ir();
    let site = nest_site(0);
    let s = |x: &str| x.to_string();
    let ctx = nest_ctx(1, Some(PackedBuffer { ptr: s("%bp"), llt: s("[64 x float]") }));
    let mut e = emitter(&ir, 0);
    e.emit_tile_packed_boundary_row(&site, &ctx, "%lo", "%hi", "%i", "%j0", "4", true, "%pb");
    let head = [
        "  %t0 = mul i64 %i, 8\n",
        "  %t1 = sub i64 %lo, %t0\n",
        "  %t2 = icmp slt i64 %t1, 0\n",
        "  %t3 = select i1 %t2, i64 0, i64 %t1\n",
        "  %t4 = sub i64 %hi, %t0\n",
        "  %t5 = icmp sgt i64 %t4, 8\n",
        "  %t6 = select i1 %t5, i64 8, i64 %t4\n",
        "  %t7 = add i64 %j0, 4\n",
        "  %t8 = icmp ult i64 %t3, %j0\n",
        "  %t9 = select i1 %t8, i64 %j0, i64 %t3\n",
        "  %t10 = icmp ugt i64 %t6, %t7\n",
        "  %t11 = select i1 %t10, i64 %t7, i64 %t6\n",
        "  %t12 = icmp ult i64 %t9, %t11\n",
        "  br i1 %t12, label %bb13, label %bb14\n",
        "bb13:\n",
        "  %t15 = sub i64 %t11, %t9\n",
        "  %t16 = sub i64 %t9, %j0\n",
        "  %t17 = mul i64 %i, 2\n",
    ]
    .concat();
    let mut tr = emitter(&ir, 18);
    tr.emit_tile_trio(&site, &ctx, "%t9", "%t0", &[Some("%t17".to_string())], &None, "%t15", true, Some("%pb"), Some("%t16"));
    assert_eq!(e.body, format!("{head}{}  br label %bb14\nbb14:\n", tr.body));
    // A panel lane offset keeps the boundary row on the memory form.
    assert!(!tr.body.contains(" = phi "));
    assert!(tr.body.contains("add i64 %t16, "));
}

#[test]
fn i_regions_run_head_rows_blocks_then_tail_rows() {
    let ir = empty_ir();
    let site = nest_site(0);
    let ctx = nest_ctx(2, None);
    let mut e = emitter(&ir, 0);
    e.emit_tile_i_regions(&site, &ctx, "%i", "%j", "%lo", "%hi", "%ilo", "%ihi", "%flo", "%fhi", None);
    let b = &e.body;
    let head = b.find("  store i64 %ilo, ptr %i\n").unwrap();
    let block = b.find("  store i64 %flo, ptr %i\n").unwrap();
    assert_eq!(head, 0);
    assert!(block > head);
    assert!(b[block..].contains("icmp ule i64 "));
    assert!(b[block..].contains(", %fhi\n"));
    assert!(b.contains(", %ihi\n"));
    assert!(b.contains("icmp uge i64 %t3, %flo\n"));
}
