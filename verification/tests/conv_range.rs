use lib::emit::EmitPlan;
use lib::conv::ConvTileCtx;
use lib::emit::{FnEmit, GuardFlavor};
use lib::ir::{CategoryIr, Ty, Value};
use lib::site::{KSplit, TileRead, TileSite};

fn empty_ir() -> CategoryIr {
    CategoryIr { objects: Vec::new(), morphisms: Vec::new(), funcs: Vec::new(), in_edges: Vec::new(), out_edges: Vec::new() }
}

fn emitter(ir: &CategoryIr, next: u32) -> FnEmit<'_> {
    FnEmit {
        ir,
        f: 0,
        slots: Vec::new(),
        frame: None,
        frame_geps: String::new(),
        runtime_write: false,
        allocas: String::new(),
        body: String::new(),
        next,
        guard_flavor: GuardFlavor::Host,
        split_range: false,
        perf_timing: false,
        move_panel: None,
        heap_min_bytes: 256 * 1024,
        heap_ok: false,
        heap_used: false,
        elem: Vec::new(),
        elided_arrays: Vec::new(),
        elided_updates: Vec::new(),
        update_aliases: Vec::new(),
        host: None,
        plan: EmitPlan { gated: Vec::new(), guard_sites: Vec::new(), tile_plan: None, packing: false, contract: false, kc_nest: false },
    }
}

fn ctx() -> ConvTileCtx {
    let s = |x: &str| x.to_string();
    ConvTileCtx {
        tile_j: 4,
        acc: s("%acc"),
        acc_llt: s("[4 x float]"),
        elem_llt: s("float"),
        seed: s("0.0"),
        mul_op: "fmul",
        add_op: "fadd",
        a_ptr: s("%a"),
        b_ptr: s("%b"),
        out_ptr: s("%out"),
        a_llt: s("[16 x float]"),
        b_llt: s("[64 x float]"),
        out_llt: s("[32 x float]"),
        lane_ctr: s("%lane"),
        contract_flag: "",
    }
}

fn site(k: u64, a_ci: u64, b_ci: u64) -> TileSite {
    TileSite {
        rows: 4,
        c: 8,
        k,
        elem: Ty::Float { bits: 32 },
        a: TileRead { slot: 0, base: 0, ci: a_ci, ck: 1, clane: 0, ksplit: None },
        b: TileRead { slot: 1, base: 0, ci: b_ci, ck: 0, clane: 1, ksplit: Some(KSplit { div: 2, cq: 8, cr: 1 }) },
        seed: Value::F32(0),
        mul_a_first: true,
        add_acc_first: true,
    }
}

#[test]
fn conv_row_range_runs_each_row_from_the_counter() {
    let ir = empty_ir();
    let st = site(2, 0, 8);
    let mut e = emitter(&ir, 0);
    e.emit_conv_row_range(&st, &ctx(), "%i", "%j", "%to", "%lo", "%hi");
    let head = [
        "  br label %bb0\n",
        "bb0:\n",
        "  %t3 = load i64, ptr %i\n",
        "  %t4 = icmp uge i64 %t3, %to\n",
        "  br i1 %t4, label %bb2, label %bb1\n",
        "bb1:\n",
        "  %t5 = mul i64 %t3, 8\n",
        "  %t6 = sub i64 %lo, %t5\n",
        "  %t7 = icmp slt i64 %t6, 0\n",
        "  %t8 = select i1 %t7, i64 0, i64 %t6\n",
        "  %t9 = sub i64 %hi, %t5\n",
        "  %t10 = icmp sgt i64 %t9, 8\n",
        "  %t11 = select i1 %t10, i64 8, i64 %t9\n",
        "  %t12 = mul i64 %t3, 8\n",
    ]
    .concat();
    // a's row is invariant (ci 0, base 0), so only b gets a row base.
    let mut js = emitter(&ir, 13);
    js.emit_conv_j_split(&st, &ctx(), "%j", "%t8", "%t11", "%t5", &None, &Some("%t12".to_string()));
    let n = js.next;
    let tail = format!("  %t{n} = add i64 %t3, 1\n  store i64 %t{n}, ptr %i\n  br label %bb0\nbb2:\n");
    assert_eq!(e.body, format!("{head}{}{tail}", js.body));
    assert_eq!(e.next, n + 1);
}

#[test]
fn conv_j_split_main_tiles_take_the_vector_form() {
    let ir = empty_ir();
    let st = site(2, 0, 0);
    let mut e = emitter(&ir, 0);
    e.emit_conv_j_split(&st, &ctx(), "%j", "%jlo", "%jhi", "%r0", &None, &Some("%br".to_string()));
    let mut main = emitter(&ir, 8);
    main.emit_tile_conv_tile(&st, &ctx(), "%t5", "%r0", &None, &Some("%br".to_string()), "4");
    let u = main.next;
    let mut rem = emitter(&ir, u + 5);
    rem.emit_tile_conv_tile(&st, &ctx(), "%t5", "%r0", &None, &Some("%br".to_string()), &format!("%t{}", u + 4));
    assert!(e.body.contains(&main.body));
    assert!(e.body.ends_with(&format!("{}  br label %bb4\nbb4:\n", rem.body)));
    assert!(main.body.contains("store <4 x float> "));
    assert!(!rem.body.contains("<4 x float>"));
    assert_eq!(e.next, rem.next);
}

#[test]
fn conv_block_tile_loads_each_tap_once_for_its_rows() {
    let ir = empty_ir();
    // K = 2 with div 2: one tap row per output row; q = 1 so the two block
    // rows use tap rows 0 and 1 respectively.
    let st = site(2, 4, 8);
    let mut e = emitter(&ir, 0);
    let a_rows = [Some("%a0".to_string()), Some("%a1".to_string())];
    e.emit_conv_block_tile(&st, &ctx(), "%j0", "%r0", &a_rows, &Some("%b0".to_string()), 2, 1);
    let fma = |a: u32, row: &str, k: u32, bvec: u32, acc: &str| {
        format!(
            "  %t{a} = add i64 {row}, {k}\n  %t{} = getelementptr [16 x float], ptr %a, i64 0, i64 %t{a}\n  %t{} = load float, ptr %t{}\n  %t{} = insertelement <4 x float> poison, float %t{}, i64 0\n  %t{} = shufflevector <4 x float> %t{}, <4 x float> poison, <4 x i32> zeroinitializer\n  %t{} = fmul <4 x float> %t{}, %t{bvec}\n  %t{} = fadd <4 x float> {acc}, %t{}\n",
            a + 1,
            a + 2,
            a + 1,
            a + 3,
            a + 2,
            a + 4,
            a + 3,
            a + 5,
            a + 4,
            a + 6,
            a + 5,
        )
    };
    let bload = |g: u32, start: &str| {
        format!(
            "  %t{g} = getelementptr [64 x float], ptr %b, i64 0, i64 {start}\n  %t{} = load <4 x float>, ptr %t{g}, align 4\n",
            g + 1
        )
    };
    let mut expected = String::from("  %t0 = add i64 %b0, %j0\n");
    for (a, b) in [(1, 2), (3, 4)] {
        expected.push_str(&format!(
            "  %t{a} = insertelement <4 x float> poison, float 0.0, i64 0\n  %t{b} = shufflevector <4 x float> %t{a}, <4 x float> poison, <4 x i32> zeroinitializer\n"
        ));
    }
    expected.push_str(&bload(5, "%t0"));
    expected.push_str(&fma(7, "%a0", 0, 6, "%t2"));
    expected.push_str("  %t14 = add i64 %t0, 1\n");
    expected.push_str(&bload(15, "%t14"));
    expected.push_str(&fma(17, "%a0", 1, 16, "%t13"));
    expected.push_str("  %t24 = add i64 %t0, 8\n");
    expected.push_str(&bload(25, "%t24"));
    expected.push_str(&fma(27, "%a1", 0, 26, "%t4"));
    expected.push_str("  %t34 = add i64 %t0, 9\n");
    expected.push_str(&bload(35, "%t34"));
    expected.push_str(&fma(37, "%a1", 1, 36, "%t33"));
    expected.push_str(
        "  %t44 = add i64 %r0, 0\n  %t45 = add i64 %t44, %j0\n  %t46 = getelementptr [32 x float], ptr %out, i64 0, i64 %t45\n  store <4 x float> %t23, ptr %t46, align 4\n",
    );
    expected.push_str(
        "  %t47 = add i64 %r0, 8\n  %t48 = add i64 %t47, %j0\n  %t49 = getelementptr [32 x float], ptr %out, i64 0, i64 %t48\n  store <4 x float> %t43, ptr %t49, align 4\n",
    );
    assert_eq!(e.body, expected);
    assert_eq!(e.next, 50);
}

#[test]
fn conv_block_tile_shares_a_tap_row_between_rows() {
    let ir = empty_ir();
    // K = 4 with div 2: two tap rows per output row; at q = 1 the middle
    // tap row is both rows' and is loaded once per kr.
    let st = site(4, 4, 8);
    let mut e = emitter(&ir, 0);
    let a_rows = [Some("%a0".to_string()), Some("%a1".to_string())];
    e.emit_conv_block_tile(&st, &ctx(), "%j0", "%r0", &a_rows, &Some("%b0".to_string()), 2, 1);
    // Three tap rows times two kr: six b loads, eight FMAs.
    assert_eq!(e.body.matches(" = load <4 x float>, ptr ").count(), 6);
    assert_eq!(e.body.matches(" = fadd <4 x float> ").count(), 8);
    assert_eq!(e.body.matches("store <4 x float> ").count(), 2);
    // Each row's chain still walks its own k = 0..4 in ascending order.
    for row in ["%a0", "%a1"] {
        let at: Vec<usize> = (0..4).map(|k| e.body.find(&format!("add i64 {row}, {k}\n")).unwrap()).collect();
        assert!(at.windows(2).all(|w| w[0] < w[1]));
    }
}

#[test]
fn conv_blocked_range_runs_blocks_then_remainder_rows() {
    let ir = empty_ir();
    let st = site(2, 4, 8);
    let mut e = emitter(&ir, 0);
    e.emit_conv_blocked_range(&st, &ctx(), "%i", "%j", "%to", 2, 1);
    let open = [
        "  br label %bb0\n",
        "bb0:\n",
        "  %t3 = load i64, ptr %i\n",
        "  %t4 = add i64 %t3, 2\n",
        "  %t5 = icmp ule i64 %t4, %to\n",
        "  br i1 %t5, label %bb1, label %bb2\n",
        "bb1:\n",
        "  %t6 = mul i64 %t3, 8\n",
        "  %t7 = mul i64 %t3, 4\n",
        "  %t8 = add i64 %t7, 4\n",
        "  %t9 = mul i64 %t3, 8\n",
        "  %t10 = add i64 %t9, 8\n",
        "  store i64 0, ptr %j\n",
        "  br label %bb11\n",
        "bb11:\n",
        "  %t14 = load i64, ptr %j\n",
        "  %t15 = add i64 %t14, 4\n",
        "  %t16 = icmp ule i64 %t15, 8\n",
        "  br i1 %t16, label %bb12, label %bb13\n",
        "bb12:\n",
    ]
    .concat();
    let a_rows = [Some("%t7".to_string()), Some("%t8".to_string())];
    let mut blk = emitter(&ir, 17);
    blk.emit_conv_block_tile(&st, &ctx(), "%t14", "%t6", &a_rows, &Some("%t9".to_string()), 2, 1);
    let x = blk.next;
    let j_close = format!(
        "  %t{x} = add i64 %t14, 4\n  store i64 %t{x}, ptr %j\n  br label %bb11\nbb13:\n  %t{a} = load i64, ptr %j\n  %t{b} = icmp ult i64 %t{a}, 8\n  br i1 %t{b}, label %bb{c}, label %bb{d}\nbb{c}:\n  %t{f} = sub i64 8, %t{a}\n",
        a = x + 1,
        b = x + 2,
        c = x + 3,
        d = x + 4,
        f = x + 5,
    );
    let j_rem = format!("%t{}", x + 1);
    let rem_len = format!("%t{}", x + 5);
    let mut r0 = emitter(&ir, x + 6);
    r0.emit_tile_conv_tile(&st, &ctx(), &j_rem, "%t6", &Some("%t7".to_string()), &Some("%t9".to_string()), &rem_len);
    let y = r0.next;
    let mut r1 = emitter(&ir, y + 1);
    r1.emit_tile_conv_tile(&st, &ctx(), &j_rem, &format!("%t{y}"), &Some("%t8".to_string()), &Some("%t10".to_string()), &rem_len);
    let close = format!("  br label %bb{d}\nbb{d}:\n  store i64 %t4, ptr %i\n  br label %bb0\nbb2:\n", d = x + 4);
    let expected = format!("{open}{}{j_close}{}  %t{y} = add i64 %t6, 8\n{}{close}", blk.body, r0.body, r1.body);
    assert_eq!(e.body, expected);
    assert_eq!(e.next, r1.next);
}
