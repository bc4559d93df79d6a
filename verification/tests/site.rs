use lib::ir::{Ty, Value};
use lib::site::{conv_site, packing_site, tile_route, window1d_site, KSplit, TileRead, TileRoute, TileSite};

fn read(ci: u64, ck: u64, clane: u64, div: Option<u64>) -> TileRead {
    let ksplit = div.map(|div| KSplit { div, cq: 1, cr: 1 });
    TileRead { slot: 0, base: 0, ci, ck, clane, ksplit }
}

fn site(rows: u64, a: TileRead, b: TileRead) -> TileSite {
    TileSite {
        rows,
        c: 8,
        k: 8,
        elem: Ty::Float { bits: 32 },
        a,
        b,
        seed: Value::F32(0),
        mul_a_first: true,
        add_acc_first: true,
    }
}

#[test]
fn matmul_site_packs() {
    let s = site(4, read(8, 1, 0, None), read(0, 8, 1, None));
    assert!(packing_site(&s));
    assert!(!window1d_site(&s));
    assert!(!conv_site(&s));
}

#[test]
fn row_dependent_b_does_not_pack() {
    let s = site(4, read(8, 1, 0, None), read(1, 8, 1, None));
    assert!(!packing_site(&s));
    let s = site(1, read(8, 1, 0, None), read(0, 8, 1, None));
    assert!(!packing_site(&s));
}

#[test]
fn single_row_sliding_read_is_a_window() {
    let s = site(1, read(0, 0, 0, None), read(0, 1, 1, None));
    assert!(window1d_site(&s));
    assert!(!packing_site(&s));
}

#[test]
fn ksplit_broadcast_site_is_conv() {
    let s = site(4, read(8, 1, 0, None), read(0, 0, 1, Some(3)));
    assert!(conv_site(&s));
    assert!(!packing_site(&s));
    assert!(!window1d_site(&s));
    let s = site(4, read(8, 1, 0, Some(3)), read(0, 0, 1, Some(3)));
    assert!(!conv_site(&s));
}

#[test]
fn tile_route_orders_conv_window_blocked_plain() {
    let read = |ci, ck, clane, ksplit| TileRead { slot: 0, base: 0, ci, ck, clane, ksplit };
    let site = |rows, a: TileRead, b: TileRead| TileSite {
        rows,
        c: 8,
        k: 4,
        elem: Ty::Float { bits: 32 },
        a,
        b,
        seed: Value::F32(0),
        mul_a_first: true,
        add_acc_first: true,
    };
    let conv = site(4, read(0, 1, 0, None), read(8, 0, 1, Some(KSplit { div: 2, cq: 8, cr: 1 })));
    assert_eq!(tile_route(&conv), TileRoute::Conv);
    let fir = site(1, read(0, 1, 0, None), read(0, 1, 1, None));
    assert_eq!(tile_route(&fir), TileRoute::Window1d);
    let matmul = site(4, read(4, 1, 0, None), read(0, 8, 1, None));
    assert_eq!(tile_route(&matmul), TileRoute::Blocked);
    let plain = site(4, read(4, 1, 0, None), read(8, 8, 1, None));
    assert_eq!(tile_route(&plain), TileRoute::Plain);
}
