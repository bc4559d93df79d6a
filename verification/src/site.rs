//! Tile sites: matmul-shaped map sites the emitter realizes with a tiled nest,
//! and the predicates that pick the rung for one.
use vstd::prelude::*;
use crate::ir::{Ty, Value};

verus! {

/// The fold axis of a k-split read, decomposed as `k = kq * div + kr`: the
/// read advances by `cq` per `kq` and by `cr` per `kr`.
pub struct KSplit {
    pub div: u64,
    pub cq: u64,
    pub cr: u64,
}

/// One affine operand read of a tile site: element
/// `base + ci * i + ck * k + clane * lane` of the array in product slot `slot`.
pub struct TileRead {
    pub slot: u32,
    pub base: u64,
    /// Stride along the output rows.
    pub ci: u64,
    /// Stride along the fold axis.
    pub ck: u64,
    /// Stride along the output lanes.
    pub clane: u64,
    /// Present when the read is affine in the fold's derived axes
    /// (`k / div`, `k % div`) rather than in `k` itself.
    pub ksplit: Option<KSplit>,
}

/// A recognized matmul-shaped map site: `rows x c` outputs, each a fold over
/// `k` of `a * b` seeded with `seed`, in the operand orders the source wrote.
pub struct TileSite {
    pub rows: u64,
    pub c: u64,
    pub k: u64,
    pub elem: Ty,
    pub a: TileRead,
    pub b: TileRead,
    pub seed: Value,
    /// The product is written `a * b` (else `b * a`).
    pub mul_a_first: bool,
    /// The sum is written `acc + product` (else `product + acc`).
    pub add_acc_first: bool,
}

pub open spec fn is_packing_site(site: TileSite) -> bool {
    site.rows > 1 && site.b.ci == 0 && site.b.ksplit is None
}

pub open spec fn is_window1d_site(site: TileSite) -> bool {
    site.rows == 1 && site.b.ck == 1 && site.b.ksplit is None
}

pub open spec fn is_conv_site(site: TileSite) -> bool {
    site.a.ksplit is None && site.b.ksplit is Some && site.b.ck == 0 && site.a.clane == 0
        && site.b.clane == 1
}

/// Sites whose right-hand operand is row-invariant are packed; k-split sites
/// never pack (the packed panel has no encoding for the split).
pub fn packing_site(site: &TileSite) -> (r: bool)
    ensures
        r == is_packing_site(*site),
{
    site.rows > 1 && site.b.ci == 0 && site.b.ksplit.is_none()
}

/// FIR-style 1-D sliding-window sites: a single-row map whose unit-stride
/// read `b` slides with the fold.
pub fn window1d_site(site: &TileSite) -> (r: bool)
    ensures
        r == is_window1d_site(*site),
{
    site.rows == 1 && site.b.ck == 1 && site.b.ksplit.is_none()
}

/// conv2d-style k-split sites: the sliding read `b` is affine in the fold's
/// derived axes while `a` stays the plain broadcast read.
pub fn conv_site(site: &TileSite) -> (r: bool)
    ensures
        r == is_conv_site(*site),
{
    site.a.ksplit.is_none() && site.b.ksplit.is_some() && site.b.ck == 0 && site.a.clane == 0
        && site.b.clane == 1
}

/// The three rungs are exclusive: no site is both a packing and a window
/// site, and a conv site is neither.
pub proof fn lemma_rungs_exclusive(site: TileSite)
    ensures
        !(is_packing_site(site) && is_window1d_site(site)),
        !(is_conv_site(site) && is_packing_site(site)),
        !(is_conv_site(site) && is_window1d_site(site)),
{
}

/// Which nest a tiled site takes.
#[derive(PartialEq, Eq, Structural, Debug, Clone, Copy)]
pub enum TileRoute {
    /// The unrolled conv micro-kernel.
    Conv,
    /// The 1-D sliding-window register blocks.
    Window1d,
    /// Register blocking over rows that share `b`.
    Blocked,
    /// The plain nest.
    Plain,
}

/// The route of a tiled site: conv sites first, then 1-D windows, then
/// multi-row sites whose `b` is row-invariant; the plain nest otherwise.
pub open spec fn tile_route_of(site: TileSite) -> TileRoute {
    if is_conv_site(site) {
        TileRoute::Conv
    } else if is_window1d_site(site) {
        TileRoute::Window1d
    } else if site.rows > 1 && site.b.ci == 0 {
        TileRoute::Blocked
    } else {
        TileRoute::Plain
    }
}

/// The nest a tiled site takes.
pub fn tile_route(site: &TileSite) -> (r: TileRoute)
    ensures
        r == tile_route_of(*site),
{
    if conv_site(site) {
        TileRoute::Conv
    } else if window1d_site(site) {
        TileRoute::Window1d
    } else if site.rows > 1 && site.b.ci == 0 {
        TileRoute::Blocked
    } else {
        TileRoute::Plain
    }
}

} // verus!
