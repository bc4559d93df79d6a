//! Verified pieces of an LLVM-text function emitter: type-text sizing, the
//! function-attribute analysis, tile-site classification and the text buffers.
pub mod access;
pub mod arith;
pub mod attrs;
pub mod checkpoint;
pub mod conv;
pub mod conv_block;
pub mod conv_range;
pub mod define;
pub mod elide;
pub mod emit;
pub mod frame;
pub mod graph;
pub mod guard;
pub mod kc;
pub mod host;
pub mod layout;
pub mod ir;
pub mod llt;
pub mod meaning;
pub mod nest;
pub mod pack;
pub mod plain;
pub mod num;
pub mod print;
pub mod rungs;
pub mod site;
pub mod sme;
pub mod task;
pub mod tile;
pub mod trio;
pub mod walk;

use vstd::prelude::*;

verus! {

/// Picks the signed or the unsigned spelling of a predicate.
pub fn sign_pred(signed: bool, s: &'static str, u: &'static str) -> (r: &'static str)
    ensures
        r == (if signed { s } else { u }),
{
    if signed { s } else { u }
}

} // verus!
