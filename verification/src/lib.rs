//! An in-memory semantic index over short text passages: documents are split
//! into bounded chunks (or parsed out of chat exports), paired with
//! fixed-point embedding vectors, and ranked against a query vector by dot
//! product.

pub mod chunker;
pub mod index;
pub mod models;
pub mod parser;
pub mod ranking;
pub mod text;

use vstd::prelude::*;

verus! {

/// Denominator of the fixed-point representation of embedding components:
/// a stored component `e` stands for the real number `e / EMBED_SCALE`.
pub const EMBED_SCALE: i64 = 1000000;

/// Allowed deviation of a stored embedding's sum of squared components from
/// `EMBED_SCALE * EMBED_SCALE` (a unit vector in fixed point): covers the
/// provider's numerical tolerance on the norm and the rounding of each
/// component to fixed point.
pub const EMBED_NORM_TOL: i64 = 10000000000;

} // verus!
