//! A reversible byte transform with an integrity-checked container.
//!
//! Data is cut into zones; each zone takes up to a few passes (mask, multiply,
//! mask, swap pairs, mask), chosen by how they change its entropy, and the
//! result is framed with its length and CRC-32. Decoding undoes the passes.
use vstd::prelude::*;

pub mod arith;
pub mod codec;
pub mod container;
pub mod gf;
pub mod masks;
pub mod pass;
pub mod search;
pub mod zones;

verus! {

} // verus!
