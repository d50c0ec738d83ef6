//! Fixed-point map coordinates: cell positions and world positions.

use vstd::prelude::*;

verus! {

/// A map cell position, packed as the game packs it: 12 bits of x, 12 bits of y
/// and 8 bits of layer (always 0 here).
#[derive(Clone, Copy, Debug, PartialEq, Eq, Structural)]
pub struct CPos {
    pub bits: i32,
}

/// The packed bits of the cell `(x, y)`: x's low 12 bits in bits 20-31,
/// y's low 12 bits in bits 8-19.
pub open spec fn spec_cpos_bits(x: i32, y: i32) -> i32 {
    ((x & 0xFFF) << 20i32) | ((y & 0xFFF) << 8i32)
}

impl CPos {
    /// The cell `(x, y)` on layer 0.
    pub fn new(x: i32, y: i32) -> (r: CPos)
        ensures
            r.bits == spec_cpos_bits(x, y),
    {
        CPos { bits: ((x & 0xFFF) << 20i32) | ((y & 0xFFF) << 8i32) }
    }
}

/// A position in world units (1024 per cell).
#[derive(Clone, Copy, Debug, PartialEq, Eq, Structural)]
pub struct WPos {
    pub x: i32,
    pub y: i32,
    pub z: i32,
}

/// The sync hash of a world position: its three coordinates XOR-ed.
pub open spec fn spec_wpos_hash(p: WPos) -> i32 {
    p.x ^ p.y ^ p.z
}

impl WPos {
    /// The world position `(x, y, z)`.
    pub fn new(x: i32, y: i32, z: i32) -> (r: WPos)
        ensures
            r == (WPos { x, y, z }),
    {
        WPos { x, y, z }
    }

    /// The value this position contributes to a sync hash.
    pub fn sync_hash(&self) -> (r: i32)
        ensures
            r == spec_wpos_hash(*self),
    {
        self.x ^ self.y ^ self.z
    }
}

} // verus!
