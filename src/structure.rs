//! Placement rules for structures on the terrain surface, decided by a
//! seeded hash of the column.

use vstd::prelude::*;

verus! {

/// The column hash: a seeded mix of the column coordinates.
pub open spec fn column_hash(x: i32, z: i32, seed: u32) -> u32 {
    let h0 = seed ^ (x as u32).wrapping_mul(0x9E3779B9u32) ^ (z as u32).wrapping_mul(0x85EBCA6Bu32);
    let h1 = h0 ^ (h0 >> 16u32);
    let h2 = h1.wrapping_mul(0x7FEB352Du32);
    let h3 = h2 ^ (h2 >> 15u32);
    let h4 = h3.wrapping_mul(0x846CA68Bu32);
    h4 ^ (h4 >> 16u32)
}

/// Hashes a column and a seed to a well-mixed 32-bit value.
pub fn hash_2d(x: i32, z: i32, seed: u32) -> (r: u32)
    ensures
        r == column_hash(x, z, seed),
{
    let mut h = seed ^ (x as u32).wrapping_mul(0x9E3779B9u32) ^ (z as u32).wrapping_mul(0x85EBCA6Bu32);
    h ^= h >> 16u32;
    h = h.wrapping_mul(0x7FEB352Du32);
    h ^= h >> 15u32;
    h = h.wrapping_mul(0x846CA68Bu32);
    h ^= h >> 16u32;
    h
}

/// Where a structure may be placed: surface heights in
/// `[min_height, max_height]`, and a placement chance of `rarity` out of
/// `u32::MAX`.
#[derive(Copy, Clone, Debug, PartialEq, Eq, Structural)]
pub struct StructureRule {
    pub rarity: u32,
    pub min_height: i32,
    pub max_height: i32,
}

impl StructureRule {
    /// Whether the structure goes on column `(x, z)` whose surface is at
    /// `surface_y`: the height must be in range and the column's hash below
    /// the rarity threshold.
    pub fn should_place(&self, x: i32, z: i32, surface_y: i32, seed: u32) -> (r: bool)
        ensures
            r == (self.min_height <= surface_y <= self.max_height && column_hash(x, z, seed)
                < self.rarity),
    {
        if surface_y < self.min_height || surface_y > self.max_height {
            return false;
        }
        let h = hash_2d(x, z, seed);
        h < self.rarity
    }
}

} // verus!
