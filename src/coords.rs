//! Integer vectors for block and chunk positions.

use vstd::prelude::*;

verus! {

/// A position on the horizontal chunk grid (`x`, and `y` for the world's z axis).
#[derive(Copy, Clone, Debug, PartialEq, Eq, Hash, Structural)]
pub struct IVec2 {
    pub x: i32,
    pub y: i32,
}

/// A block position or offset in three dimensions.
#[derive(Copy, Clone, Debug, PartialEq, Eq, Hash, Structural)]
pub struct IVec3 {
    pub x: i32,
    pub y: i32,
    pub z: i32,
}

impl IVec2 {
    pub fn new(x: i32, y: i32) -> (r: IVec2)
        ensures
            r == (IVec2 { x, y }),
    {
        IVec2 { x, y }
    }
}

impl IVec3 {
    pub fn new(x: i32, y: i32, z: i32) -> (r: IVec3)
        ensures
            r == (IVec3 { x, y, z }),
    {
        IVec3 { x, y, z }
    }
}

} // verus!
