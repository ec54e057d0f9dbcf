use vstd::prelude::*;

verus! {

/// An axis-aligned bounding box, in fixed-point coordinates.
#[derive(Clone, Copy, Debug, PartialEq, Eq, Structural)]
pub struct Aabb {
    pub min_x: i64,
    pub min_y: i64,
    pub max_x: i64,
    pub max_y: i64,
}

impl Default for Aabb {
    /// The degenerate box at the origin.
    fn default() -> (a: Aabb)
        ensures
            a == (Aabb { min_x: 0i64, min_y: 0i64, max_x: 0i64, max_y: 0i64 }),
    {
        Aabb { min_x: 0, min_y: 0, max_x: 0, max_y: 0 }
    }
}

} // verus!
