use vstd::prelude::*;
use crate::geometry::Point2;

verus! {

/// The capability the rasterizer depends on: a shape is mesh-like when it
/// can decide boundary-inclusive point containment. Any future shape kind
/// can be drawn by the same pass by implementing this trait; the decision
/// must be pure and match the implementer's stated containment relation.
pub trait Mesh {
    /// The mathematical containment relation this shape decides, over
    /// fixed-point coordinates.
    spec fn contains_spec(&self, px: int, py: int) -> bool;

    /// When the shape may be queried at `point` (coordinate ranges that keep
    /// the implementer's arithmetic exact).
    spec fn query_allowed(&self, point: Point2) -> bool;

    /// Decides whether `point` lies in the shape, boundary included.
    fn contains_point(&self, point: Point2) -> (r: bool)
        requires
            self.query_allowed(point),
        ensures
            r == self.contains_spec(point.x as int, point.y as int),
    ;
}

} // verus!
