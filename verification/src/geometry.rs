use vstd::prelude::*;

verus! {

/// Bound on every coordinate handled by the geometric predicates. With
/// coordinates in `[-COORD_MAX, COORD_MAX]` (2^48 subunits, or 2^32 pixels)
/// every intermediate product in this crate fits comfortably in an `i128`.
pub const COORD_MAX: i64 = 0x1_0000_0000_0000;

/// A point in the plane. Coordinates are fixed-point: integer counts of
/// 1/`FX_ONE`-pixel subunits.
#[derive(Clone, Copy, Debug, PartialEq, Eq, Structural)]
pub struct Point2 {
    pub x: i64,
    pub y: i64,
}

impl Point2 {
    pub fn new(x: i64, y: i64) -> (p: Point2)
        ensures
            p == (Point2 { x, y }),
    {
        Point2 { x, y }
    }
}

pub open spec fn in_coord_range(p: Point2) -> bool {
    &&& -COORD_MAX <= p.x <= COORD_MAX
    &&& -COORD_MAX <= p.y <= COORD_MAX
}

/// Absolute value.
pub open spec fn sabs(v: int) -> int {
    if v < 0 {
        -v
    } else {
        v
    }
}

/// Twice the signed area of the triangle `(a, b, c)`, by the shoelace
/// formula. Twice, so that the value stays an integer; the sign gives the
/// orientation of the three points.
#[verifier::inline]
pub open spec fn area2(ax: int, ay: int, bx: int, by: int, cx: int, cy: int) -> int {
    ax * (by - cy) + bx * (cy - ay) + cx * (ay - by)
}

pub open spec fn pt_area2(a: Point2, b: Point2, c: Point2) -> int {
    area2(a.x as int, a.y as int, b.x as int, b.y as int, c.x as int, c.y as int)
}

/// The barycentric area test on integer coordinates: `(px, py)` lies in the
/// triangle (boundary included) exactly when the three triangles it forms
/// with the edges partition the whole one, that is, when their unsigned
/// areas add up to the whole unsigned area. Integer arithmetic is exact, so
/// no tolerance is needed.
pub open spec fn tri_contains_i(
    ax: int,
    ay: int,
    bx: int,
    by: int,
    cx: int,
    cy: int,
    px: int,
    py: int,
) -> bool {
    sabs(area2(px, py, bx, by, cx, cy)) + sabs(area2(ax, ay, px, py, cx, cy)) + sabs(
        area2(ax, ay, bx, by, px, py),
    ) == sabs(area2(ax, ay, bx, by, cx, cy))
}

pub open spec fn tri_contains(a: Point2, b: Point2, c: Point2, p: Point2) -> bool {
    tri_contains_i(
        a.x as int,
        a.y as int,
        b.x as int,
        b.y as int,
        c.x as int,
        c.y as int,
        p.x as int,
        p.y as int,
    )
}

/// Bounds a product from bounds on its factors.
pub proof fn lemma_mul_bound(x: int, y: int, mx: int, my: int)
    by (nonlinear_arith)
    requires
        -mx <= x <= mx,
        -my <= y <= my,
        0 <= mx,
        0 <= my,
    ensures
        -(mx * my) <= x * y <= mx * my,
{
}

/// The three sub-triangles at any point partition the signed area: their
/// signed doubled areas always sum to the whole one's.
#[verifier::rlimit(50)]
pub proof fn lemma_area2_partition(
    ax: int,
    ay: int,
    bx: int,
    by: int,
    cx: int,
    cy: int,
    px: int,
    py: int,
)
    by (nonlinear_arith)
    ensures
        area2(px, py, bx, by, cx, cy) + area2(ax, ay, px, py, cx, cy) + area2(
            ax,
            ay,
            bx,
            by,
            px,
            py,
        ) == area2(ax, ay, bx, by, cx, cy),
{
}

/// A triangle with a repeated vertex has no area.
pub proof fn lemma_area2_repeated(ax: int, ay: int, cx: int, cy: int)
    by (nonlinear_arith)
    ensures
        area2(ax, ay, ax, ay, cx, cy) == 0,
        area2(ax, ay, cx, cy, ax, ay) == 0,
        area2(cx, cy, ax, ay, ax, ay) == 0,
{
}

/// Signed areas are invariant under translating all three points.
pub proof fn lemma_area2_translate(
    ax: int,
    ay: int,
    bx: int,
    by: int,
    cx: int,
    cy: int,
    tx: int,
    ty: int,
)
    by (nonlinear_arith)
    ensures
        area2(ax + tx, ay + ty, bx + tx, by + ty, cx + tx, cy + ty) == area2(
            ax,
            ay,
            bx,
            by,
            cx,
            cy,
        ),
{
}

/// Barycentric identity with the query point at the origin: the sub-areas
/// weigh the offset vectors so that they cancel.
#[verifier::rlimit(30)]
proof fn lemma_barycentric_origin(ux: int, uy: int, vx: int, vy: int, wx: int, wy: int)
    ensures
        area2(0, 0, vx, vy, wx, wy) * ux + area2(ux, uy, 0, 0, wx, wy) * vx + area2(
            ux,
            uy,
            vx,
            vy,
            0,
            0,
        ) * wx == 0,
{
    assert(area2(0, 0, vx, vy, wx, wy) == vx * wy - wx * vy) by (nonlinear_arith);
    assert(area2(ux, uy, 0, 0, wx, wy) == wx * uy - ux * wy) by (nonlinear_arith);
    assert(area2(ux, uy, vx, vy, 0, 0) == ux * vy - vx * uy) by (nonlinear_arith);
    assert((vx * wy - wx * vy) * ux + (wx * uy - ux * wy) * vx + (ux * vy - vx * uy) * wx == 0)
        by (nonlinear_arith);
}

/// Multiplication distributes over subtraction.
proof fn lemma_mul_sub(x: int, y: int, z: int)
    by (nonlinear_arith)
    ensures
        x * (y - z) == x * y - x * z,
{
}

/// Barycentric coordinates, x part: the signed sub-areas at `p` weigh the
/// vertices' x coordinates so that they average back to `p`'s own.
pub proof fn lemma_barycentric_x(
    ax: int,
    ay: int,
    bx: int,
    by: int,
    cx: int,
    cy: int,
    px: int,
    py: int,
)
    ensures
        area2(px, py, bx, by, cx, cy) * ax + area2(ax, ay, px, py, cx, cy) * bx + area2(
            ax,
            ay,
            bx,
            by,
            px,
            py,
        ) * cx == area2(ax, ay, bx, by, cx, cy) * px,
{
    let s1 = area2(px, py, bx, by, cx, cy);
    let s2 = area2(ax, ay, px, py, cx, cy);
    let s3 = area2(ax, ay, bx, by, px, py);
    let s = area2(ax, ay, bx, by, cx, cy);
    lemma_area2_translate(0, 0, bx - px, by - py, cx - px, cy - py, px, py);
    lemma_area2_translate(ax - px, ay - py, 0, 0, cx - px, cy - py, px, py);
    lemma_area2_translate(ax - px, ay - py, bx - px, by - py, 0, 0, px, py);
    lemma_barycentric_origin(ax - px, ay - py, bx - px, by - py, cx - px, cy - py);
    assert(s1 * (ax - px) + s2 * (bx - px) + s3 * (cx - px) == 0);
    lemma_mul_sub(s1, ax, px);
    lemma_mul_sub(s2, bx, px);
    lemma_mul_sub(s3, cx, px);
    lemma_area2_partition(ax, ay, bx, by, cx, cy, px, py);
    assert(s1 * px + s2 * px + s3 * px == s * px) by (nonlinear_arith)
        requires
            s1 + s2 + s3 == s,
    ;
}

/// Swapping the x and y coordinates of all four points mirrors the plane,
/// which negates every signed area.
pub proof fn lemma_area2_swap_xy(ax: int, ay: int, bx: int, by: int, cx: int, cy: int)
    by (nonlinear_arith)
    ensures
        area2(ay, ax, by, bx, cy, cx) == -area2(ax, ay, bx, by, cx, cy),
{
}

/// Barycentric coordinates, y part.
pub proof fn lemma_barycentric_y(
    ax: int,
    ay: int,
    bx: int,
    by: int,
    cx: int,
    cy: int,
    px: int,
    py: int,
)
    ensures
        area2(px, py, bx, by, cx, cy) * ay + area2(ax, ay, px, py, cx, cy) * by + area2(
            ax,
            ay,
            bx,
            by,
            px,
            py,
        ) * cy == area2(ax, ay, bx, by, cx, cy) * py,
{
    let s1 = area2(px, py, bx, by, cx, cy);
    let s2 = area2(ax, ay, px, py, cx, cy);
    let s3 = area2(ax, ay, bx, by, px, py);
    let s = area2(ax, ay, bx, by, cx, cy);
    let t1 = area2(py, px, by, bx, cy, cx);
    let t2 = area2(ay, ax, py, px, cy, cx);
    let t3 = area2(ay, ax, by, bx, py, px);
    let t = area2(ay, ax, by, bx, cy, cx);
    lemma_barycentric_x(ay, ax, by, bx, cy, cx, py, px);
    lemma_area2_swap_xy(ax, ay, bx, by, cx, cy);
    lemma_area2_swap_xy(px, py, bx, by, cx, cy);
    lemma_area2_swap_xy(ax, ay, px, py, cx, cy);
    lemma_area2_swap_xy(ax, ay, bx, by, px, py);
    assert(s1 * ay + s2 * by + s3 * cy == s * py) by (nonlinear_arith)
        requires
            t1 == -s1,
            t2 == -s2,
            t3 == -s3,
            t == -s,
            t1 * ay + t2 * by + t3 * cy == t * py,
    ;
}

/// Computes twice the signed area of `(a, b, c)` exactly.
pub fn area2_i128(a: Point2, b: Point2, c: Point2) -> (r: i128)
    requires
        in_coord_range(a),
        in_coord_range(b),
        in_coord_range(c),
    ensures
        r == pt_area2(a, b, c),
{
    proof {
        lemma_mul_bound(a.x as int, b.y - c.y, COORD_MAX as int, 2 * COORD_MAX as int);
        lemma_mul_bound(b.x as int, c.y - a.y, COORD_MAX as int, 2 * COORD_MAX as int);
        lemma_mul_bound(c.x as int, a.y - b.y, COORD_MAX as int, 2 * COORD_MAX as int);
    }
    let ax = a.x as i128;
    let ay = a.y as i128;
    let bx = b.x as i128;
    let by = b.y as i128;
    let cx = c.x as i128;
    let cy = c.y as i128;
    ax * (by - cy) + bx * (cy - ay) + cx * (ay - by)
}

/// Computes twice the unsigned area of `(a, b, c)` exactly.
pub fn area2_abs(a: Point2, b: Point2, c: Point2) -> (r: i128)
    requires
        in_coord_range(a),
        in_coord_range(b),
        in_coord_range(c),
    ensures
        r == sabs(pt_area2(a, b, c)),
        0 <= r <= 6 * (COORD_MAX as int) * (COORD_MAX as int),
{
    proof {
        lemma_mul_bound(a.x as int, b.y - c.y, COORD_MAX as int, 2 * COORD_MAX as int);
        lemma_mul_bound(b.x as int, c.y - a.y, COORD_MAX as int, 2 * COORD_MAX as int);
        lemma_mul_bound(c.x as int, a.y - b.y, COORD_MAX as int, 2 * COORD_MAX as int);
    }
    let r = area2_i128(a, b, c);
    if r < 0 {
        -r
    } else {
        r
    }
}

/// Least of three values.
pub open spec fn min3(a: int, b: int, c: int) -> int {
    if a <= b && a <= c {
        a
    } else if b <= c {
        b
    } else {
        c
    }
}

/// Greatest of three values.
pub open spec fn max3(a: int, b: int, c: int) -> int {
    if a >= b && a >= c {
        a
    } else if b >= c {
        b
    } else {
        c
    }
}

/// A nonnegative convex combination stays between the least and greatest of
/// the values it combines.
proof fn lemma_weighted_avg_bounds(s1: int, s2: int, s3: int, s: int, a: int, b: int, c: int, p: int)
    requires
        s1 >= 0,
        s2 >= 0,
        s3 >= 0,
        s1 + s2 + s3 == s,
        s > 0,
        s1 * a + s2 * b + s3 * c == s * p,
    ensures
        min3(a, b, c) <= p <= max3(a, b, c),
{
    let lo = min3(a, b, c);
    let hi = max3(a, b, c);
    assert(s * lo <= s * p <= s * hi) by (nonlinear_arith)
        requires
            s1 >= 0,
            s2 >= 0,
            s3 >= 0,
            s1 + s2 + s3 == s,
            lo <= a <= hi,
            lo <= b <= hi,
            lo <= c <= hi,
            s1 * a + s2 * b + s3 * c == s * p,
    ;
    assert(lo <= p <= hi) by (nonlinear_arith)
        requires
            s > 0,
            s * lo <= s * p <= s * hi,
    ;
}

/// Negating every x coordinate mirrors the plane, negating signed areas.
proof fn lemma_area2_neg_x(ax: int, ay: int, bx: int, by: int, cx: int, cy: int)
    by (nonlinear_arith)
    ensures
        area2(-ax, ay, -bx, by, -cx, cy) == -area2(ax, ay, bx, by, cx, cy),
{
}

proof fn lemma_contains_in_bbox_pos(
    ax: int,
    ay: int,
    bx: int,
    by: int,
    cx: int,
    cy: int,
    px: int,
    py: int,
)
    requires
        tri_contains_i(ax, ay, bx, by, cx, cy, px, py),
        area2(ax, ay, bx, by, cx, cy) > 0,
    ensures
        min3(ax, bx, cx) <= px <= max3(ax, bx, cx),
        min3(ay, by, cy) <= py <= max3(ay, by, cy),
{
    let s1 = area2(px, py, bx, by, cx, cy);
    let s2 = area2(ax, ay, px, py, cx, cy);
    let s3 = area2(ax, ay, bx, by, px, py);
    let s = area2(ax, ay, bx, by, cx, cy);
    lemma_area2_partition(ax, ay, bx, by, cx, cy, px, py);
    assert(s1 >= 0 && s2 >= 0 && s3 >= 0);
    lemma_barycentric_x(ax, ay, bx, by, cx, cy, px, py);
    lemma_weighted_avg_bounds(s1, s2, s3, s, ax, bx, cx, px);
    lemma_barycentric_y(ax, ay, bx, by, cx, cy, px, py);
    lemma_weighted_avg_bounds(s1, s2, s3, s, ay, by, cy, py);
}

/// A point contained in a triangle of nonzero area lies within the bounding
/// box of the triangle's vertices. (For a degenerate triangle this can fail:
/// every point of the infinite carrier line passes the area test.)
pub proof fn lemma_contains_in_bbox(
    ax: int,
    ay: int,
    bx: int,
    by: int,
    cx: int,
    cy: int,
    px: int,
    py: int,
)
    requires
        tri_contains_i(ax, ay, bx, by, cx, cy, px, py),
        area2(ax, ay, bx, by, cx, cy) != 0,
    ensures
        min3(ax, bx, cx) <= px <= max3(ax, bx, cx),
        min3(ay, by, cy) <= py <= max3(ay, by, cy),
{
    if area2(ax, ay, bx, by, cx, cy) > 0 {
        lemma_contains_in_bbox_pos(ax, ay, bx, by, cx, cy, px, py);
    } else {
        lemma_area2_neg_x(ax, ay, bx, by, cx, cy);
        lemma_area2_neg_x(px, py, bx, by, cx, cy);
        lemma_area2_neg_x(ax, ay, px, py, cx, cy);
        lemma_area2_neg_x(ax, ay, bx, by, px, py);
        lemma_contains_in_bbox_pos(-ax, ay, -bx, by, -cx, cy, -px, py);
    }
}

/// Each vertex of a triangle passes the containment test: the sub-triangles
/// at a vertex are the triangle itself and two degenerate slivers.
pub proof fn lemma_vertices_contained(ax: int, ay: int, bx: int, by: int, cx: int, cy: int)
    ensures
        tri_contains_i(ax, ay, bx, by, cx, cy, ax, ay),
        tri_contains_i(ax, ay, bx, by, cx, cy, bx, by),
        tri_contains_i(ax, ay, bx, by, cx, cy, cx, cy),
{
    lemma_area2_repeated(ax, ay, cx, cy);
    lemma_area2_repeated(ax, ay, bx, by);
    lemma_area2_repeated(bx, by, cx, cy);
    lemma_area2_repeated(bx, by, ax, ay);
    lemma_area2_repeated(cx, cy, ax, ay);
    lemma_area2_repeated(cx, cy, bx, by);
}

/// The exact centroid is contained in every triangle. Stated with all
/// coordinates tripled, so that the centroid `(a + b + c) / 3` becomes the
/// integer point `a + b + c` and no rounding enters the statement.
pub proof fn lemma_centroid_contained(ax: int, ay: int, bx: int, by: int, cx: int, cy: int)
    ensures
        tri_contains_i(
            3 * ax,
            3 * ay,
            3 * bx,
            3 * by,
            3 * cx,
            3 * cy,
            ax + bx + cx,
            ay + by + cy,
        ),
{
    assert(area2(ax + bx + cx, ay + by + cy, 3 * bx, 3 * by, 3 * cx, 3 * cy) == 3 * area2(
        ax,
        ay,
        bx,
        by,
        cx,
        cy,
    )) by (nonlinear_arith);
    assert(area2(3 * ax, 3 * ay, ax + bx + cx, ay + by + cy, 3 * cx, 3 * cy) == 3 * area2(
        ax,
        ay,
        bx,
        by,
        cx,
        cy,
    )) by (nonlinear_arith);
    assert(area2(3 * ax, 3 * ay, 3 * bx, 3 * by, ax + bx + cx, ay + by + cy) == 3 * area2(
        ax,
        ay,
        bx,
        by,
        cx,
        cy,
    )) by (nonlinear_arith);
    assert(area2(3 * ax, 3 * ay, 3 * bx, 3 * by, 3 * cx, 3 * cy) == 9 * area2(
        ax,
        ay,
        bx,
        by,
        cx,
        cy,
    )) by (nonlinear_arith);
}

/// The x component of the offset `(ux, uy)` rotated by the coefficient pair
/// `(c, s)`, before scaling back down by `FX_ONE`.
#[verifier::inline]
pub open spec fn rot_x(c: int, s: int, ux: int, uy: int) -> int {
    c * ux - s * uy
}

/// The y component of the rotated offset.
#[verifier::inline]
pub open spec fn rot_y(c: int, s: int, ux: int, uy: int) -> int {
    s * ux + c * uy
}

/// The cross product of two offsets is their doubled signed area with the
/// origin.
proof fn lemma_area2_origin(vx: int, vy: int, wx: int, wy: int)
    by (nonlinear_arith)
    ensures
        area2(0, 0, vx, vy, wx, wy) == vx * wy - wx * vy,
{
}

/// The determinant identity behind rigid rotation: applying the matrix
/// `[[c, -s], [s, c]]` to two offsets scales their cross product by
/// `c^2 + s^2`.
#[verifier::rlimit(30)]
proof fn lemma_rot_det(c: int, s: int, vx: int, vy: int, wx: int, wy: int)
    ensures
        rot_x(c, s, vx, vy) * rot_y(c, s, wx, wy) - rot_x(c, s, wx, wy) * rot_y(c, s, vx, vy) == (
        c * c + s * s) * (vx * wy - wx * vy),
{
    assert((c * vx - s * vy) * (s * wx + c * wy) == c * vx * (s * wx) + c * vx * (c * wy) - s * vy
        * (s * wx) - s * vy * (c * wy)) by (nonlinear_arith);
    assert((c * wx - s * wy) * (s * vx + c * vy) == c * wx * (s * vx) + c * wx * (c * vy) - s * wy
        * (s * vx) - s * wy * (c * vy)) by (nonlinear_arith);
    assert((c * c + s * s) * (vx * wy - wx * vy) == c * c * (vx * wy) + s * s * (vx * wy) - c * c
        * (wx * vy) - s * s * (wx * vy)) by (nonlinear_arith);
    assert(c * vx * (s * wx) == c * wx * (s * vx)) by (nonlinear_arith);
    assert(s * vy * (c * wy) == s * wy * (c * vy)) by (nonlinear_arith);
    assert(c * vx * (c * wy) == c * c * (vx * wy)) by (nonlinear_arith);
    assert(s * vy * (s * wx) == s * s * (wx * vy)) by (nonlinear_arith);
    assert(c * wx * (c * vy) == c * c * (wx * vy)) by (nonlinear_arith);
    assert(s * wy * (s * vx) == s * s * (vx * wy)) by (nonlinear_arith);
}

/// Rotating all three offsets scales the doubled signed area by `c^2 + s^2`.
/// With exact rotation coefficients (`c^2 + s^2 == FX_ONE^2`) this is the
/// area-preservation of rigid rotation, up to the fixed-point scale.
#[verifier::rlimit(30)]
pub proof fn lemma_rotation_scales_area2(
    c: int,
    s: int,
    ux: int,
    uy: int,
    vx: int,
    vy: int,
    wx: int,
    wy: int,
)
    ensures
        area2(
            rot_x(c, s, ux, uy),
            rot_y(c, s, ux, uy),
            rot_x(c, s, vx, vy),
            rot_y(c, s, vx, vy),
            rot_x(c, s, wx, wy),
            rot_y(c, s, wx, wy),
        ) == (c * c + s * s) * area2(ux, uy, vx, vy, wx, wy),
{
    lemma_rot_det(c, s, vx - ux, vy - uy, wx - ux, wy - uy);
    // Both areas, written as cross products of edge vectors out of the first
    // point.
    lemma_area2_translate(
        0,
        0,
        vx - ux,
        vy - uy,
        wx - ux,
        wy - uy,
        ux,
        uy,
    );
    lemma_area2_origin(vx - ux, vy - uy, wx - ux, wy - uy);
    lemma_area2_translate(
        0,
        0,
        rot_x(c, s, vx, vy) - rot_x(c, s, ux, uy),
        rot_y(c, s, vx, vy) - rot_y(c, s, ux, uy),
        rot_x(c, s, wx, wy) - rot_x(c, s, ux, uy),
        rot_y(c, s, wx, wy) - rot_y(c, s, ux, uy),
        rot_x(c, s, ux, uy),
        rot_y(c, s, ux, uy),
    );
    lemma_area2_origin(
        rot_x(c, s, vx, vy) - rot_x(c, s, ux, uy),
        rot_y(c, s, vx, vy) - rot_y(c, s, ux, uy),
        rot_x(c, s, wx, wy) - rot_x(c, s, ux, uy),
        rot_y(c, s, wx, wy) - rot_y(c, s, ux, uy),
    );
    // Rotation is linear: the rotated edge vectors are the rotations of the
    // edge vectors.
    assert(rot_x(c, s, vx, vy) - rot_x(c, s, ux, uy) == rot_x(c, s, vx - ux, vy - uy))
        by (nonlinear_arith);
    assert(rot_y(c, s, vx, vy) - rot_y(c, s, ux, uy) == rot_y(c, s, vx - ux, vy - uy))
        by (nonlinear_arith);
    assert(rot_x(c, s, wx, wy) - rot_x(c, s, ux, uy) == rot_x(c, s, wx - ux, wy - uy))
        by (nonlinear_arith);
    assert(rot_y(c, s, wx, wy) - rot_y(c, s, ux, uy) == rot_y(c, s, wx - ux, wy - uy))
        by (nonlinear_arith);
}

} // verus!
