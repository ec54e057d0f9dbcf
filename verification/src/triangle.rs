use vstd::prelude::*;
use vstd::arithmetic::div_mod::lemma_div_multiples_vanish;
use crate::aabb::Aabb;
use crate::color::Color;
use crate::fixed::{div3_tz, div_tz, fxdiv_tz, FX_ONE};
use crate::geometry::{
    area2, area2_abs, in_coord_range, max3, min3, pt_area2, rot_x, rot_y, sabs, tri_contains,
    tri_contains_i, Point2, lemma_area2_translate, lemma_contains_in_bbox, lemma_mul_bound,
    lemma_rotation_scales_area2, lemma_vertices_contained,
};
use crate::mesh::Mesh;

verus! {

/// Bound on vertex coordinates accepted by `rotate` (2^45 subunits): a
/// rotated offset can be twice as large as the original per component, so
/// this headroom keeps every result inside `COORD_MAX`.
pub const ROT_COORD_MAX: i64 = 0x2000_0000_0000;

/// A filled triangle: three vertices, a fill color, and a cached tight
/// bounding box of the vertices.
#[derive(Clone, Copy, Debug)]
pub struct Triangle {
    pub a: Point2,
    pub b: Point2,
    pub c: Point2,
    pub color: Color,
    pub aabb: Aabb,
}

/// A triangle is well formed when its coordinates are in range for exact
/// arithmetic and the cached box is exactly the tight bounding box of the
/// vertices, never stale.
pub open spec fn wf(t: Triangle) -> bool {
    &&& in_coord_range(t.a)
    &&& in_coord_range(t.b)
    &&& in_coord_range(t.c)
    &&& t.aabb.min_x == min3(t.a.x as int, t.b.x as int, t.c.x as int)
    &&& t.aabb.min_y == min3(t.a.y as int, t.b.y as int, t.c.y as int)
    &&& t.aabb.max_x == max3(t.a.x as int, t.b.x as int, t.c.x as int)
    &&& t.aabb.max_y == max3(t.a.y as int, t.b.y as int, t.c.y as int)
}

pub open spec fn in_rot_range(p: Point2) -> bool {
    &&& -ROT_COORD_MAX <= p.x <= ROT_COORD_MAX
    &&& -ROT_COORD_MAX <= p.y <= ROT_COORD_MAX
}

/// The centroid `(a + b + c) / 3`, each component truncated toward zero.
pub open spec fn centroid_x(t: Triangle) -> int {
    div_tz(t.a.x + t.b.x + t.c.x, 3)
}

pub open spec fn centroid_y(t: Triangle) -> int {
    div_tz(t.a.y + t.b.y + t.c.y, 3)
}

/// Where a vertex lands under rotation: its offset from the centroid is
/// rotated by the fixed-point coefficient pair `(c, s)`, scaled back down by
/// `FX_ONE` (truncating toward zero), and translated back.
pub open spec fn rotated_x(t: Triangle, c: int, s: int, p: Point2) -> int {
    centroid_x(t) + div_tz(rot_x(c, s, p.x - centroid_x(t), p.y - centroid_y(t)), FX_ONE as int)
}

pub open spec fn rotated_y(t: Triangle, c: int, s: int, p: Point2) -> int {
    centroid_y(t) + div_tz(rot_y(c, s, p.x - centroid_x(t), p.y - centroid_y(t)), FX_ONE as int)
}

fn min3_i64(a: i64, b: i64, c: i64) -> (r: i64)
    ensures
        r == min3(a as int, b as int, c as int),
{
    if a <= b && a <= c {
        a
    } else if b <= c {
        b
    } else {
        c
    }
}

fn max3_i64(a: i64, b: i64, c: i64) -> (r: i64)
    ensures
        r == max3(a as int, b as int, c as int),
{
    if a >= b && a >= c {
        a
    } else if b >= c {
        b
    } else {
        c
    }
}

/// Rotates one vertex about the point `(gx, gy)` by the coefficient pair
/// `(c, s)`, in exact integer arithmetic with one truncating division.
fn rotate_point(p: Point2, gx: i64, gy: i64, c: i64, s: i64) -> (q: Point2)
    requires
        in_rot_range(p),
        -ROT_COORD_MAX <= gx <= ROT_COORD_MAX,
        -ROT_COORD_MAX <= gy <= ROT_COORD_MAX,
        -FX_ONE <= c <= FX_ONE,
        -FX_ONE <= s <= FX_ONE,
    ensures
        q.x as int == gx + div_tz(rot_x(c as int, s as int, p.x - gx, p.y - gy), FX_ONE as int),
        q.y as int == gy + div_tz(rot_y(c as int, s as int, p.x - gx, p.y - gy), FX_ONE as int),
        in_coord_range(q),
{
    let dx = p.x - gx;
    let dy = p.y - gy;
    proof {
        lemma_mul_bound(c as int, dx as int, FX_ONE as int, 0x4000_0000_0000);
        lemma_mul_bound(s as int, dy as int, FX_ONE as int, 0x4000_0000_0000);
        lemma_mul_bound(s as int, dx as int, FX_ONE as int, 0x4000_0000_0000);
        lemma_mul_bound(c as int, dy as int, FX_ONE as int, 0x4000_0000_0000);
    }
    let rx = (c as i128) * (dx as i128) - (s as i128) * (dy as i128);
    let ry = (s as i128) * (dx as i128) + (c as i128) * (dy as i128);
    let qx = fxdiv_tz(rx);
    let qy = fxdiv_tz(ry);
    Point2 { x: gx + (qx as i64), y: gy + (qy as i64) }
}

impl Triangle {
    /// Constructs a triangle and immediately computes its bounding box: a
    /// fresh triangle is never created with a stale or default box.
    pub fn new(a: Point2, b: Point2, c: Point2, color: Color) -> (t: Triangle)
        requires
            in_coord_range(a),
            in_coord_range(b),
            in_coord_range(c),
        ensures
            wf(t),
            t.a == a,
            t.b == b,
            t.c == c,
            t.color == color,
    {
        let mut t = Triangle { a, b, c, color, aabb: Aabb::default() };
        t.calculate_aabb();
        t
    }

    /// Recomputes the tight bounding box of the current vertices; vertices
    /// and color are untouched.
    pub fn calculate_aabb(&mut self)
        ensures
            final(self).a == old(self).a,
            final(self).b == old(self).b,
            final(self).c == old(self).c,
            final(self).color == old(self).color,
            final(self).aabb.min_x == min3(
                old(self).a.x as int,
                old(self).b.x as int,
                old(self).c.x as int,
            ),
            final(self).aabb.min_y == min3(
                old(self).a.y as int,
                old(self).b.y as int,
                old(self).c.y as int,
            ),
            final(self).aabb.max_x == max3(
                old(self).a.x as int,
                old(self).b.x as int,
                old(self).c.x as int,
            ),
            final(self).aabb.max_y == max3(
                old(self).a.y as int,
                old(self).b.y as int,
                old(self).c.y as int,
            ),
    {
        let min_x = min3_i64(self.a.x, self.b.x, self.c.x);
        let min_y = min3_i64(self.a.y, self.b.y, self.c.y);
        let max_x = max3_i64(self.a.x, self.b.x, self.c.x);
        let max_y = max3_i64(self.a.y, self.b.y, self.c.y);
        self.aabb = Aabb { min_x, min_y, max_x, max_y };
    }

    /// Twice the unsigned area of the triangle `(a, b, c)`, exactly. Twice,
    /// so that the value stays an integer in fixed-point units.
    pub fn area(&self, a: Point2, b: Point2, c: Point2) -> (r: i128)
        requires
            in_coord_range(a),
            in_coord_range(b),
            in_coord_range(c),
        ensures
            r == sabs(pt_area2(a, b, c)),
    {
        area2_abs(a, b, c)
    }

    /// Rotates the triangle rigidly about its centroid. The caller supplies
    /// the rotation as a fixed-point cosine/sine pair `(c, s)` — for an
    /// angle θ, `(round(cos θ · FX_ONE), round(sin θ · FX_ONE))` — so the
    /// trigonometry stays at the float edge while the rotation itself is
    /// exact integer arithmetic. The bounding box is recomputed as the final
    /// step, so it is never stale.
    pub fn rotate(&mut self, c: i64, s: i64)
        requires
            wf(*old(self)),
            in_rot_range(old(self).a),
            in_rot_range(old(self).b),
            in_rot_range(old(self).c),
            -FX_ONE <= c <= FX_ONE,
            -FX_ONE <= s <= FX_ONE,
        ensures
            wf(*final(self)),
            final(self).color == old(self).color,
            final(self).a.x as int == rotated_x(*old(self), c as int, s as int, old(self).a),
            final(self).a.y as int == rotated_y(*old(self), c as int, s as int, old(self).a),
            final(self).b.x as int == rotated_x(*old(self), c as int, s as int, old(self).b),
            final(self).b.y as int == rotated_y(*old(self), c as int, s as int, old(self).b),
            final(self).c.x as int == rotated_x(*old(self), c as int, s as int, old(self).c),
            final(self).c.y as int == rotated_y(*old(self), c as int, s as int, old(self).c),
    {
        let sum_x = self.a.x + self.b.x + self.c.x;
        let sum_y = self.a.y + self.b.y + self.c.y;
        let gx128 = div3_tz(sum_x as i128);
        let gy128 = div3_tz(sum_y as i128);
        let gx = gx128 as i64;
        let gy = gy128 as i64;
        let na = rotate_point(self.a, gx, gy, c, s);
        let nb = rotate_point(self.b, gx, gy, c, s);
        let nc = rotate_point(self.c, gx, gy, c, s);
        self.a = na;
        self.b = nb;
        self.c = nc;
        self.calculate_aabb();
    }
}

impl Mesh for Triangle {
    open spec fn contains_spec(&self, px: int, py: int) -> bool {
        tri_contains_i(
            self.a.x as int,
            self.a.y as int,
            self.b.x as int,
            self.b.y as int,
            self.c.x as int,
            self.c.y as int,
            px,
            py,
        )
    }

    open spec fn query_allowed(&self, point: Point2) -> bool {
        &&& in_coord_range(self.a)
        &&& in_coord_range(self.b)
        &&& in_coord_range(self.c)
        &&& in_coord_range(point)
    }

    /// The barycentric area test: `point` is inside the triangle or on its
    /// boundary exactly when the three triangles it forms with the edges
    /// partition the whole area.
    ///
    /// Arithmetic here is exact, so the comparison is an equality rather
    /// than the float tolerance that a floating-point version needs to
    /// absorb its rounding. One visible consequence: a query point that
    /// only approximates an ideal one — say the truncated centroid of a
    /// very thin triangle, when 3 does not divide the vertex coordinate
    /// sums — can land outside and be rejected, where a tolerant test
    /// might still accept it. The exactly representable centroid is always
    /// accepted (see `lemma_centroid_contained`).
    fn contains_point(&self, point: Point2) -> (r: bool) {
        let a = area2_abs(self.a, self.b, self.c);
        let a1 = area2_abs(point, self.b, self.c);
        let a2 = area2_abs(self.a, point, self.c);
        let a3 = area2_abs(self.a, self.b, point);
        a1 + a2 + a3 == a
    }
}

/// Every vertex of a triangle passes its own containment test.
pub proof fn lemma_own_vertices_contained(t: Triangle)
    ensures
        tri_contains(t.a, t.b, t.c, t.a),
        tri_contains(t.a, t.b, t.c, t.b),
        tri_contains(t.a, t.b, t.c, t.c),
{
    lemma_vertices_contained(
        t.a.x as int,
        t.a.y as int,
        t.b.x as int,
        t.b.y as int,
        t.c.x as int,
        t.c.y as int,
    );
}

/// A point outside the cached bounding box of a triangle of nonzero area is
/// never contained: culling the scan to the box loses no pixel. (A
/// degenerate triangle is the one exception: its carrier line passes the
/// area test arbitrarily far outside the box.)
pub proof fn lemma_outside_aabb_not_contained(t: Triangle, p: Point2)
    requires
        wf(t),
        pt_area2(t.a, t.b, t.c) != 0,
        !(t.aabb.min_x <= p.x <= t.aabb.max_x && t.aabb.min_y <= p.y <= t.aabb.max_y),
    ensures
        !tri_contains(t.a, t.b, t.c, p),
{
    if tri_contains(t.a, t.b, t.c, p) {
        lemma_contains_in_bbox(
            t.a.x as int,
            t.a.y as int,
            t.b.x as int,
            t.b.y as int,
            t.c.x as int,
            t.c.y as int,
            p.x as int,
            p.y as int,
        );
    }
}

/// A full turn is the identity: with cosine `FX_ONE` and sine zero the
/// rotation formula returns every vertex unchanged, exactly — even the
/// truncating divisions divide evenly.
pub proof fn lemma_full_turn_fixes_vertices(t: Triangle, p: Point2)
    ensures
        rotated_x(t, FX_ONE as int, 0, p) == p.x,
        rotated_y(t, FX_ONE as int, 0, p) == p.y,
{
    let gx = centroid_x(t);
    let gy = centroid_y(t);
    let dx = p.x - gx;
    let dy = p.y - gy;
    assert(rot_x(FX_ONE as int, 0, dx, dy) == FX_ONE * dx);
    assert(rot_y(FX_ONE as int, 0, dx, dy) == FX_ONE * dy);
    if dx >= 0 {
        lemma_div_multiples_vanish(dx, FX_ONE as int);
        assert(div_tz(FX_ONE * dx, FX_ONE as int) == dx);
    } else {
        lemma_div_multiples_vanish(-dx, FX_ONE as int);
        assert(div_tz(FX_ONE * dx, FX_ONE as int) == dx);
    }
    if dy >= 0 {
        lemma_div_multiples_vanish(dy, FX_ONE as int);
        assert(div_tz(FX_ONE * dy, FX_ONE as int) == dy);
    } else {
        lemma_div_multiples_vanish(-dy, FX_ONE as int);
        assert(div_tz(FX_ONE * dy, FX_ONE as int) == dy);
    }
}

/// Rigid rotation preserves area. Stated before the fixed-point rescale:
/// with an exact coefficient pair (`c^2 + s^2 == FX_ONE^2`) the doubled
/// area of the rotated offsets is exactly `FX_ONE^2` times the triangle's
/// own. The executable `rotate` differs from this only by the final
/// truncating division of each coordinate, which moves each vertex by less
/// than one subunit.
pub proof fn lemma_rotation_preserves_area(t: Triangle, c: int, s: int)
    requires
        c * c + s * s == FX_ONE * FX_ONE,
    ensures
        area2(
            rot_x(c, s, t.a.x - centroid_x(t), t.a.y - centroid_y(t)),
            rot_y(c, s, t.a.x - centroid_x(t), t.a.y - centroid_y(t)),
            rot_x(c, s, t.b.x - centroid_x(t), t.b.y - centroid_y(t)),
            rot_y(c, s, t.b.x - centroid_x(t), t.b.y - centroid_y(t)),
            rot_x(c, s, t.c.x - centroid_x(t), t.c.y - centroid_y(t)),
            rot_y(c, s, t.c.x - centroid_x(t), t.c.y - centroid_y(t)),
        ) == FX_ONE * FX_ONE * pt_area2(t.a, t.b, t.c),
{
    let gx = centroid_x(t);
    let gy = centroid_y(t);
    lemma_area2_translate(
        t.a.x - gx,
        t.a.y - gy,
        t.b.x - gx,
        t.b.y - gy,
        t.c.x - gx,
        t.c.y - gy,
        gx,
        gy,
    );
    lemma_rotation_scales_area2(
        c,
        s,
        t.a.x - gx,
        t.a.y - gy,
        t.b.x - gx,
        t.b.y - gy,
        t.c.x - gx,
        t.c.y - gy,
    );
}

} // verus!
