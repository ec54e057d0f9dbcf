use vstd::prelude::*;
use vstd::pervasive::VecAdditionalExecFns;
use vstd::arithmetic::div_mod::lemma_fundamental_div_mod;
use crate::color::Color;
use crate::fixed::{fxdiv_floor, FX_ONE};
use crate::geometry::{pt_area2, tri_contains_i, Point2};
use crate::mesh::Mesh;
use crate::triangle::{wf, Triangle};

verus! {

/// Cap on the number of pixels in one frame, so that every index fits a
/// 32-bit `usize` and the buffer allocation stays sane.
pub const MAX_PIXELS: u64 = 0x1000_0000;

/// The background every pixel starts from: black.
pub open spec fn background() -> Color {
    Color { r: 0u8, g: 0u8, b: 0u8 }
}

/// A triangle covers the integer pixel `(x, y)` when the pixel's
/// fixed-point point lies in the triangle's bounding box and passes the
/// containment test. The box condition is the scan the rasterizer actually
/// performs; for a triangle of nonzero area it changes nothing (see
/// `lemma_box_culling_equivalent`), while for a degenerate one it keeps the
/// infinite carrier line from painting across the frame.
pub open spec fn covers(t: Triangle, x: int, y: int) -> bool {
    &&& t.aabb.min_x <= x * FX_ONE <= t.aabb.max_x
    &&& t.aabb.min_y <= y * FX_ONE <= t.aabb.max_y
    &&& tri_contains_i(
        t.a.x as int,
        t.a.y as int,
        t.b.x as int,
        t.b.y as int,
        t.c.x as int,
        t.c.y as int,
        x * FX_ONE,
        y * FX_ONE,
    )
}

/// The color pixel `(x, y)` ends with: the color of the last triangle in
/// the list that covers it — later triangles overwrite earlier ones — or
/// the black background when none does.
pub open spec fn pixel_hit(ts: Seq<Triangle>, x: int, y: int) -> Color
    decreases ts.len(),
{
    if ts.len() == 0 {
        background()
    } else if covers(ts.last(), x, y) {
        ts.last().color
    } else {
        pixel_hit(ts.drop_last(), x, y)
    }
}

/// The brute-force reference: every triangle tested at every pixel, no box
/// condition.
pub open spec fn pixel_hit_brute(ts: Seq<Triangle>, x: int, y: int) -> Color
    decreases ts.len(),
{
    if ts.len() == 0 {
        background()
    } else if tri_contains_i(
        ts.last().a.x as int,
        ts.last().a.y as int,
        ts.last().b.x as int,
        ts.last().b.y as int,
        ts.last().c.x as int,
        ts.last().c.y as int,
        x * FX_ONE,
        y * FX_ONE,
    ) {
        ts.last().color
    } else {
        pixel_hit_brute(ts.drop_last(), x, y)
    }
}

/// Appending one triangle to the list repaints a pixel exactly when the new
/// triangle covers it.
proof fn lemma_pixel_hit_step(ts: Seq<Triangle>, k: int, x: int, y: int)
    requires
        0 <= k < ts.len(),
    ensures
        pixel_hit(ts.take(k + 1), x, y) == if covers(ts[k], x, y) {
            ts[k].color
        } else {
            pixel_hit(ts.take(k), x, y)
        },
{
    assert(ts.take(k + 1).drop_last() =~= ts.take(k));
    assert(ts.take(k + 1).last() == ts[k]);
}

proof fn lemma_row_major_in_range(w: int, h: int, x: int, y: int)
    by (nonlinear_arith)
    requires
        0 < w,
        0 <= x < w,
        0 <= y < h,
    ensures
        0 <= y * w + x < w * h,
{
}

proof fn lemma_row_major_injective(w: int, x1: int, y1: int, x2: int, y2: int)
    by (nonlinear_arith)
    requires
        0 < w,
        0 <= x1 < w,
        0 <= x2 < w,
        0 <= y1,
        0 <= y2,
        y1 * w + x1 == y2 * w + x2,
    ensures
        x1 == x2,
        y1 == y2,
{
}

/// Euclidean division by `FX_ONE` brackets its argument.
proof fn lemma_fx_floor_props(m: int)
    ensures
        (m / (FX_ONE as int)) * FX_ONE <= m,
        m < (m / (FX_ONE as int) + 1) * FX_ONE,
{
    lemma_fundamental_div_mod(m, FX_ONE as int);
}

/// A covered pixel lies inside the clamped scan rectangle, provided the
/// rectangle's bounds bracket the box as the scan sets them up.
proof fn lemma_covers_in_rect(
    t: Triangle,
    xx: int,
    yy: int,
    x_lo: int,
    x_hi: int,
    y_lo: int,
    y_hi: int,
    width: int,
    height: int,
)
    requires
        covers(t, xx, yy),
        0 <= xx < width,
        0 <= yy < height,
        x_lo == 0 || x_lo * FX_ONE <= t.aabb.min_x,
        x_hi == width - 1 || t.aabb.max_x < (x_hi + 1) * FX_ONE,
        y_lo == 0 || y_lo * FX_ONE <= t.aabb.min_y,
        y_hi == height - 1 || t.aabb.max_y < (y_hi + 1) * FX_ONE,
    ensures
        x_lo <= xx <= x_hi,
        y_lo <= yy <= y_hi,
{
}

/// Rasterizes the triangle list into a row-major frame buffer: every pixel
/// starts black, and each triangle in order paints the pixels it covers,
/// scanning only its bounding box clamped to the frame. Later triangles
/// overwrite earlier ones where they overlap.
#[verifier::loop_isolation(false)]
#[verifier::rlimit(30)]
pub fn draw(width: u32, height: u32, ts: &Vec<Triangle>) -> (buf: Vec<Color>)
    requires
        width > 0,
        height > 0,
        width * height <= MAX_PIXELS,
        forall|i: int| 0 <= i < ts@.len() ==> wf(#[trigger] ts@[i]),
    ensures
        buf@.len() == width * height,
        forall|x: int, y: int|
            0 <= x < width && 0 <= y < height ==> buf@[y * width + x] == pixel_hit(ts@, x, y),
{
    let n: usize = (width as usize) * (height as usize);
    let mut buf: Vec<Color> = Vec::new();
    while buf.len() < n
        invariant
            buf@.len() <= n,
            forall|j: int| 0 <= j < buf@.len() ==> buf@[j] == background(),
        decreases n - buf@.len(),
    {
        buf.push(Color::black());
    }
    assert forall|x: int, y: int| 0 <= x < width && 0 <= y < height implies buf@[y * width + x]
        == pixel_hit(ts@.take(0), x, y) by {
        lemma_row_major_in_range(width as int, height as int, x, y);
    };
    let mut k: usize = 0;
    while k < ts.len()
        invariant
            buf@.len() == width * height,
            0 <= k <= ts@.len(),
            forall|x: int, y: int|
                0 <= x < width && 0 <= y < height ==> buf@[y * width + x] == pixel_hit(
                    ts@.take(k as int),
                    x,
                    y,
                ),
        decreases ts@.len() - k,
    {
        let t = ts[k];
        let ghost kk = k as int + 1;
        let x_lo_f = fxdiv_floor(t.aabb.min_x);
        let x_hi_f = fxdiv_floor(t.aabb.max_x);
        let y_lo_f = fxdiv_floor(t.aabb.min_y);
        let y_hi_f = fxdiv_floor(t.aabb.max_y);
        let x_lo: i64 = if x_lo_f < 0 { 0 } else { x_lo_f };
        let y_lo: i64 = if y_lo_f < 0 { 0 } else { y_lo_f };
        let w1 = (width - 1) as i64;
        let h1 = (height - 1) as i64;
        let x_hi: i64 = if x_hi_f > w1 { w1 } else { x_hi_f };
        let y_hi: i64 = if y_hi_f > h1 { h1 } else { y_hi_f };
        proof {
            lemma_fx_floor_props(t.aabb.min_x as int);
            lemma_fx_floor_props(t.aabb.max_x as int);
            lemma_fx_floor_props(t.aabb.min_y as int);
            lemma_fx_floor_props(t.aabb.max_y as int);
        }
        if x_lo <= x_hi && y_lo <= y_hi {
            let mut y: i64 = y_lo;
            while y <= y_hi
                invariant
                    y_lo <= y <= y_hi + 1,
                    buf@.len() == width * height,
                    forall|xx: int, yy: int|
                        0 <= xx < width && 0 <= yy < height && (x_lo <= xx <= x_hi && y_lo <= yy
                            < y) ==> buf@[yy * width + xx] == pixel_hit(
                            ts@.take(kk),
                            xx,
                            yy,
                        ),
                    forall|xx: int, yy: int|
                        0 <= xx < width && 0 <= yy < height && !(x_lo <= xx <= x_hi && y_lo <= yy
                            < y) ==> buf@[yy * width + xx] == pixel_hit(ts@.take(k as int), xx, yy),
                decreases y_hi + 1 - y,
            {
                let mut x: i64 = x_lo;
                while x <= x_hi
                    invariant
                        x_lo <= x <= x_hi + 1,
                        y_lo <= y <= y_hi,
                        buf@.len() == width * height,
                        forall|xx: int, yy: int|
                            0 <= xx < width && 0 <= yy < height && ((x_lo <= xx <= x_hi && y_lo
                                <= yy < y) || (yy == y && x_lo <= xx < x)) ==> buf@[yy * width + xx]
                                == pixel_hit(ts@.take(kk), xx, yy),
                        forall|xx: int, yy: int|
                            0 <= xx < width && 0 <= yy < height && !((x_lo <= xx <= x_hi && y_lo
                                <= yy < y) || (yy == y && x_lo <= xx < x)) ==> buf@[yy * width + xx]
                                == pixel_hit(ts@.take(k as int), xx, yy),
                    decreases x_hi + 1 - x,
                {
                    let fx_x = x * FX_ONE;
                    let fx_y = y * FX_ONE;
                    let inside_box = t.aabb.min_x <= fx_x && fx_x <= t.aabb.max_x
                        && t.aabb.min_y <= fx_y && fx_y <= t.aabb.max_y;
                    let hit = inside_box && t.contains_point(Point2 { x: fx_x, y: fx_y });
                    proof {
                        assert(hit == covers(ts@[k as int], x as int, y as int));
                        lemma_row_major_in_range(width as int, height as int, x as int, y as int);
                    }
                    let ghost buf0 = buf@;
                    if hit {
                        let idx: usize = (y as usize) * (width as usize) + (x as usize);
                        buf.set(idx, t.color);
                    }
                    proof {
                        lemma_pixel_hit_step(ts@, k as int, x as int, y as int);
                        assert forall|xx: int, yy: int|
                            0 <= xx < width && 0 <= yy < height && ((x_lo <= xx <= x_hi && y_lo
                                <= yy < y) || (yy == y && x_lo <= xx < x + 1)) implies buf@[yy
                            * width + xx] == pixel_hit(ts@.take(kk), xx, yy) by {
                            lemma_row_major_in_range(width as int, height as int, xx, yy);
                            lemma_pixel_hit_step(ts@, k as int, xx, yy);
                            if !(xx == x as int && yy == y as int) {
                                if yy * width + xx == (y as int) * width + (x as int) {
                                    lemma_row_major_injective(
                                        width as int,
                                        xx,
                                        yy,
                                        x as int,
                                        y as int,
                                    );
                                }
                                assert(buf@[yy * width + xx] == buf0[yy * width + xx]);
                            }
                        };
                        assert forall|xx: int, yy: int|
                            0 <= xx < width && 0 <= yy < height && !((x_lo <= xx <= x_hi && y_lo
                                <= yy < y) || (yy == y && x_lo <= xx < x + 1)) implies buf@[yy
                            * width + xx] == pixel_hit(ts@.take(k as int), xx, yy) by {
                            lemma_row_major_in_range(width as int, height as int, xx, yy);
                            if yy * width + xx == (y as int) * width + (x as int) {
                                lemma_row_major_injective(width as int, xx, yy, x as int, y as int);
                            }
                            assert(buf@[yy * width + xx] == buf0[yy * width + xx]);
                        };
                    }
                    x = x + 1;
                }
                y = y + 1;
            }
            proof {
                assert forall|xx: int, yy: int|
                    0 <= xx < width && 0 <= yy < height implies buf@[yy * width + xx] == pixel_hit(
                    ts@.take(kk),
                    xx,
                    yy,
                ) by {
                    lemma_pixel_hit_step(ts@, k as int, xx, yy);
                    if !(x_lo <= xx <= x_hi && y_lo <= yy <= y_hi) {
                        if covers(ts@[k as int], xx, yy) {
                            lemma_covers_in_rect(
                                t,
                                xx,
                                yy,
                                x_lo as int,
                                x_hi as int,
                                y_lo as int,
                                y_hi as int,
                                width as int,
                                height as int,
                            );
                        }
                    }
                };
            }
        } else {
            proof {
                assert forall|xx: int, yy: int|
                    0 <= xx < width && 0 <= yy < height implies buf@[yy * width + xx] == pixel_hit(
                    ts@.take(kk),
                    xx,
                    yy,
                ) by {
                    lemma_pixel_hit_step(ts@, k as int, xx, yy);
                    if covers(ts@[k as int], xx, yy) {
                        lemma_covers_in_rect(
                            t,
                            xx,
                            yy,
                            x_lo as int,
                            x_hi as int,
                            y_lo as int,
                            y_hi as int,
                            width as int,
                            height as int,
                        );
                    }
                };
            }
        }
        k = k + 1;
    }
    proof {
        assert(ts@.take(ts@.len() as int) =~= ts@);
    }
    buf
}

/// Box culling changes nothing: for triangles of nonzero area, the culled
/// pass and the full-frame brute-force pass give every pixel the same
/// color. (Degenerate triangles are excluded: their carrier line passes the
/// containment test arbitrarily far outside the box.)
pub proof fn lemma_box_culling_equivalent(ts: Seq<Triangle>, x: int, y: int)
    requires
        forall|i: int|
            0 <= i < ts.len() ==> wf(#[trigger] ts[i]) && pt_area2(ts[i].a, ts[i].b, ts[i].c)
                != 0,
        0 <= x < 0x1_0000_0000,
        0 <= y < 0x1_0000_0000,
    ensures
        pixel_hit(ts, x, y) == pixel_hit_brute(ts, x, y),
    decreases ts.len(),
{
    if ts.len() > 0 {
        let t = ts.last();
        assert(wf(t) && pt_area2(t.a, t.b, t.c) != 0);
        let p = Point2 { x: (x * FX_ONE) as i64, y: (y * FX_ONE) as i64 };
        assert(p.x as int == x * FX_ONE && p.y as int == y * FX_ONE);
        if !(t.aabb.min_x <= x * FX_ONE <= t.aabb.max_x && t.aabb.min_y <= y * FX_ONE
            <= t.aabb.max_y) {
            crate::triangle::lemma_outside_aabb_not_contained(t, p);
        }
        assert(forall|i: int| 0 <= i < ts.drop_last().len() ==> ts.drop_last()[i] == ts[i]);
        lemma_box_culling_equivalent(ts.drop_last(), x, y);
    }
}

} // verus!
