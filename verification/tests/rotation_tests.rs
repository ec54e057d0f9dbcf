use rasterizer::color::Color;
use rasterizer::geometry::Point2;
use rasterizer::triangle::Triangle;

const FX: i64 = 65536;

fn px(x: i64, y: i64) -> Point2 {
    Point2 { x: x * FX, y: y * FX }
}

fn fixed_cos_sin(theta: f32) -> (i64, i64) {
    let (s, c) = theta.sin_cos();
    (
        (c * FX as f32).round() as i64,
        (s * FX as f32).round() as i64,
    )
}

fn doubled_area(t: &Triangle) -> i128 {
    t.area(t.a, t.b, t.c)
}

#[test]
fn full_turn_returns_vertices_exactly() {
    let mut t = Triangle::new(px(7, 3), px(12, 19), px(31, 5), Color::red());
    let before = (t.a, t.b, t.c);
    let (c, s) = fixed_cos_sin(std::f32::consts::TAU);
    assert_eq!((c, s), (FX, 0));
    t.rotate(c, s);
    assert_eq!((t.a, t.b, t.c), before);
}

#[test]
fn quarter_turn_exact_values() {
    // Triangle (0,0), (3,0), (0,3): its centroid (1,1) is exactly
    // representable, and a quarter turn lands every vertex on the grid.
    let mut t = Triangle::new(px(0, 0), px(3, 0), px(0, 3), Color::blue());
    t.rotate(0, FX);
    assert_eq!(t.a, px(2, 0));
    assert_eq!(t.b, px(2, 3));
    assert_eq!(t.c, px(-1, 0));
}

#[test]
fn rotation_preserves_area_within_tolerance() {
    let mut t = Triangle::new(px(10, 10), px(210, 30), px(60, 170), Color::green());
    let before = doubled_area(&t);
    let (c, s) = fixed_cos_sin(0.7);
    t.rotate(c, s);
    let after = doubled_area(&t);
    let diff = (after - before).abs();
    // Rounded coefficients and truncated coordinates move the area by far
    // less than a tenth of a percent at this scale.
    assert!(diff <= before / 1000, "area drifted: {} -> {}", before, after);
    assert!(before > 0);
}

#[test]
fn aabb_recomputed_after_rotate() {
    let mut t = Triangle::new(px(5, 5), px(40, 12), px(18, 33), Color::white());
    let (c, s) = fixed_cos_sin(1.1);
    t.rotate(c, s);
    let xs = [t.a.x, t.b.x, t.c.x];
    let ys = [t.a.y, t.b.y, t.c.y];
    assert_eq!(t.aabb.min_x, *xs.iter().min().unwrap());
    assert_eq!(t.aabb.max_x, *xs.iter().max().unwrap());
    assert_eq!(t.aabb.min_y, *ys.iter().min().unwrap());
    assert_eq!(t.aabb.max_y, *ys.iter().max().unwrap());
}

#[test]
fn repeated_rotation_stays_near_start() {
    // Composing many small rotations: after a whole turn in 8 steps the
    // vertices are within a pixel of where they began.
    let mut t = Triangle::new(px(50, 50), px(90, 50), px(50, 90), Color::red());
    let start = (t.a, t.b, t.c);
    let (c, s) = fixed_cos_sin(std::f32::consts::TAU / 8.0);
    for _ in 0..8 {
        t.rotate(c, s);
    }
    let close = |p: Point2, q: Point2| (p.x - q.x).abs() <= FX && (p.y - q.y).abs() <= FX;
    assert!(close(t.a, start.0));
    assert!(close(t.b, start.1));
    assert!(close(t.c, start.2));
}
