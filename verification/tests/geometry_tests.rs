use rasterizer::color::Color;
use rasterizer::aabb::Aabb;
use rasterizer::geometry::Point2;
use rasterizer::mesh::Mesh;
use rasterizer::triangle::Triangle;

const FX: i64 = 65536;

fn px(x: i64, y: i64) -> Point2 {
    Point2 { x: x * FX, y: y * FX }
}

#[test]
fn color_new_stores_channels() {
    let c = Color::new(10, 20, 30);
    assert_eq!(c.r, 10);
    assert_eq!(c.g, 20);
    assert_eq!(c.b, 30);
}

#[test]
fn color_presets() {
    assert_eq!(Color::black(), Color::new(0, 0, 0));
    assert_eq!(Color::white(), Color::new(255, 255, 255));
    assert_eq!(Color::red(), Color::new(255, 0, 0));
    assert_eq!(Color::green(), Color::new(0, 255, 0));
    assert_eq!(Color::blue(), Color::new(0, 0, 255));
}

#[test]
fn aabb_default_is_origin_box() {
    let a = Aabb::default();
    assert_eq!(a.min_x, 0);
    assert_eq!(a.min_y, 0);
    assert_eq!(a.max_x, 0);
    assert_eq!(a.max_y, 0);
}

#[test]
fn new_triangle_has_tight_aabb() {
    let t = Triangle::new(px(1, 1), px(1, 3), px(3, 1), Color::red());
    assert_eq!(t.aabb.min_x, 1 * FX);
    assert_eq!(t.aabb.min_y, 1 * FX);
    assert_eq!(t.aabb.max_x, 3 * FX);
    assert_eq!(t.aabb.max_y, 3 * FX);
}

#[test]
fn calculate_aabb_refreshes_box() {
    let mut t = Triangle::new(px(0, 0), px(2, 0), px(0, 2), Color::blue());
    t.a = px(-1, -4);
    t.calculate_aabb();
    assert_eq!(t.aabb.min_x, -1 * FX);
    assert_eq!(t.aabb.min_y, -4 * FX);
    assert_eq!(t.aabb.max_x, 2 * FX);
    assert_eq!(t.aabb.max_y, 2 * FX);
}

#[test]
fn contains_own_vertices_and_centroid() {
    let a = px(1, 1);
    let b = px(1, 3);
    let c = px(3, 1);
    let t = Triangle::new(a, b, c, Color::red());
    assert!(t.contains_point(a));
    assert!(t.contains_point(b));
    assert!(t.contains_point(c));
    let centroid = Point2 { x: (a.x + b.x + c.x) / 3, y: (a.y + b.y + c.y) / 3 };
    assert!(t.contains_point(centroid));
}

#[test]
fn does_not_contain_far_point() {
    let t = Triangle::new(px(1, 1), px(1, 3), px(3, 1), Color::red());
    assert!(!t.contains_point(px(100, 100)));
    assert!(!t.contains_point(px(-50, 2)));
}

#[test]
fn containment_pattern_four_by_four() {
    // Triangle (1,1), (1,3), (3,1) on a 4x4 grid: exactly the pixels with
    // x >= 1, y >= 1 and x + y <= 4 pass the exact boundary-inclusive test.
    let t = Triangle::new(px(1, 1), px(1, 3), px(3, 1), Color::red());
    let mut hits = Vec::new();
    for y in 0..4 {
        for x in 0..4 {
            if t.contains_point(px(x, y)) {
                hits.push((x, y));
            }
        }
    }
    assert_eq!(hits, vec![(1, 1), (2, 1), (3, 1), (1, 2), (2, 2), (1, 3)]);
}

#[test]
fn area_of_right_triangle() {
    // Legs of 2 pixels each: area 2 px^2, so the doubled fixed-point area is
    // 4 * FX^2.
    let t = Triangle::new(px(1, 1), px(1, 3), px(3, 1), Color::red());
    let doubled = t.area(t.a, t.b, t.c);
    assert_eq!(doubled, 4 * (FX as i128) * (FX as i128));
}

#[test]
fn area_of_degenerate_triangle_is_zero() {
    let t = Triangle::new(px(0, 0), px(1, 1), px(2, 2), Color::green());
    assert_eq!(t.area(t.a, t.b, t.c), 0);
}

#[test]
fn degenerate_triangle_contains_only_its_line() {
    let t = Triangle::new(px(0, 0), px(1, 1), px(2, 2), Color::green());
    assert!(t.contains_point(px(1, 1)));
    assert!(!t.contains_point(px(1, 2)));
    // Points of the carrier line outside the box still pass: degenerate
    // triangles are the stated exception to box culling.
    assert!(t.contains_point(px(5, 5)));
}
