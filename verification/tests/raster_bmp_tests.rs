use rasterizer::bmp::{encode_bmp, parse_header};
use rasterizer::color::Color;
use rasterizer::geometry::Point2;
use rasterizer::mesh::Mesh;
use rasterizer::raster::draw;
use rasterizer::triangle::Triangle;

const FX: i64 = 65536;

fn px(x: i64, y: i64) -> Point2 {
    Point2 { x: x * FX, y: y * FX }
}

/// Full-frame scan, last triangle wins: the reference the culled draw must
/// match on triangles of nonzero area.
fn brute_force(width: u32, height: u32, ts: &[Triangle]) -> Vec<Color> {
    let mut buf = vec![Color::black(); (width * height) as usize];
    for t in ts {
        for y in 0..height as i64 {
            for x in 0..width as i64 {
                if t.contains_point(px(x, y)) {
                    buf[(y * width as i64 + x) as usize] = t.color;
                }
            }
        }
    }
    buf
}

#[test]
fn draw_empty_list_is_background() {
    let ts: Vec<Triangle> = Vec::new();
    let buf = draw(5, 4, &ts);
    assert_eq!(buf, brute_force(5, 4, &[]));
    assert!(buf.iter().all(|c| *c == Color::black()));
}

#[test]
fn draw_matches_brute_force_inside_frame() {
    let t = Triangle::new(px(1, 1), px(1, 3), px(3, 1), Color::red());
    let ts = vec![t];
    assert_eq!(draw(8, 8, &ts), brute_force(8, 8, &ts));
}

#[test]
fn draw_matches_brute_force_straddling_edge() {
    // Vertices partly outside the frame: the box is clamped, the result
    // unchanged.
    let t = Triangle::new(px(-2, 1), px(2, 1), px(1, 9), Color::green());
    let ts = vec![t];
    assert_eq!(draw(6, 6, &ts), brute_force(6, 6, &ts));
}

#[test]
fn draw_matches_brute_force_two_overlapping() {
    let a = Triangle::new(px(0, 0), px(0, 4), px(4, 0), Color::red());
    let b = Triangle::new(px(1, 1), px(1, 5), px(5, 1), Color::blue());
    let ts = vec![a, b];
    assert_eq!(draw(7, 7, &ts), brute_force(7, 7, &ts));
}

#[test]
fn draw_four_by_four_scenario() {
    // Resolution 4x4, black background, one red triangle (1,1),(1,3),(3,1):
    // exactly the pixels with x >= 1, y >= 1, x + y <= 4 are red.
    let t = Triangle::new(px(1, 1), px(1, 3), px(3, 1), Color::red());
    let buf = draw(4, 4, &vec![t]);
    let red = [(1, 1), (2, 1), (3, 1), (1, 2), (2, 2), (1, 3)];
    for y in 0..4i64 {
        for x in 0..4i64 {
            let expected = if red.contains(&(x, y)) { Color::red() } else { Color::black() };
            assert_eq!(buf[(y * 4 + x) as usize], expected, "pixel ({}, {})", x, y);
        }
    }
}

#[test]
fn draw_order_decides_shared_pixel() {
    // A and B overlap in exactly the pixel (1,1); the later triangle wins.
    let a = Triangle::new(px(0, 0), px(0, 2), px(2, 0), Color::red());
    let b = Triangle::new(px(1, 1), px(3, 1), px(1, 3), Color::blue());
    let ab = draw(4, 4, &vec![a, b]);
    let ba = draw(4, 4, &vec![b, a]);
    assert_eq!(ab[1 * 4 + 1], Color::blue());
    assert_eq!(ba[1 * 4 + 1], Color::red());
    // Every pixel covered by only one of the two is the same either way.
    for i in 0..16 {
        if i != 1 * 4 + 1 {
            assert_eq!(ab[i], ba[i], "pixel {}", i);
        }
    }
}

#[test]
fn encode_header_fields() {
    // 2x2 image: rows of 6 pixel bytes padded to 8, 70 bytes in all.
    let pixels = vec![Color::red(), Color::green(), Color::blue(), Color::white()];
    let bytes = encode_bmp(2, 2, &pixels);
    assert_eq!(bytes.len(), 70);
    assert_eq!(&bytes[0..2], b"BM");
    assert_eq!(u32::from_le_bytes([bytes[2], bytes[3], bytes[4], bytes[5]]), 70);
    assert_eq!(u32::from_le_bytes([bytes[10], bytes[11], bytes[12], bytes[13]]), 54);
    assert_eq!(u32::from_le_bytes([bytes[14], bytes[15], bytes[16], bytes[17]]), 40);
    assert_eq!(u32::from_le_bytes([bytes[18], bytes[19], bytes[20], bytes[21]]), 2);
    assert_eq!(u32::from_le_bytes([bytes[22], bytes[23], bytes[24], bytes[25]]), 2);
    assert_eq!(u16::from_le_bytes([bytes[26], bytes[27]]), 1);
    assert_eq!(u16::from_le_bytes([bytes[28], bytes[29]]), 24);
    assert_eq!(u32::from_le_bytes([bytes[30], bytes[31], bytes[32], bytes[33]]), 0);
}

#[test]
fn encode_pixels_bgr_with_row_padding() {
    let pixels = vec![Color::red(), Color::green(), Color::blue(), Color::white()];
    let bytes = encode_bmp(2, 2, &pixels);
    // Row 0: red then green, channels b, g, r, then two pad bytes.
    assert_eq!(&bytes[54..60], &[0, 0, 255, 0, 255, 0]);
    assert_eq!(&bytes[60..62], &[0, 0]);
    // Row 1: blue then white.
    assert_eq!(&bytes[62..68], &[255, 0, 0, 255, 255, 255]);
    assert_eq!(&bytes[68..70], &[0, 0]);
}

#[test]
fn encode_file_size_consistent_without_padding() {
    // Width 4: rows are 12 bytes, already a multiple of four — no padding.
    let pixels = vec![Color::black(); 4];
    let bytes = encode_bmp(4, 1, &pixels);
    assert_eq!(bytes.len(), 54 + 12);
    assert_eq!(
        u32::from_le_bytes([bytes[2], bytes[3], bytes[4], bytes[5]]),
        (54 + 12) as u32
    );
}

#[test]
fn round_trip_header_and_pixels() {
    // Encode, re-parse the header, and read every pixel back unchanged.
    let width = 3u32;
    let height = 2u32;
    let pixels = vec![
        Color::new(1, 2, 3),
        Color::new(4, 5, 6),
        Color::new(7, 8, 9),
        Color::new(10, 11, 12),
        Color::new(13, 14, 15),
        Color::new(16, 17, 18),
    ];
    let bytes = encode_bmp(width, height, &pixels);
    let (w, h) = parse_header(&bytes).expect("header parses");
    assert_eq!((w, h), (width, height));
    let stride = {
        let raw = 3 * w as usize;
        raw + (4 - raw % 4) % 4
    };
    let mut recovered = Vec::new();
    for y in 0..h as usize {
        for x in 0..w as usize {
            let off = 54 + y * stride + 3 * x;
            recovered.push(Color::new(bytes[off + 2], bytes[off + 1], bytes[off]));
        }
    }
    assert_eq!(recovered, pixels);
}

#[test]
fn parse_header_rejects_bad_input() {
    assert!(parse_header(&vec![]).is_none());
    assert!(parse_header(&vec![0u8; 53]).is_none());
    let mut bytes = encode_bmp(1, 1, &vec![Color::black()]);
    bytes[0] = b'X';
    assert!(parse_header(&bytes).is_none());
}
