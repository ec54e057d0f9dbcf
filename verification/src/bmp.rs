use vstd::prelude::*;
use vstd::arithmetic::div_mod::{lemma_div_denominator, lemma_fundamental_div_mod};
use crate::color::Color;

verus! {

/// Zero bytes appended to each pixel row so that its stored length is a
/// multiple of four. This crate's one documented convention: every row is
/// padded, and the header's file-size field records the true total length.
pub open spec fn row_pad(w: int) -> int {
    (4 - (3 * w) % 4) % 4
}

/// Bytes per stored pixel row: three per pixel, plus padding.
pub open spec fn row_stride(w: int) -> int {
    3 * w + row_pad(w)
}

/// Length of the pixel section: one padded row per buffer row.
pub open spec fn pixel_section_len(w: int, h: int) -> int {
    h * row_stride(w)
}

/// Whole-file length: 14-byte header, 40-byte info block, pixel section.
pub open spec fn bmp_file_size(w: int, h: int) -> int {
    54 + pixel_section_len(w, h)
}

/// The little-endian value of two bytes.
pub open spec fn le16(s: Seq<u8>, off: int) -> int {
    s[off] + 0x100 * s[off + 1]
}

/// The little-endian value of four bytes.
pub open spec fn le32(s: Seq<u8>, off: int) -> int {
    s[off] + 0x100 * s[off + 1] + 0x10000 * s[off + 2] + 0x1000000 * s[off + 3]
}

/// Every header and info-block field of the container, at its fixed offset:
/// signature, file size, reserved, data offset, info size, width, height,
/// plane count, bits per pixel, compression (none), image size, resolution,
/// color counts.
pub open spec fn header_ok(s: Seq<u8>, w: int, h: int) -> bool {
    &&& s.len() >= 54
    &&& s[0] == 66u8
    &&& s[1] == 77u8
    &&& le32(s, 2) == bmp_file_size(w, h)
    &&& le32(s, 6) == 0
    &&& le32(s, 10) == 54
    &&& le32(s, 14) == 40
    &&& le32(s, 18) == w
    &&& le32(s, 22) == h
    &&& le16(s, 26) == 1
    &&& le16(s, 28) == 24
    &&& le32(s, 30) == 0
    &&& le32(s, 34) == 0
    &&& le32(s, 38) == 2835
    &&& le32(s, 42) == 2835
    &&& le32(s, 46) == 0
    &&& le32(s, 50) == 0
}

/// The three stored bytes of the pixel `(x, y)`: channels b, g, r at
/// consecutive offsets inside row `y` of the pixel section.
pub open spec fn pixel_bytes_at(s: Seq<u8>, w: int, pix: Seq<Color>, x: int, y: int) -> bool {
    &&& s[54 + y * row_stride(w) + 3 * x] == pix[y * w + x].b
    &&& s[54 + y * row_stride(w) + 3 * x + 1] == pix[y * w + x].g
    &&& s[54 + y * row_stride(w) + 3 * x + 2] == pix[y * w + x].r
}

/// One row's stored bytes, relative to the base offset the row starts at.
pub open spec fn row_bytes_at(s: Seq<u8>, base: int, pix: Seq<Color>, w: int, y: int, x: int) -> bool {
    &&& s[base + 3 * x] == pix[y * w + x].b
    &&& s[base + 3 * x + 1] == pix[y * w + x].g
    &&& s[base + 3 * x + 2] == pix[y * w + x].r
}

fn push_u16_le(buf: &mut Vec<u8>, v: u16)
    ensures
        final(buf)@.len() == old(buf)@.len() + 2,
        forall|i: int| 0 <= i < old(buf)@.len() ==> final(buf)@[i] == old(buf)@[i],
        le16(final(buf)@, old(buf)@.len() as int) == v,
{
    proof {
        lemma_fundamental_div_mod(v as int, 0x100);
    }
    buf.push((v % 0x100) as u8);
    buf.push((v / 0x100) as u8);
}

fn push_u32_le(buf: &mut Vec<u8>, v: u32)
    ensures
        final(buf)@.len() == old(buf)@.len() + 4,
        forall|i: int| 0 <= i < old(buf)@.len() ==> final(buf)@[i] == old(buf)@[i],
        le32(final(buf)@, old(buf)@.len() as int) == v,
{
    proof {
        lemma_fundamental_div_mod(v as int, 0x100);
        lemma_fundamental_div_mod(v as int / 0x100, 0x100);
        lemma_fundamental_div_mod(v as int / 0x10000, 0x100);
        lemma_div_denominator(v as int, 0x100, 0x100);
        lemma_div_denominator(v as int, 0x10000, 0x100);
    }
    buf.push((v % 0x100) as u8);
    buf.push(((v / 0x100) % 0x100) as u8);
    buf.push(((v / 0x10000) % 0x100) as u8);
    buf.push(((v / 0x1000000) % 0x100) as u8);
}

/// Appends one padded pixel row, channels stored b, g, r.
#[verifier::loop_isolation(false)]
fn push_row(bytes: &mut Vec<u8>, pixels: &Vec<Color>, width: u32, y: u32)
    requires
        1 <= width <= 0x1000_0000,
        (y + 1) * width <= pixels@.len(),
        (y + 1) * width <= 0x1000_0000,
        old(bytes)@.len() + row_stride(width as int) <= 0x8000_0000,
    ensures
        final(bytes)@.len() == old(bytes)@.len() + row_stride(width as int),
        forall|i: int| 0 <= i < old(bytes)@.len() ==> final(bytes)@[i] == old(bytes)@[i],
        forall|x: int|
            0 <= x < width ==> row_bytes_at(
                final(bytes)@,
                old(bytes)@.len() as int,
                pixels@,
                width as int,
                y as int,
                x,
            ),
{
    let ghost base = bytes@.len() as int;
    let mut x: u32 = 0;
    while x < width
        invariant
            0 <= x <= width,
            bytes@.len() == base + 3 * x,
            forall|i: int| 0 <= i < base ==> bytes@[i] == old(bytes)@[i],
            forall|xx: int|
                0 <= xx < x ==> row_bytes_at(bytes@, base, pixels@, width as int, y as int, xx),
        decreases width - x,
    {
        proof {
            assert((y as int + 1) * width == y as int * width + width) by (nonlinear_arith);
        }
        let idx: usize = (y as usize) * (width as usize) + (x as usize);
        let p = pixels[idx];
        let ghost prev = bytes@;
        bytes.push(p.b);
        bytes.push(p.g);
        bytes.push(p.r);
        proof {
            assert forall|xx: int| 0 <= xx < x + 1 implies row_bytes_at(
                bytes@,
                base,
                pixels@,
                width as int,
                y as int,
                xx,
            ) by {
                if xx < x {
                    assert(row_bytes_at(prev, base, pixels@, width as int, y as int, xx));
                } else {
                    assert(bytes@[base + 3 * xx] == p.b);
                    assert(bytes@[base + 3 * xx + 1] == p.g);
                    assert(bytes@[base + 3 * xx + 2] == p.r);
                }
            };
        }
        x = x + 1;
    }
    let pad: u32 = (4 - (3 * width) % 4) % 4;
    assert(pad == row_pad(width as int));
    let mut j: u32 = 0;
    while j < pad
        invariant
            0 <= j <= pad,
            bytes@.len() == base + 3 * width + j,
            forall|i: int| 0 <= i < base ==> bytes@[i] == old(bytes)@[i],
            forall|xx: int|
                0 <= xx < width ==> row_bytes_at(bytes@, base, pixels@, width as int, y as int, xx),
        decreases pad - j,
    {
        let ghost prev = bytes@;
        bytes.push(0);
        proof {
            assert forall|xx: int| 0 <= xx < width implies row_bytes_at(
                bytes@,
                base,
                pixels@,
                width as int,
                y as int,
                xx,
            ) by {
                assert(row_bytes_at(prev, base, pixels@, width as int, y as int, xx));
            };
        }
        j = j + 1;
    }
}

/// Serializes a frame buffer into a BMP container: 14-byte header, 40-byte
/// info block, then the pixels row by row in buffer order, channels b, g,
/// r, each row zero-padded to a multiple of four bytes. All multi-byte
/// fields are little-endian; the file-size field records the true total
/// length `54 + height * row_stride(width)`.
#[verifier::loop_isolation(false)]
#[verifier::rlimit(30)]
pub fn encode_bmp(width: u32, height: u32, pixels: &Vec<Color>) -> (bytes: Vec<u8>)
    requires
        1 <= width,
        1 <= height,
        pixels@.len() == width * height,
        width * height <= 0x1000_0000,
    ensures
        bytes@.len() == bmp_file_size(width as int, height as int),
        header_ok(bytes@, width as int, height as int),
        forall|x: int, y: int|
            0 <= x < width && 0 <= y < height ==> pixel_bytes_at(
                bytes@,
                width as int,
                pixels@,
                x,
                y,
            ),
{
    let ghost w = width as int;
    let ghost h = height as int;
    proof {
        assert(width <= 0x1000_0000) by (nonlinear_arith)
            requires
                w * h <= 0x1000_0000,
                1 <= h,
                1 <= w,
                w == width as int,
                h == height as int,
        ;
    }
    let pad: u32 = (4 - (3 * width) % 4) % 4;
    assert(pad == row_pad(w));
    let stride: u32 = 3 * width + pad;
    assert(stride == row_stride(w));
    proof {
        assert(h * row_stride(w) <= 6 * (w * h)) by (nonlinear_arith)
            requires
                row_stride(w) <= 3 * w + 3,
                3 * w + 3 <= 6 * w,
                0 <= h,
                0 <= w,
        ;
    }
    let file_size: u64 = 54 + (height as u64) * (stride as u64);
    assert(file_size == bmp_file_size(w, h));
    assert(file_size <= 54 + 0x6000_0000);
    let mut bytes: Vec<u8> = Vec::new();
    bytes.push(66);
    bytes.push(77);
    push_u32_le(&mut bytes, file_size as u32);
    push_u32_le(&mut bytes, 0);
    push_u32_le(&mut bytes, 54);
    push_u32_le(&mut bytes, 40);
    push_u32_le(&mut bytes, width);
    push_u32_le(&mut bytes, height);
    push_u16_le(&mut bytes, 1);
    push_u16_le(&mut bytes, 24);
    push_u32_le(&mut bytes, 0);
    push_u32_le(&mut bytes, 0);
    push_u32_le(&mut bytes, 2835);
    push_u32_le(&mut bytes, 2835);
    push_u32_le(&mut bytes, 0);
    push_u32_le(&mut bytes, 0);
    assert(bytes@.len() == 54);
    assert(header_ok(bytes@, w, h));
    let mut y: u32 = 0;
    while y < height
        invariant
            0 <= y <= height,
            bytes@.len() == 54 + y * row_stride(w),
            header_ok(bytes@, w, h),
            forall|x: int, yy: int|
                0 <= x < width && 0 <= yy < y ==> pixel_bytes_at(bytes@, w, pixels@, x, yy),
        decreases height - y,
    {
        let ghost len0 = bytes@.len() as int;
        let ghost yi = y as int;
        let ghost st = row_stride(w);
        proof {
            assert((yi + 1) * st == yi * st + st) by (nonlinear_arith);
            assert((yi + 1) * w <= h * w) by (nonlinear_arith)
                requires
                    yi + 1 <= h,
                    0 <= w,
            ;
            assert(w * h == h * w) by (nonlinear_arith);
            assert(yi * st + st <= h * st) by (nonlinear_arith)
                requires
                    yi + 1 <= h,
                    0 <= st,
            ;
            assert(h * st <= 6 * (w * h)) by (nonlinear_arith)
                requires
                    st <= 3 * w + 3,
                    3 * w + 3 <= 6 * w,
                    0 <= h,
                    0 <= w,
            ;
        }
        let ghost prev = bytes@;
        push_row(&mut bytes, pixels, width, y);
        proof {
            assert forall|x: int, yy: int| 0 <= x < width && 0 <= yy < y + 1 implies
                pixel_bytes_at(bytes@, w, pixels@, x, yy) by {
                if yy < yi {
                    assert((yy + 1) * st <= yi * st) by (nonlinear_arith)
                        requires
                            yy + 1 <= yi,
                            0 <= st,
                    ;
                    assert(yy * st + st == (yy + 1) * st) by (nonlinear_arith);
                    assert(54 + yy * st + 3 * x + 2 < len0);
                    assert(pixel_bytes_at(prev, w, pixels@, x, yy));
                } else {
                    assert(row_bytes_at(bytes@, len0, pixels@, w, yi, x));
                }
            };
        }
        y = y + 1;
    }
    bytes
}

fn read_u32_le(bytes: &Vec<u8>, off: usize) -> (r: u32)
    requires
        off + 4 <= bytes@.len(),
        off + 4 <= 0x8000_0000,
    ensures
        r as int == le32(bytes@, off as int),
{
    let b0 = bytes[off] as u32;
    let b1 = bytes[off + 1] as u32;
    let b2 = bytes[off + 2] as u32;
    let b3 = bytes[off + 3] as u32;
    b0 + 0x100 * b1 + 0x10000 * b2 + 0x1000000 * b3
}

/// Reads the container's signature and, when it is present, the width and
/// height fields back out of the info block: the re-parsing half of the
/// encode round trip. Succeeds exactly on byte strings long enough to hold
/// the header and carrying the `BM` signature.
pub fn parse_header(bytes: &Vec<u8>) -> (r: Option<(u32, u32)>)
    ensures
        (r is Some) <==> (bytes@.len() >= 54 && bytes@[0] == 66u8 && bytes@[1] == 77u8),
        r matches Some(wh) ==> wh.0 as int == le32(bytes@, 18) && wh.1 as int == le32(bytes@, 22),
{
    if bytes.len() < 54 {
        return None;
    }
    if !(bytes[0] == 66 && bytes[1] == 77) {
        return None;
    }
    let w = read_u32_le(bytes, 18);
    let h = read_u32_le(bytes, 22);
    Some((w, h))
}

} // verus!
