//! Raster images: side-by-side spread composition, alpha conversion and
//! PNG encoding.

use vstd::prelude::*;
use crate::text::chars_of;
use crate::text::decimal;
use crate::text::decimal_chars;
use crate::text::extend_chars;
use crate::text::string_from_chars;

verus! {

/// An error produced by the rasterization or encoding pipeline.
#[derive(Debug, Clone, PartialEq, Eq)]
pub struct RenderError {
    /// Human-readable description of what went wrong.
    pub message: String,
}

impl RenderError {
    /// A `RenderError` with the given message.
    pub fn new(message: String) -> (r: Self)
        ensures
            r.message@ == message@,
    {
        RenderError { message }
    }
}

/// Straight-alpha RGBA8 pixels, row-major, `width * 4` bytes per row.
#[derive(Debug, Clone, PartialEq, Eq)]
pub struct RasterImage {
    pub width: u32,
    pub height: u32,
    pub rgba: Vec<u8>,
}

/// The byte at column byte `c` of row `row` in a buffer of `stride`-byte rows.
pub open spec fn at(v: Seq<u8>, row: int, stride: int, c: int) -> u8 {
    v[row * stride + c]
}

/// Whether row `row` of `img` is copied by a blit: it is within the declared
/// height and the pixel buffer holds the whole row.
pub open spec fn row_copied(img: RasterImage, row: int) -> bool {
    0 <= row < img.height && row * (img.width * 4) + img.width * 4 <= img.rgba@.len()
}

/// The byte at row `row`, column byte `c` of the spread of `left` and `right`:
/// `left` occupies the first `left.width` pixels of each row, `right` the
/// next `right.width`; rows a page does not supply are transparent (0).
pub open spec fn spread_byte(left: RasterImage, right: RasterImage, row: int, c: int) -> u8 {
    let lw4 = left.width * 4;
    let rw4 = right.width * 4;
    if c < lw4 {
        if row_copied(left, row) {
            left.rgba@[row * lw4 + c]
        } else {
            0
        }
    } else if c < lw4 + rw4 {
        if row_copied(right, row) {
            right.rgba@[row * rw4 + (c - lw4)]
        } else {
            0
        }
    } else {
        0
    }
}

pub open spec fn max_u32(a: u32, b: u32) -> u32 {
    if a >= b {
        a
    } else {
        b
    }
}

/// The message for a spread whose width does not fit in `u32`.
pub open spec fn width_overflow_message(lw: u32, rw: u32) -> Seq<char> {
    "spread width overflow: "@ + decimal(lw as nat) + " + "@ + decimal(rw as nat)
        + " exceeds u32"@
}

/// The message for a spread whose row stride does not fit in `usize`.
pub open spec fn stride_overflow_message(w: nat) -> Seq<char> {
    "spread row stride overflow for width "@ + decimal(w)
}

/// The message for a spread whose buffer size does not fit in `usize`.
pub open spec fn size_overflow_message(w: nat, h: nat) -> Seq<char> {
    "spread buffer size overflow ("@ + decimal(w) + "×"@ + decimal(h) + ")"@
}

proof fn lemma_index_bounds(row: int, c: int, stride: int, h: int)
    requires
        0 <= row < h,
        0 <= c < stride,
    ensures
        0 <= row * stride + c < stride * h,
{
    assert(row * stride + c < stride * h) by (nonlinear_arith)
        requires
            0 <= row < h,
            0 <= c < stride,
    ;
    assert(0 <= row * stride) by (nonlinear_arith)
        requires
            0 <= row,
            0 <= stride,
    ;
}

proof fn lemma_index_unique(r1: int, c1: int, r2: int, c2: int, stride: int)
    requires
        0 <= r1,
        0 <= r2,
        0 <= c1 < stride,
        0 <= c2 < stride,
        r1 * stride + c1 == r2 * stride + c2,
    ensures
        r1 == r2,
        c1 == c2,
{
    assert(r1 == r2) by (nonlinear_arith)
        requires
            0 <= r1,
            0 <= r2,
            0 <= c1 < stride,
            0 <= c2 < stride,
            r1 * stride + c1 == r2 * stride + c2,
    ;
}

proof fn lemma_rows_monotone(img: RasterImage, r0: int, row: int)
    requires
        0 <= r0 <= row,
        !(r0 * (img.width * 4) + img.width * 4 <= img.rgba@.len()),
    ensures
        !row_copied(img, row),
{
    let w4 = img.width * 4;
    assert(r0 * w4 + w4 <= row * w4 + w4) by (nonlinear_arith)
        requires
            0 <= r0 <= row,
            0 <= w4,
    ;
}

/// Copy every row of `src` that it holds completely into `dst` (rows of
/// `stride` bytes) at pixel column `x_offset`; stop at the first row the
/// source buffer does not hold. Pixels are copied verbatim.
fn blit(dst: &mut Vec<u8>, stride: usize, src: &RasterImage, x_offset: usize, Ghost(h): Ghost<int>)
    requires
        old(dst)@.len() == stride * h,
        stride * h <= usize::MAX,
        src.height <= h,
        x_offset * 4 + src.width * 4 <= stride,
    ensures
        final(dst)@.len() == old(dst)@.len(),
        forall|row: int, c: int|
            0 <= row < h && 0 <= c < stride ==> #[trigger] at(final(dst)@, row, stride as int, c)
                == if row_copied(*src, row) && x_offset * 4 <= c < x_offset * 4 + src.width * 4 {
                src.rgba@[row * (src.width * 4) + (c - x_offset * 4)]
            } else {
                at(old(dst)@, row, stride as int, c)
            },
{
    let ghost orig = dst@;
    assert(src.rgba@.len() <= usize::MAX) by {
        let _n = src.rgba.len();
    }
    let src_stride = src.width as usize * 4;
    let byte_offset = x_offset * 4;
    let mut row: usize = 0;
    while row < src.height as usize
        invariant
            dst@.len() == orig.len(),
            orig == old(dst)@,
            orig.len() == stride * h,
            stride * h <= usize::MAX,
            src.rgba@.len() <= usize::MAX,
            src.height <= h,
            byte_offset == x_offset * 4,
            src_stride == src.width * 4,
            byte_offset + src_stride <= stride,
            row <= src.height,
            forall|r: int| 0 <= r < row ==> #[trigger] row_copied(*src, r) || r >= src.height,
            forall|r: int, c: int|
                0 <= r < h && 0 <= c < stride ==> #[trigger] at(dst@, r, stride as int, c) == if r
                    < row && row_copied(*src, r) && byte_offset <= c < byte_offset + src_stride {
                    src.rgba@[r * src_stride + (c - byte_offset)]
                } else {
                    at(orig, r, stride as int, c)
                },
        decreases src.height - row,
    {
        proof {
            assert(row * src_stride <= stride * h) by (nonlinear_arith)
                requires
                    row < h,
                    src_stride <= stride,
            ;
            assert(row * src_stride + src_stride <= stride * h) by (nonlinear_arith)
                requires
                    row < h,
                    src_stride <= stride,
            ;
        }
        let src_start = row * src_stride;
        if src.rgba.len() < src_start + src_stride {
            // The source buffer is shorter than its declared height: stop.
            proof {
                assert forall|r: int, c: int|
                    0 <= r < h && 0 <= c < stride implies #[trigger] at(dst@, r, stride as int, c)
                    == if row_copied(*src, r) && x_offset * 4 <= c < x_offset * 4 + src.width
                    * 4 {
                    src.rgba@[r * (src.width * 4) + (c - x_offset * 4)]
                } else {
                    at(orig, r, stride as int, c)
                } by {
                    if r >= row {
                        lemma_rows_monotone(*src, row as int, r);
                    }
                }
            }
            return;
        }
        proof {
            assert(row * stride + byte_offset + src_stride <= stride * h) by (nonlinear_arith)
                requires
                    row < h,
                    byte_offset + src_stride <= stride,
            ;
        }
        let dst_start = row * stride + byte_offset;
        let mut j: usize = 0;
        while j < src_stride
            invariant
                dst@.len() == orig.len(),
                orig.len() == stride * h,
                stride * h <= usize::MAX,
                src.rgba@.len() <= usize::MAX,
                dst_start + src_stride <= stride * h,
                byte_offset + src_stride <= stride,
                src_stride == src.width * 4,
                row < src.height <= h,
                dst_start == row * stride + byte_offset,
                src_start == row * src_stride,
                src_start + src_stride <= src.rgba@.len(),
                j <= src_stride,
                forall|r: int, c: int|
                    0 <= r < h && 0 <= c < stride ==> #[trigger] at(dst@, r, stride as int, c)
                        == if (r < row && row_copied(*src, r) && byte_offset <= c < byte_offset
                        + src_stride) || (r == row && byte_offset <= c < byte_offset + j) {
                        src.rgba@[r * src_stride + (c - byte_offset)]
                    } else {
                        at(orig, r, stride as int, c)
                    },
            decreases src_stride - j,
        {
            let ghost before = dst@;
            let ghost k = dst_start + j;
            proof {
                lemma_index_bounds(row as int, byte_offset + j, stride as int, h);
            }
            dst.set(dst_start + j, src.rgba[src_start + j]);
            proof {
                assert forall|r: int, c: int|
                    0 <= r < h && 0 <= c < stride implies #[trigger] at(dst@, r, stride as int, c)
                    == if (r < row && row_copied(*src, r) && byte_offset <= c < byte_offset
                    + src_stride) || (r == row && byte_offset <= c < byte_offset + j + 1) {
                    src.rgba@[r * src_stride + (c - byte_offset)]
                } else {
                    at(orig, r, stride as int, c)
                } by {
                    lemma_index_bounds(r, c, stride as int, h);
                    if r * stride + c == k {
                        lemma_index_unique(r, c, row as int, byte_offset + j, stride as int);
                    } else {
                        assert(at(dst@, r, stride as int, c) == at(before, r, stride as int, c));
                    }
                }
            }
            j = j + 1;
        }
        proof {
            assert(row_copied(*src, row as int));
        }
        row = row + 1;
    }
}

/// Composite two rasterized pages side by side: `left` at `x = 0`, `right`
/// at `x = left.width`, both at `y = 0`, on a transparent canvas of width
/// `left.width + right.width` and height `max(left.height, right.height)`.
pub fn composite_spread(left: &RasterImage, right: &RasterImage) -> (r: Result<
    RasterImage,
    RenderError,
>)
    ensures
        match r {
            Ok(img) => {
                let stride = img.width * 4;
                &&& left.width + right.width <= u32::MAX
                &&& img.width == left.width + right.width
                &&& img.height == max_u32(left.height, right.height)
                &&& img.rgba@.len() == stride * img.height
                &&& forall|row: int, c: int|
                    0 <= row < img.height && 0 <= c < stride ==> #[trigger] at(
                        img.rgba@,
                        row,
                        stride,
                        c,
                    ) == spread_byte(*left, *right, row, c)
            },
            Err(e) => {
                let w = left.width + right.width;
                let h = max_u32(left.height, right.height);
                if w > u32::MAX {
                    e.message@ == width_overflow_message(left.width, right.width)
                } else if w * 4 > usize::MAX {
                    e.message@ == stride_overflow_message(w as nat)
                } else {
                    &&& w * 4 * h > usize::MAX
                    &&& e.message@ == size_overflow_message(w as nat, h as nat)
                }
            },
        },
{
    let width = match left.width.checked_add(right.width) {
        Some(w) => w,
        None => {
            let mut m = chars_of("spread width overflow: ");
            extend_chars(&mut m, decimal_chars(left.width as u64).as_slice());
            extend_chars(&mut m, chars_of(" + ").as_slice());
            extend_chars(&mut m, decimal_chars(right.width as u64).as_slice());
            extend_chars(&mut m, chars_of(" exceeds u32").as_slice());
            return Err(RenderError::new(string_from_chars(m.as_slice())));
        },
    };
    let height = if left.height >= right.height {
        left.height
    } else {
        right.height
    };
    let stride = match (width as usize).checked_mul(4) {
        Some(s) => s,
        None => {
            let mut m = chars_of("spread row stride overflow for width ");
            extend_chars(&mut m, decimal_chars(width as u64).as_slice());
            return Err(RenderError::new(string_from_chars(m.as_slice())));
        },
    };
    let total = match stride.checked_mul(height as usize) {
        Some(t) => t,
        None => {
            let mut m = chars_of("spread buffer size overflow (");
            extend_chars(&mut m, decimal_chars(width as u64).as_slice());
            extend_chars(&mut m, chars_of("×").as_slice());
            extend_chars(&mut m, decimal_chars(height as u64).as_slice());
            extend_chars(&mut m, chars_of(")").as_slice());
            return Err(RenderError::new(string_from_chars(m.as_slice())));
        },
    };
    // Fully transparent canvas (straight-alpha 0,0,0,0).
    let mut rgba: Vec<u8> = vec![0u8; total];
    let ghost h = height as int;
    let ghost zero = rgba@;
    assert forall|row: int, c: int|
        0 <= row < h && 0 <= c < stride implies #[trigger] at(zero, row, stride as int, c)
        == 0u8 by {
        lemma_index_bounds(row, c, stride as int, h);
    }
    blit(&mut rgba, stride, left, 0, Ghost(h));
    let ghost after_left = rgba@;
    blit(&mut rgba, stride, right, left.width as usize, Ghost(h));
    let img = RasterImage { width, height, rgba };
    assert forall|row: int, c: int|
        0 <= row < img.height && 0 <= c < stride implies #[trigger] at(
        img.rgba@,
        row,
        stride as int,
        c,
    ) == spread_byte(*left, *right, row, c) by {
        assert(at(after_left, row, stride as int, c) == (if row_copied(*left, row) && 0 <= c
            < left.width * 4 {
            left.rgba@[row * (left.width * 4) + c]
        } else {
            0u8
        }));
    }
    Ok(img)
}

/// Straight-alpha value of a premultiplied channel: `v * 255 / a`, rounded
/// to nearest and clamped to 255.
pub open spec fn unpremultiply(v: u8, a: u8) -> u8 {
    let q = (v * 255 + a / 2) / (a as int);
    if q > 255 {
        255
    } else {
        q as u8
    }
}

/// Premultiplied value of a straight-alpha channel: `v * a / 255`, rounded.
pub open spec fn premultiply(v: u8, a: u8) -> u8 {
    let q = (v * a + 127) / 255;
    if q > 255 {
        255
    } else {
        q as u8
    }
}

/// Straight-alpha pixel of a premultiplied one; fully transparent pixels
/// become `(0, 0, 0, 0)`.
pub open spec fn straight_pixel(r: u8, g: u8, b: u8, a: u8) -> (u8, u8, u8, u8) {
    if a == 0 {
        (0, 0, 0, 0)
    } else {
        (unpremultiply(r, a), unpremultiply(g, a), unpremultiply(b, a), a)
    }
}

/// Premultiplied pixel of a straight-alpha one.
pub open spec fn premultiplied_pixel(r: u8, g: u8, b: u8, a: u8) -> (u8, u8, u8, u8) {
    if a == 0 {
        (0, 0, 0, 0)
    } else {
        (premultiply(r, a), premultiply(g, a), premultiply(b, a), a)
    }
}

fn unpremultiply_channel(v: u8, a: u8) -> (r: u8)
    requires
        a > 0,
    ensures
        r == unpremultiply(v, a),
{
    let a16 = a as u16;
    assert(v * 255 + a16 / 2 <= u16::MAX) by (nonlinear_arith)
        requires
            v <= 255,
            a16 <= 255,
    ;
    let result = (v as u16 * 255 + a16 / 2) / a16;
    if result > 255 {
        255
    } else {
        result as u8
    }
}

fn premultiply_channel(v: u8, a: u8) -> (r: u8)
    ensures
        r == premultiply(v, a),
{
    let a16 = a as u16;
    assert(v * a16 + 127 <= u16::MAX) by (nonlinear_arith)
        requires
            v <= 255,
            a16 <= 255,
    ;
    let result = (v as u16 * a16 + 127) / 255;
    if result > 255 {
        255
    } else {
        result as u8
    }
}

/// Convert a premultiplied RGBA8 pixel (tiny-skia's storage) to straight
/// alpha.
pub fn premultiplied_to_straight(r: u8, g: u8, b: u8, a: u8) -> (p: (u8, u8, u8, u8))
    ensures
        p == straight_pixel(r, g, b, a),
{
    if a == 0 {
        return (0, 0, 0, 0);
    }
    (unpremultiply_channel(r, a), unpremultiply_channel(g, a), unpremultiply_channel(b, a), a)
}

/// Convert a straight-alpha RGBA8 pixel to premultiplied alpha.
pub fn straight_to_premultiplied(r: u8, g: u8, b: u8, a: u8) -> (p: (u8, u8, u8, u8))
    ensures
        p == premultiplied_pixel(r, g, b, a),
{
    if a == 0 {
        return (0, 0, 0, 0);
    }
    (premultiply_channel(r, a), premultiply_channel(g, a), premultiply_channel(b, a), a)
}

proof fn lemma_opaque_channel(v: u8)
    ensures
        premultiply(v, 255) == v,
        unpremultiply(v, 255) == v,
{
    assert((v * 255 + 127) / 255 == v) by (nonlinear_arith)
        requires
            0 <= v <= 255,
    ;
}

/// Opaque pixels are the same in both representations.
pub proof fn law_opaque_round_trip(r: u8, g: u8, b: u8)
    ensures
        straight_pixel(r, g, b, 255) == (r, g, b, 255u8),
        premultiplied_pixel(r, g, b, 255) == (r, g, b, 255u8),
{
    lemma_opaque_channel(r);
    lemma_opaque_channel(g);
    lemma_opaque_channel(b);
}

/// `q` is `v * a / 255` rounded to nearest: `q * 255` lies within half a
/// step of `v * a`.
pub open spec fn scaled_by_alpha(q: u8, v: u8, a: u8) -> bool {
    q * 255 <= v * a + 127 < q * 255 + 255
}

proof fn lemma_premultiply_scales(v: u8, a: u8)
    ensures
        scaled_by_alpha(premultiply(v, a), v, a),
        premultiply(v, a) <= a,
{
    let q = (v * a + 127) / 255;
    assert(q <= a && q * 255 <= v * a + 127 < q * 255 + 255) by (nonlinear_arith)
        requires
            0 <= v <= 255,
            0 <= a <= 255,
            q == (v * a + 127) / 255,
    ;
}

/// Premultiplying scales each colour channel alike: red, green and blue
/// each become their straight value times alpha over 255, rounded to
/// nearest, so none exceeds alpha; alpha is kept. A fully transparent pixel
/// is all zero, which the same rounding gives.
pub proof fn law_premultiply_scales_every_channel(r: u8, g: u8, b: u8, a: u8)
    ensures
        scaled_by_alpha(premultiplied_pixel(r, g, b, a).0, r, a),
        scaled_by_alpha(premultiplied_pixel(r, g, b, a).1, g, a),
        scaled_by_alpha(premultiplied_pixel(r, g, b, a).2, b, a),
        premultiplied_pixel(r, g, b, a).3 == a,
        premultiplied_pixel(r, g, b, a).0 <= a,
        premultiplied_pixel(r, g, b, a).1 <= a,
        premultiplied_pixel(r, g, b, a).2 <= a,
{
    lemma_premultiply_scales(r, a);
    lemma_premultiply_scales(g, a);
    lemma_premultiply_scales(b, a);
    if a == 0 {
        assert(r * a == 0 && g * a == 0 && b * a == 0) by (nonlinear_arith)
            requires
                a == 0,
        ;
    }
}

/// Alpha is preserved by both conversions, and a premultiplied channel
/// never exceeds its alpha.
pub proof fn law_alpha_preserved(r: u8, g: u8, b: u8, a: u8)
    ensures
        straight_pixel(r, g, b, a).3 == a,
        premultiplied_pixel(r, g, b, a).3 == a,
        premultiplied_pixel(r, g, b, a).0 <= a,
{
    if a > 0 {
        assert((r * a + 127) / 255 <= a) by (nonlinear_arith)
            requires
                0 <= r <= 255,
                0 < a <= 255,
        ;
    }
}

// ── PNG encoding through tiny-skia ──────────────────────────────────────────

#[verifier::external_type_specification]
#[verifier::external_body]
pub struct ExPixmap(tiny_skia::Pixmap);

/// The premultiplied RGBA bytes a pixmap holds.
pub uninterp spec fn pixmap_data(p: tiny_skia::Pixmap) -> Seq<u8>;

/// The `(width, height)` a pixmap was made with.
pub uninterp spec fn pixmap_size(p: tiny_skia::Pixmap) -> (u32, u32);

/// The PNG file tiny-skia writes for a pixmap of the given size holding the
/// given premultiplied bytes.
pub uninterp spec fn png_of(width: u32, height: u32, data: Seq<u8>) -> Seq<u8>;

/// Whether tiny-skia can allocate a pixmap of this size: both sides
/// positive, a row of `width * 4` bytes within `i32`, and the whole buffer
/// within `usize`.
pub open spec fn pixmap_size_ok(width: u32, height: u32) -> bool {
    &&& width > 0
    &&& height > 0
    &&& width * 4 <= i32::MAX
    &&& width * 4 * height <= usize::MAX
}

/// `tiny_skia::Pixmap::new`: a zero-filled pixmap of `width * height * 4`
/// bytes, or `None` when the size is not allocatable (`pixmap_size_ok`).
#[verifier::external_body]
fn pixmap_new(width: u32, height: u32) -> (r: Option<tiny_skia::Pixmap>)
    ensures
        r is Some <==> pixmap_size_ok(width, height),
        r matches Some(p) ==> pixmap_size(p) == (width, height) && pixmap_data(p) == Seq::new(
            (width * 4 * height) as nat,
            |i: int| 0u8,
        ),
{
    tiny_skia::Pixmap::new(width, height)
}

/// `tiny_skia::Pixmap::data`: the length of the pixmap's byte buffer.
#[verifier::external_body]
fn pixmap_data_len(p: &tiny_skia::Pixmap) -> (r: usize)
    ensures
        r == pixmap_data(*p).len(),
{
    p.data().len()
}

/// `tiny_skia::Pixmap::data_mut` followed by `copy_from_slice`: the pixmap's
/// bytes become `bytes`; its size is unchanged.
#[verifier::external_body]
fn pixmap_write(p: &mut tiny_skia::Pixmap, bytes: &[u8])
    requires
        bytes@.len() == pixmap_data(*old(p)).len(),
    ensures
        pixmap_data(*final(p)) == bytes@,
        pixmap_size(*final(p)) == pixmap_size(*old(p)),
{
    p.data_mut().copy_from_slice(bytes)
}

/// `tiny_skia::Pixmap::encode_png`: the PNG file for the pixmap's size and
/// bytes. It writes into a `Vec` through the `png` encoder, whose only
/// failures on an 8-bit RGBA image of the right buffer length are a zero
/// width or height, which a pixmap cannot have; so it succeeds.
#[verifier::external_body]
fn pixmap_encode_png(p: &tiny_skia::Pixmap) -> (r: Result<Vec<u8>, String>)
    ensures
        r is Ok,
        r matches Ok(bytes) ==> bytes@ == png_of(
            pixmap_size(*p).0,
            pixmap_size(*p).1,
            pixmap_data(*p),
        ),
{
    p.encode_png().map_err(|e| e.to_string())
}

/// Channel `j` of the premultiplied form of pixel `k` of straight-alpha
/// bytes `s`.
pub open spec fn premultiplied_byte(s: Seq<u8>, k: int, j: int) -> u8 {
    let p = premultiplied_pixel(s[4 * k], s[4 * k + 1], s[4 * k + 2], s[4 * k + 3]);
    if j == 0 {
        p.0
    } else if j == 1 {
        p.1
    } else if j == 2 {
        p.2
    } else {
        p.3
    }
}

/// The premultiplied form of every whole pixel of `s` (a trailing partial
/// pixel is dropped).
pub open spec fn is_premultiplied_of(out: Seq<u8>, s: Seq<u8>) -> bool {
    &&& out.len() == (s.len() / 4) * 4
    &&& forall|k: int, j: int|
        0 <= k < s.len() / 4 && 0 <= j < 4 ==> #[trigger] out[4 * k + j] == premultiplied_byte(
            s,
            k,
            j,
        )
}

/// Premultiply every whole pixel of straight-alpha `rgba`.
fn premultiply_all(rgba: &Vec<u8>) -> (out: Vec<u8>)
    ensures
        is_premultiplied_of(out@, rgba@),
{
    let mut out: Vec<u8> = Vec::new();
    let len = rgba.len();
    let n = len / 4;
    let mut k: usize = 0;
    while k < n
        invariant
            n == rgba@.len() / 4,
            rgba@.len() <= usize::MAX,
            k <= n,
            out@.len() == 4 * k,
            forall|k2: int, j: int|
                0 <= k2 < k && 0 <= j < 4 ==> #[trigger] out@[4 * k2 + j] == premultiplied_byte(
                    rgba@,
                    k2,
                    j,
                ),
        decreases n - k,
    {
        let b = 4 * k;
        let (r, g, bl, a) = straight_to_premultiplied(rgba[b], rgba[b + 1], rgba[b + 2], rgba[b + 3]);
        out.push(r);
        out.push(g);
        out.push(bl);
        out.push(a);
        k = k + 1;
        assert forall|k2: int, j: int|
            0 <= k2 < k && 0 <= j < 4 implies #[trigger] out@[4 * k2 + j] == premultiplied_byte(
            rgba@,
            k2,
            j,
        ) by {
            if k2 < k - 1 {
                assert(out@[4 * k2 + j] == out@.take(4 * (k - 1))[4 * k2 + j]);
            }
        }
    }
    out
}

/// The CPU rasterization backend powered by tiny-skia.
pub struct TinySkiaBackend;

/// The message for a pixmap that cannot be allocated.
pub open spec fn alloc_failure_message(w: u32, h: u32) -> Seq<char> {
    "failed to allocate pixmap for encoding ("@ + decimal(w as nat) + "×"@ + decimal(h as nat)
        + ")"@
}

impl TinySkiaBackend {
    /// Encode a straight-alpha image as PNG: premultiply it, load it into a
    /// tiny-skia pixmap of the image's size, and let tiny-skia write the PNG.
    /// It succeeds exactly when the size can be allocated and the buffer
    /// holds four bytes per pixel.
    pub fn encode_png(&self, image: &RasterImage) -> (r: Result<Vec<u8>, RenderError>)
        ensures
            r is Ok <==> pixmap_size_ok(image.width, image.height) && (image.rgba@.len() / 4) * 4
                == image.width * 4 * image.height,
            match r {
                Ok(bytes) => {
                    &&& pixmap_size_ok(image.width, image.height)
                    &&& (image.rgba@.len() / 4) * 4 == image.width * 4 * image.height
                    &&& exists|premul: Seq<u8>|
                        is_premultiplied_of(premul, image.rgba@) && bytes@ == png_of(
                            image.width,
                            image.height,
                            premul,
                        )
                },
                Err(e) => if !pixmap_size_ok(image.width, image.height) {
                    e.message@ == alloc_failure_message(image.width, image.height)
                } else if (image.rgba@.len() / 4) * 4 != image.width * 4 * image.height {
                    e.message@ == "pixel buffer length mismatch during PNG encoding"@
                } else {
                    e.message@.len() >= "PNG encoding failed: "@.len() && e.message@.take(
                        "PNG encoding failed: "@.len() as int,
                    ) == "PNG encoding failed: "@
                },
            },
    {
        let premul = premultiply_all(&image.rgba);
        let mut pixmap = match pixmap_new(image.width, image.height) {
            Some(p) => p,
            None => {
                let mut m = chars_of("failed to allocate pixmap for encoding (");
                extend_chars(&mut m, decimal_chars(image.width as u64).as_slice());
                extend_chars(&mut m, chars_of("×").as_slice());
                extend_chars(&mut m, decimal_chars(image.height as u64).as_slice());
                extend_chars(&mut m, chars_of(")").as_slice());
                return Err(RenderError::new(string_from_chars(m.as_slice())));
            },
        };
        if pixmap_data_len(&pixmap) != premul.len() {
            return Err(
                RenderError::new(
                    string_from_chars(
                        chars_of("pixel buffer length mismatch during PNG encoding").as_slice(),
                    ),
                ),
            );
        }
        pixmap_write(&mut pixmap, premul.as_slice());
        match pixmap_encode_png(&pixmap) {
            Ok(bytes) => Ok(bytes),
            Err(e) => {
                let mut m = chars_of("PNG encoding failed: ");
                let ghost prefix = m@;
                extend_chars(&mut m, chars_of(e.as_str()).as_slice());
                assert(m@.take(prefix.len() as int) =~= prefix);
                Err(RenderError::new(string_from_chars(m.as_slice())))
            },
        }
    }
}

/// The premultiplied pixels handed to the PNG encoder are determined by
/// the image, so encoding the same image twice gives the same bytes.
pub proof fn law_encoding_is_deterministic(rgba: Seq<u8>, p1: Seq<u8>, p2: Seq<u8>, w: u32, h: u32)
    requires
        is_premultiplied_of(p1, rgba),
        is_premultiplied_of(p2, rgba),
    ensures
        p1 == p2,
        png_of(w, h, p1) == png_of(w, h, p2),
{
    assert forall|i: int| 0 <= i < p1.len() implies p1[i] == p2[i] by {
        let k = i / 4;
        let j = i % 4;
        assert(i == 4 * k + j);
        assert(0 <= k < rgba.len() / 4);
        assert(p1[4 * k + j] == premultiplied_byte(rgba, k, j));
        assert(p2[4 * k + j] == premultiplied_byte(rgba, k, j));
    }
    assert(p1 =~= p2);
}

} // verus!
