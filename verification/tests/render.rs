use zenith::render::{
    composite_spread, premultiplied_to_straight, straight_to_premultiplied, RasterImage,
    RenderError, TinySkiaBackend,
};

/// Build a solid-color RasterImage of `w`×`h` filled with `rgba`.
fn solid(w: u32, h: u32, rgba: [u8; 4]) -> RasterImage {
    let mut buf = Vec::with_capacity((w * h * 4) as usize);
    for _ in 0..(w * h) {
        buf.extend_from_slice(&rgba);
    }
    RasterImage {
        width: w,
        height: h,
        rgba: buf,
    }
}

#[test]
fn composite_spread_width_is_sum() {
    let left = solid(30, 20, [255, 0, 0, 255]);
    let right = solid(40, 20, [0, 0, 255, 255]);
    let out = composite_spread(&left, &right).expect("composite");
    assert_eq!(out.width, 70, "spread width must be wA + wB");
    assert_eq!(out.height, 20, "spread height must be max(hA, hB)");
    assert_eq!(out.rgba.len(), (70 * 20 * 4) as usize);
}

#[test]
fn composite_spread_height_is_max() {
    let left = solid(10, 50, [1, 2, 3, 255]);
    let right = solid(10, 30, [4, 5, 6, 255]);
    let out = composite_spread(&left, &right).expect("composite");
    assert_eq!(out.height, 50, "height must be the taller of the two");
}

#[test]
fn composite_spread_places_pages_side_by_side() {
    let left = solid(2, 1, [10, 20, 30, 255]);
    let right = solid(3, 1, [40, 50, 60, 255]);
    let out = composite_spread(&left, &right).expect("composite");
    assert_eq!(&out.rgba[0..4], &[10, 20, 30, 255], "x=0 is left page");
    assert_eq!(&out.rgba[4..8], &[10, 20, 30, 255], "x=1 is left page");
    assert_eq!(&out.rgba[8..12], &[40, 50, 60, 255], "x=2 is right page");
    assert_eq!(&out.rgba[12..16], &[40, 50, 60, 255], "x=3 is right page");
    assert_eq!(&out.rgba[16..20], &[40, 50, 60, 255], "x=4 is right page");
}

#[test]
fn composite_spread_short_page_leaves_transparent_gap() {
    let left = solid(1, 2, [9, 9, 9, 255]);
    let right = solid(1, 1, [8, 8, 8, 255]);
    let out = composite_spread(&left, &right).expect("composite");
    assert_eq!(out.width, 2);
    assert_eq!(out.height, 2);
    let stride = 2 * 4;
    let row1_right = &out.rgba[stride + 4..stride + 8];
    assert_eq!(row1_right, &[0, 0, 0, 0], "gap below short page is transparent");
}

#[test]
fn composite_spread_width_overflow_is_an_error() {
    let left = RasterImage { width: u32::MAX, height: 0, rgba: vec![] };
    let right = RasterImage { width: 1, height: 0, rgba: vec![] };
    let err = composite_spread(&left, &right).expect_err("overflow");
    assert_eq!(
        err.message,
        format!("spread width overflow: {} + 1 exceeds u32", u32::MAX)
    );
}

#[test]
fn composite_spread_of_empty_pages_is_empty() {
    let left = solid(0, 0, [0, 0, 0, 0]);
    let right = solid(0, 0, [0, 0, 0, 0]);
    let out = composite_spread(&left, &right).expect("composite");
    assert_eq!((out.width, out.height, out.rgba.len()), (0, 0, 0));
}

#[test]
fn premultiply_then_unpremultiply_keeps_opaque_pixels() {
    let p = straight_to_premultiplied(12, 200, 77, 255);
    assert_eq!(p, (12, 200, 77, 255));
    assert_eq!(premultiplied_to_straight(p.0, p.1, p.2, p.3), (12, 200, 77, 255));
}

#[test]
fn premultiply_keeps_alpha_and_scales_channels() {
    let p = straight_to_premultiplied(255, 128, 0, 128);
    assert_eq!(p.3, 128);
    assert_eq!(p.0, 128);
    let s = premultiplied_to_straight(0, 0, 0, 0);
    assert_eq!(s, (0, 0, 0, 0));
}

#[test]
fn encode_png_starts_with_png_signature() {
    let img = solid(3, 2, [255, 0, 0, 255]);
    let bytes = TinySkiaBackend.encode_png(&img).expect("encodes");
    assert_eq!(&bytes[0..8], &[0x89, b'P', b'N', b'G', 0x0d, 0x0a, 0x1a, 0x0a]);
}

#[test]
fn encode_png_is_deterministic() {
    let img = solid(4, 4, [10, 20, 30, 128]);
    let a = TinySkiaBackend.encode_png(&img).expect("encodes");
    let b = TinySkiaBackend.encode_png(&img).expect("encodes");
    assert_eq!(a, b);
}

#[test]
fn encode_png_zero_size_is_an_allocation_error() {
    let img = RasterImage { width: 0, height: 5, rgba: vec![] };
    let err = TinySkiaBackend.encode_png(&img).expect_err("zero width");
    assert_eq!(err.message, "failed to allocate pixmap for encoding (0×5)");
}

#[test]
fn encode_png_short_buffer_is_a_length_error() {
    let img = RasterImage { width: 2, height: 2, rgba: vec![0; 8] };
    let err = TinySkiaBackend.encode_png(&img).expect_err("short buffer");
    assert_eq!(err.message, "pixel buffer length mismatch during PNG encoding");
}

#[test]
fn render_error_keeps_its_message() {
    let e = RenderError::new("boom".to_owned());
    assert_eq!(e.message, "boom");
}
