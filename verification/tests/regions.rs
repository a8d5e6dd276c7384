use virtual_canvas::{Bitmap, DisplayCapture, RegionError, Rgba};

fn gradient(width: u32, height: u32) -> Bitmap {
    let mut data = Vec::new();
    for y in 0..height {
        for x in 0..width {
            data.push(Rgba { r: x as u8, g: y as u8, b: (x + y) as u8, a: 255 });
        }
    }
    Bitmap { width, height, data }
}


fn crop_err(src: &Bitmap, x: i32, y: i32, w: u32, h: u32) -> RegionError {
    match src.crop(x, y, w, h) {
        Err(e) => e,
        Ok(_) => panic!("expected the crop to be rejected"),
    }
}

#[test]
fn full_bounds_crop_round_trip() {
    let src = gradient(7, 5);
    let out = src.crop(0, 0, 7, 5).unwrap();
    assert_eq!(out.width, src.width);
    assert_eq!(out.height, src.height);
    assert_eq!(out.data, src.data);
}

#[test]
fn crop_copies_the_covered_pixels() {
    let src = gradient(6, 4);
    let out = src.crop(2, 1, 3, 2).unwrap();
    assert_eq!(out.width, 3);
    assert_eq!(out.height, 2);
    for y in 0..2u32 {
        for x in 0..3u32 {
            let got = out.data[(y * 3 + x) as usize];
            let want = src.data[((y + 1) * 6 + (x + 2)) as usize];
            assert_eq!(got, want);
        }
    }
}

#[test]
fn crop_rejects_negative_offset() {
    let src = gradient(4, 4);
    assert_eq!(crop_err(&src, -1, 0, 2, 2), RegionError::NegativeOffset);
}

#[test]
fn crop_rejects_zero_size() {
    let src = gradient(4, 4);
    assert_eq!(crop_err(&src, 0, 0, 0, 10), RegionError::ZeroSize);
}

#[test]
fn crop_rejects_out_of_bounds() {
    let src = gradient(4, 4);
    assert_eq!(crop_err(&src, 5, 5, 4, 4), RegionError::OutOfBounds);
}

#[test]
fn validation_order_negative_before_zero() {
    let src = gradient(4, 4);
    assert_eq!(crop_err(&src, -1, 0, 0, 10), RegionError::NegativeOffset);
}

#[test]
fn normalizer_is_idempotent_on_matching_sizes() {
    let capture = DisplayCapture { origin: (3, -2), size: (5, 4), pixels: gradient(5, 4) };
    let source = capture.pixels.data.clone();
    let normalized = virtual_canvas::process_image(&capture);
    assert_eq!(normalized.origin, (3, -2));
    assert_eq!(normalized.size, (5, 4));
    assert_eq!(normalized.pixels.width, 5);
    assert_eq!(normalized.pixels.height, 4);
    assert_eq!(normalized.pixels.data, source);
}

#[test]
fn normalizer_resamples_to_logical_size() {
    // A 4x4 capture of four 2x2 quadrants, reported as a 2x2 display:
    // nearest-neighbor picks the top-left pixel of each quadrant.
    let mut data = Vec::new();
    for y in 0..4u32 {
        for x in 0..4u32 {
            let v = (10 * (y / 2 * 2 + x / 2)) as u8;
            data.push(Rgba { r: v, g: 0, b: 0, a: 255 });
        }
    }
    let capture = DisplayCapture {
        origin: (0, 0),
        size: (2, 2),
        pixels: Bitmap { width: 4, height: 4, data },
    };
    let normalized = virtual_canvas::process_image(&capture);
    assert_eq!(normalized.pixels.width, 2);
    assert_eq!(normalized.pixels.height, 2);
    assert_eq!(normalized.pixels.data[0].r, 0);
    assert_eq!(normalized.pixels.data[1].r, 10);
    assert_eq!(normalized.pixels.data[2].r, 20);
    assert_eq!(normalized.pixels.data[3].r, 30);
}

#[test]
fn normalizer_upscales_a_small_capture() {
    let capture = DisplayCapture { origin: (0, 0), size: (4, 2), pixels: gradient(2, 1) };
    let normalized = virtual_canvas::process_image(&capture);
    assert_eq!(normalized.pixels.width, 4);
    assert_eq!(normalized.pixels.height, 2);
    // Destination column picks source column x * 2 / 4.
    let src = gradient(2, 1);
    for y in 0..2u32 {
        for x in 0..4u32 {
            let want = src.data[(x * 2 / 4) as usize];
            assert_eq!(normalized.pixels.data[(y * 4 + x) as usize], want);
        }
    }
}
