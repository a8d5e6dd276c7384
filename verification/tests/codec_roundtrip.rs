use base64::Engine;
use virtual_canvas::{Bitmap, CropError, DisplayCapture, RegionError, Rgba};

fn png_b64_of_pixels(width: u32, height: u32, data: &[Rgba]) -> String {
    let mut raw = Vec::new();
    for p in data {
        raw.push(p.r);
        raw.push(p.g);
        raw.push(p.b);
        raw.push(p.a);
    }
    let img = image::RgbaImage::from_raw(width, height, raw).unwrap();
    let mut buf = Vec::new();
    let mut cursor = std::io::Cursor::new(&mut buf);
    img.write_to(&mut cursor, image::ImageFormat::Png).unwrap();
    base64::engine::general_purpose::STANDARD.encode(&buf)
}

fn decode_b64_png(text: &str) -> (u32, u32, Vec<u8>) {
    let bytes = base64::engine::general_purpose::STANDARD
        .decode(text.as_bytes())
        .unwrap();
    let img = image::load_from_memory(&bytes).unwrap().to_rgba8();
    let (w, h) = img.dimensions();
    (w, h, img.into_raw())
}

#[test]
fn take_screen_shot_encodes_the_canvas() {
    let pixels = vec![
        Rgba { r: 1, g: 2, b: 3, a: 255 },
        Rgba { r: 200, g: 100, b: 50, a: 255 },
    ];
    let d = DisplayCapture {
        origin: (0, 0),
        size: (2, 1),
        pixels: Bitmap { width: 2, height: 1, data: pixels },
    };
    let shot = virtual_canvas::take_screen_shot(vec![d]).unwrap();
    assert_eq!(shot.xy, (0, 0));
    assert_eq!(shot.wh, (2, 1));
    let (w, h, raw) = decode_b64_png(&shot.image);
    assert_eq!((w, h), (2, 1));
    assert_eq!(raw, vec![1, 2, 3, 255, 200, 100, 50, 255]);
}

#[test]
fn take_screen_shot_fills_gaps_with_transparency() {
    let red = Rgba { r: 255, g: 0, b: 0, a: 255 };
    let blue = Rgba { r: 0, g: 0, b: 255, a: 255 };
    let a = DisplayCapture {
        origin: (0, 0),
        size: (1, 1),
        pixels: Bitmap { width: 1, height: 1, data: vec![red] },
    };
    let b = DisplayCapture {
        origin: (2, 0),
        size: (1, 1),
        pixels: Bitmap { width: 1, height: 1, data: vec![blue] },
    };
    let shot = virtual_canvas::take_screen_shot(vec![a, b]).unwrap();
    assert_eq!(shot.xy, (0, 0));
    assert_eq!(shot.wh, (3, 1));
    let (w, h, raw) = decode_b64_png(&shot.image);
    assert_eq!((w, h), (3, 1));
    assert_eq!(raw, vec![255, 0, 0, 255, 0, 0, 0, 0, 0, 0, 255, 255]);
}

#[test]
fn crop_image_extracts_the_region() {
    let mut data = Vec::new();
    for i in 0..9u8 {
        data.push(Rgba { r: i, g: 0, b: 0, a: 255 });
    }
    let text = png_b64_of_pixels(3, 3, &data);
    let out = virtual_canvas::crop_image(text, (1, 1), (2, 2)).unwrap();
    let (w, h, raw) = decode_b64_png(&out);
    assert_eq!((w, h), (2, 2));
    assert_eq!(raw[0], 4);
    assert_eq!(raw[4], 5);
    assert_eq!(raw[8], 7);
    assert_eq!(raw[12], 8);
}

#[test]
fn crop_image_rejects_negative_offset() {
    let text = png_b64_of_pixels(2, 2, &[Rgba { r: 0, g: 0, b: 0, a: 255 }; 4]);
    let r = virtual_canvas::crop_image(text, (-1, 0), (1, 1));
    assert_eq!(r.unwrap_err(), CropError::InvalidRegion(RegionError::NegativeOffset));
}

#[test]
fn crop_image_rejects_zero_size() {
    let text = png_b64_of_pixels(2, 2, &[Rgba { r: 0, g: 0, b: 0, a: 255 }; 4]);
    let r = virtual_canvas::crop_image(text, (0, 0), (0, 10));
    assert_eq!(r.unwrap_err(), CropError::InvalidRegion(RegionError::ZeroSize));
}

#[test]
fn crop_image_rejects_out_of_bounds() {
    let text = png_b64_of_pixels(3, 3, &[Rgba { r: 9, g: 9, b: 9, a: 255 }; 9]);
    let r = virtual_canvas::crop_image(text, (1, 1), (3, 3));
    assert_eq!(r.unwrap_err(), CropError::InvalidRegion(RegionError::OutOfBounds));
}

#[test]
fn crop_image_rejects_undecodable_base64() {
    let r = virtual_canvas::crop_image("!!!not base64!!!".to_string(), (0, 0), (1, 1));
    assert_eq!(r.unwrap_err(), CropError::CodecFailure);
}

#[test]
fn crop_image_rejects_undecodable_image_bytes() {
    let text = base64::engine::general_purpose::STANDARD.encode(b"not a png stream");
    let r = virtual_canvas::crop_image(text, (0, 0), (1, 1));
    assert_eq!(r.unwrap_err(), CropError::CodecFailure);
}

#[test]
fn crop_image_full_bounds_keeps_every_pixel() {
    let mut data = Vec::new();
    for i in 0..6u8 {
        data.push(Rgba { r: i, g: 7, b: 3, a: 255 });
    }
    let text = png_b64_of_pixels(3, 2, &data);
    let out = virtual_canvas::crop_image(text, (0, 0), (3, 2)).unwrap();
    let (w, h, raw) = decode_b64_png(&out);
    assert_eq!((w, h), (3, 2));
    for i in 0..6usize {
        assert_eq!(raw[4 * i], i as u8);
        assert_eq!(raw[4 * i + 1], 7);
        assert_eq!(raw[4 * i + 2], 3);
        assert_eq!(raw[4 * i + 3], 255);
    }
}
