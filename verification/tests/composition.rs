use virtual_canvas::{Bitmap, CaptureError, DisplayCapture, Rgba};

fn solid(width: u32, height: u32, px: Rgba) -> Bitmap {
    let n = (width as usize) * (height as usize);
    Bitmap { width, height, data: vec![px; n] }
}

fn display(x: i32, y: i32, w: u32, h: u32, px: Rgba) -> DisplayCapture {
    DisplayCapture { origin: (x, y), size: (w, h), pixels: solid(w, h, px) }
}

const RED: Rgba = Rgba { r: 255, g: 0, b: 0, a: 255 };
const GREEN: Rgba = Rgba { r: 0, g: 255, b: 0, a: 255 };
const CLEAR: Rgba = Rgba { r: 0, g: 0, b: 0, a: 0 };

#[test]
fn single_display_identity() {
    let d = display(0, 0, 3, 2, RED);
    let source = d.pixels.data.clone();
    let merged = virtual_canvas::merge_images(&vec![d]).unwrap();
    assert_eq!(merged.xy, (0, 0));
    assert_eq!(merged.wh, (3, 2));
    assert_eq!(merged.image.width, 3);
    assert_eq!(merged.image.height, 2);
    assert_eq!(merged.image.data, source);
}

#[test]
fn two_displays_tight_bounding_box() {
    let a = display(0, 0, 800, 600, RED);
    let b = display(800, 0, 1024, 768, GREEN);
    let merged = virtual_canvas::merge_images(&vec![a, b]).unwrap();
    assert_eq!(merged.xy, (0, 0));
    assert_eq!(merged.wh, (1824, 768));
    for y in 0..768usize {
        for x in 0..1824usize {
            let px = merged.image.data[y * 1824 + x];
            if x < 800 && y < 600 {
                assert_eq!(px, RED);
            } else if x >= 800 {
                assert_eq!(px, GREEN);
            } else {
                assert_eq!(px, CLEAR);
            }
        }
    }
}

#[test]
fn empty_display_set_is_rejected() {
    let displays: Vec<DisplayCapture> = Vec::new();
    match virtual_canvas::merge_images(&displays) {
        Err(e) => assert_eq!(e, CaptureError::EmptyDisplaySet),
        Ok(_) => panic!("merge of no displays must fail"),
    }
    match virtual_canvas::get_whole_size(&Vec::new()) {
        Err(e) => assert_eq!(e, CaptureError::EmptyDisplaySet),
        Ok(_) => panic!("bounds of no displays must fail"),
    }
    match virtual_canvas::take_screen_shot(Vec::new()) {
        Err(e) => assert_eq!(e, CaptureError::EmptyDisplaySet),
        Ok(_) => panic!("screen shot of no displays must fail"),
    }
}

#[test]
fn whole_size_spans_negative_origins() {
    let a = display(-100, -50, 30, 40, RED);
    let b = display(20, 10, 60, 25, GREEN);
    let vs = virtual_canvas::get_whole_size(&vec![a, b]).unwrap();
    assert_eq!(vs.xy, (-100, -50));
    assert_eq!(vs.wh, (180, 85));
}

#[test]
fn composition_is_order_independent() {
    let a = display(0, 0, 4, 3, RED);
    let b = display(10, 5, 2, 2, GREEN);
    let forward = virtual_canvas::merge_images(&vec![
        display(0, 0, 4, 3, RED),
        display(10, 5, 2, 2, GREEN),
    ])
    .unwrap();
    let backward = virtual_canvas::merge_images(&vec![b, a]).unwrap();
    assert_eq!(forward.xy, backward.xy);
    assert_eq!(forward.wh, backward.wh);
    assert_eq!(forward.image.data, backward.image.data);
}

#[test]
fn overlapping_displays_last_wins() {
    let a = display(0, 0, 2, 2, RED);
    let b = display(0, 0, 2, 2, GREEN);
    let merged = virtual_canvas::merge_images(&vec![a, b]).unwrap();
    assert_eq!(merged.wh, (2, 2));
    for px in merged.image.data.iter() {
        assert_eq!(*px, GREEN);
    }
}
