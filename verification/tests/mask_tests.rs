use shotgun::decode::RgbaBuffer;
use shotgun::geometry::Rect;
use shotgun::mask::mask;

fn buffer_with_pixels(width: u32, height: u32) -> RgbaBuffer {
    let mut data = Vec::new();
    for i in 0..(width * height * 4) {
        data.push((i % 251) as u8 + 1);
    }
    RgbaBuffer { width, height, data }
}

#[test]
fn test_mask_single_monitor_is_identity() {
    let captured = buffer_with_pixels(4, 2);
    let original = captured.clone();
    let sel = Rect { x: 0, y: 0, w: 4, h: 2 };
    let monitors = vec![Rect { x: 0, y: 0, w: 4, h: 2 }];
    let masked = mask(captured, sel, &monitors);
    assert_eq!(masked, original);
}

#[test]
fn test_mask_no_monitors_is_identity() {
    let captured = buffer_with_pixels(4, 2);
    let original = captured.clone();
    let sel = Rect { x: 0, y: 0, w: 4, h: 2 };
    let monitors: Vec<Rect> = Vec::new();
    let masked = mask(captured, sel, &monitors);
    assert_eq!(masked, original);
}

#[test]
fn test_mask_off_screen_monitor_dropped() {
    // Two monitors, but one does not touch the captured area: still identity.
    let captured = buffer_with_pixels(4, 2);
    let original = captured.clone();
    let sel = Rect { x: 0, y: 0, w: 4, h: 2 };
    let monitors = vec![
        Rect { x: 0, y: 0, w: 4, h: 2 },
        Rect { x: 100, y: 100, w: 4, h: 2 },
    ];
    let masked = mask(captured, sel, &monitors);
    assert_eq!(masked, original);
}

#[test]
fn test_mask_blanks_gap_between_monitors() {
    // A 4x1 capture spanning two 1-wide monitors with a 2-wide gap.
    let captured = buffer_with_pixels(4, 1);
    let original = captured.clone();
    let sel = Rect { x: 0, y: 0, w: 4, h: 1 };
    let monitors = vec![
        Rect { x: 0, y: 0, w: 1, h: 1 },
        Rect { x: 3, y: 0, w: 1, h: 1 },
    ];
    let masked = mask(captured, sel, &monitors);
    assert_eq!(masked.width, 4);
    assert_eq!(masked.height, 1);
    assert_eq!(masked.get_pixel(0, 0), original.get_pixel(0, 0));
    assert_eq!(masked.get_pixel(1, 0), (0, 0, 0, 0));
    assert_eq!(masked.get_pixel(2, 0), (0, 0, 0, 0));
    assert_eq!(masked.get_pixel(3, 0), original.get_pixel(3, 0));
}

#[test]
fn test_mask_translated_capture_area() {
    // The captured area does not start at the origin; monitors are absolute.
    let captured = buffer_with_pixels(3, 3);
    let original = captured.clone();
    let sel = Rect { x: 10, y: 20, w: 3, h: 3 };
    let monitors = vec![
        Rect { x: 10, y: 20, w: 1, h: 3 },
        Rect { x: 12, y: 20, w: 1, h: 3 },
    ];
    let masked = mask(captured, sel, &monitors);
    for y in 0..3 {
        assert_eq!(masked.get_pixel(0, y), original.get_pixel(0, y));
        assert_eq!(masked.get_pixel(1, y), (0, 0, 0, 0));
        assert_eq!(masked.get_pixel(2, y), original.get_pixel(2, y));
    }
}

#[test]
fn test_mask_monitors_clipped_to_capture() {
    // Monitors larger than the captured area are clipped, not rejected.
    let captured = buffer_with_pixels(2, 2);
    let original = captured.clone();
    let sel = Rect { x: 0, y: 0, w: 2, h: 2 };
    let monitors = vec![
        Rect { x: -5, y: -5, w: 6, h: 12 },
        Rect { x: 1, y: 1, w: 10, h: 10 },
    ];
    let masked = mask(captured, sel, &monitors);
    assert_eq!(masked.get_pixel(0, 0), original.get_pixel(0, 0));
    assert_eq!(masked.get_pixel(0, 1), original.get_pixel(0, 1));
    assert_eq!(masked.get_pixel(1, 1), original.get_pixel(1, 1));
    assert_eq!(masked.get_pixel(1, 0), (0, 0, 0, 0));
}
