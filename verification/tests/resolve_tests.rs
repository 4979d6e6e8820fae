use shotgun::error::CaptureError;
use shotgun::geometry::Point;
use shotgun::geometry::Rect;
use shotgun::resolve::find_monitor_with_cursor;
use shotgun::resolve::resolve_capture_rect;
use shotgun::resolve::resolve_selection;

#[test]
fn test_resolve_whole_window_by_default() {
    let window = Rect { x: 2, y: 3, w: 100, h: 50 };
    assert_eq!(
        resolve_selection(window, None),
        Ok(Rect { x: 0, y: 0, w: 100, h: 50 })
    );
}

#[test]
fn test_resolve_translates_requested_rect() {
    let window = Rect { x: 2, y: 3, w: 100, h: 50 };
    let requested = Rect { x: 0, y: 0, w: 10, h: 10 };
    assert_eq!(
        resolve_selection(window, Some(requested)),
        Ok(Rect { x: 0, y: 0, w: 8, h: 7 })
    );
    let inside = Rect { x: 10, y: 10, w: 5, h: 5 };
    assert_eq!(
        resolve_selection(window, Some(inside)),
        Ok(Rect { x: 8, y: 7, w: 5, h: 5 })
    );
}

#[test]
fn test_resolve_rejects_disjoint_geometry() {
    let window = Rect { x: 0, y: 0, w: 100, h: 50 };
    let outside = Rect { x: 200, y: 200, w: 5, h: 5 };
    assert_eq!(
        resolve_selection(window, Some(outside)),
        Err(CaptureError::InvalidGeometry)
    );
}

#[test]
fn test_find_monitor_with_cursor_picks_first() {
    let monitors = vec![
        Rect { x: 10, y: 10, w: 5, h: 5 },
        Rect { x: 0, y: 0, w: 8, h: 8 },
        Rect { x: 0, y: 0, w: 20, h: 20 },
    ];
    assert_eq!(
        find_monitor_with_cursor(&monitors, Point { x: 5, y: 5 }),
        Some(Rect { x: 0, y: 0, w: 8, h: 8 })
    );
    assert_eq!(
        find_monitor_with_cursor(&monitors, Point { x: 12, y: 12 }),
        Some(Rect { x: 10, y: 10, w: 5, h: 5 })
    );
    assert_eq!(find_monitor_with_cursor(&monitors, Point { x: 50, y: 5 }), None);
}

#[test]
fn test_resolve_capture_rect_single_monitor_mode() {
    let window = Rect { x: 0, y: 0, w: 200, h: 100 };
    let monitors = vec![
        Rect { x: 0, y: 0, w: 100, h: 100 },
        Rect { x: 100, y: 0, w: 100, h: 100 },
    ];
    assert_eq!(
        resolve_capture_rect(window, None, &monitors, Some(Point { x: 150, y: 50 })),
        Ok(Rect { x: 100, y: 0, w: 100, h: 100 })
    );
    assert_eq!(
        resolve_capture_rect(window, None, &monitors, Some(Point { x: 250, y: 50 })),
        Err(CaptureError::NoMatchingMonitor)
    );
    assert_eq!(
        resolve_capture_rect(window, None, &monitors, None),
        Ok(Rect { x: 0, y: 0, w: 200, h: 100 })
    );
}

#[test]
fn test_error_messages() {
    assert_eq!(CaptureError::DisplayOpen.message(), "Failed to open display");
    assert_eq!(CaptureError::InvalidGeometry.message(), "Invalid geometry");
    assert_eq!(
        CaptureError::FailedToCaptureFromX11.message(),
        "Failed to get image from X"
    );
    assert_eq!(
        CaptureError::UnableToConvertFramebuffer.message(),
        "Failed to convert captured framebuffer, only 24/32 bit (A)RGB8 is supported"
    );
    assert_eq!(
        CaptureError::FailedToEnumerateScreens.message(),
        "Failed to enumerate screens, not masking"
    );
    assert_eq!(
        CaptureError::NoMatchingMonitor.message(),
        "Failed to find screen containing cursor"
    );
}
