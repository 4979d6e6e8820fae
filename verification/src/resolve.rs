//! Combining the target window's geometry, an optional requested rectangle
//! and the monitor layout into the final capture rectangle.

use crate::error::CaptureError;
use crate::geometry::lemma_intersection_within;
use crate::geometry::Point;
use crate::geometry::Rect;
use vstd::prelude::*;

verus! {

/// What resolving a requested capture rectangle against the window yields:
/// the whole window when nothing was requested, else the overlap of request
/// and window translated into window-relative coordinates, or invalid
/// geometry when they do not overlap.
pub open spec fn spec_resolve_selection(window_rect: Rect, requested: Option<Rect>) -> Result<
    Rect,
    CaptureError,
> {
    match requested {
        None => Ok(Rect { x: 0, y: 0, w: window_rect.w, h: window_rect.h }),
        Some(g) => match g.spec_intersection(window_rect) {
            Some(s) => Ok(
                Rect {
                    x: (s.x - window_rect.x) as i32,
                    y: (s.y - window_rect.y) as i32,
                    w: s.w,
                    h: s.h,
                },
            ),
            None => Err(CaptureError::InvalidGeometry),
        },
    }
}

/// Clip the requested rectangle to the window and make it window-relative;
/// absent a request, capture the whole window.
pub fn resolve_selection(window_rect: Rect, requested: Option<Rect>) -> (r: Result<
    Rect,
    CaptureError,
>)
    requires
        window_rect.wf(),
        requested matches Some(g) ==> g.wf(),
    ensures
        r == spec_resolve_selection(window_rect, requested),
{
    match requested {
        None => Ok(Rect { x: 0, y: 0, w: window_rect.w, h: window_rect.h }),
        Some(g) => match g.intersection(window_rect) {
            Some(s) => {
                proof {
                    lemma_intersection_within(g, window_rect);
                }
                Ok(Rect { x: s.x - window_rect.x, y: s.y - window_rect.y, w: s.w, h: s.h })
            },
            None => Err(CaptureError::InvalidGeometry),
        },
    }
}

/// The first monitor rectangle containing the point, scanning in order.
pub open spec fn spec_first_monitor(monitors: Seq<Rect>, cursor: Point) -> Option<Rect>
    decreases monitors.len(),
{
    if monitors.len() == 0 {
        None
    } else if monitors[0].spec_contains(cursor) {
        Some(monitors[0])
    } else {
        spec_first_monitor(monitors.drop_first(), cursor)
    }
}

/// A first containing monitor exists exactly when some monitor contains the
/// cursor, and it is itself one of the containing monitors.
pub proof fn lemma_first_monitor_exists(monitors: Seq<Rect>, cursor: Point)
    ensures
        spec_first_monitor(monitors, cursor) is Some <==> exists|i: int|
            0 <= i < monitors.len() && (#[trigger] monitors[i]).spec_contains(cursor),
        spec_first_monitor(monitors, cursor) matches Some(m) ==> exists|i: int|
            0 <= i < monitors.len() && (#[trigger] monitors[i]) == m && m.spec_contains(cursor),
    decreases monitors.len(),
{
    if monitors.len() > 0 {
        if monitors[0].spec_contains(cursor) {
        } else {
            let rest = monitors.drop_first();
            lemma_first_monitor_exists(rest, cursor);
            if spec_first_monitor(monitors, cursor) is Some {
                let i = choose|i: int|
                    0 <= i < rest.len() && (#[trigger] rest[i]).spec_contains(cursor);
                assert(monitors[i + 1].spec_contains(cursor));
                match spec_first_monitor(rest, cursor) {
                    Some(m) => {
                        let j = choose|j: int|
                            0 <= j < rest.len() && (#[trigger] rest[j]) == m && m.spec_contains(
                                cursor,
                            );
                        assert(monitors[j + 1] == m);
                    },
                    None => {},
                }
            }
            if exists|i: int|
                0 <= i < monitors.len() && (#[trigger] monitors[i]).spec_contains(cursor) {
                let i = choose|i: int|
                    0 <= i < monitors.len() && (#[trigger] monitors[i]).spec_contains(cursor);
                assert(i >= 1);
                assert(rest[i - 1].spec_contains(cursor));
            }
        }
    }
}

/// Find the monitor under the cursor: the first rectangle in the list that
/// contains the point, if any does.
pub fn find_monitor_with_cursor(monitors: &Vec<Rect>, cursor: Point) -> (r: Option<Rect>)
    requires
        forall|i: int| 0 <= i < monitors@.len() ==> (#[trigger] monitors@[i]).wf(),
    ensures
        r == spec_first_monitor(monitors@, cursor),
{
    let n = monitors.len();
    proof {
        assert(monitors@.skip(0) =~= monitors@);
    }
    let mut i: usize = 0;
    while i < n
        invariant
            i <= n,
            n == monitors@.len(),
            forall|k: int| 0 <= k < monitors@.len() ==> (#[trigger] monitors@[k]).wf(),
            spec_first_monitor(monitors@, cursor) == spec_first_monitor(
                monitors@.skip(i as int),
                cursor,
            ),
        decreases n - i,
    {
        let m = monitors[i];
        if m.contains(cursor) {
            proof {
                assert(monitors@.skip(i as int)[0] == monitors@[i as int]);
            }
            return Some(m);
        }
        proof {
            assert(monitors@.skip(i as int)[0] == monitors@[i as int]);
            assert(monitors@.skip(i as int).drop_first() =~= monitors@.skip(i + 1int));
        }
        i = i + 1;
    }
    proof {
        assert(monitors@.skip(n as int) =~= Seq::<Rect>::empty());
    }
    None
}

/// Resolve the final capture rectangle. In single-monitor mode (a cursor is
/// supplied) the monitor under the cursor is captured whole; otherwise the
/// requested rectangle, or the whole window, decides. An explicit request
/// and single-monitor mode exclude each other; that combination is rejected
/// before this runs.
pub fn resolve_capture_rect(
    window_rect: Rect,
    requested: Option<Rect>,
    monitors: &Vec<Rect>,
    cursor: Option<Point>,
) -> (r: Result<Rect, CaptureError>)
    requires
        window_rect.wf(),
        requested matches Some(g) ==> g.wf(),
        forall|i: int| 0 <= i < monitors@.len() ==> (#[trigger] monitors@[i]).wf(),
        !(requested is Some && cursor is Some),
    ensures
        match cursor {
            Some(c) => match spec_first_monitor(monitors@, c) {
                Some(m) => r == Ok::<Rect, CaptureError>(m),
                None => r == Err::<Rect, CaptureError>(CaptureError::NoMatchingMonitor),
            },
            None => r == spec_resolve_selection(window_rect, requested),
        },
{
    match cursor {
        Some(c) => match find_monitor_with_cursor(monitors, c) {
            Some(m) => Ok(m),
            None => Err(CaptureError::NoMatchingMonitor),
        },
        None => resolve_selection(window_rect, requested),
    }
}

} // verus!
