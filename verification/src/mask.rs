//! Blanking the parts of a root-window capture that lie outside every
//! physical monitor.
//!
//! A capture of the whole virtual screen may span areas no monitor shows
//! (gaps in an irregular layout). The compositor clips each monitor
//! rectangle to the captured area and, when two or more remain, repaints the
//! capture onto a transparent-black canvas, copying only the visible
//! sub-rectangles.

use crate::decode::lemma_buffer_len;
use crate::decode::lemma_rgba_index_bound;
use crate::decode::RgbaBuffer;
use crate::geometry::lemma_intersection_contains_point;
use crate::geometry::lemma_intersection_within;
use crate::geometry::Rect;
use vstd::prelude::*;

verus! {

/// Whether the absolute point `(ax, ay)` lies on one of the rectangles.
pub open spec fn covers(rects: Seq<Rect>, ax: int, ay: int) -> bool {
    exists|i: int| 0 <= i < rects.len() && rects[i].spec_contains_coords(ax, ay)
}

/// The monitor rectangles clipped to the captured area, in order; monitors
/// with no overlap drop out.
pub open spec fn visible_rects(monitors: Seq<Rect>, sel: Rect) -> Seq<Rect>
    decreases monitors.len(),
{
    if monitors.len() == 0 {
        Seq::empty()
    } else {
        let rest = visible_rects(monitors.drop_last(), sel);
        match monitors.last().spec_intersection(sel) {
            Some(v) => rest.push(v),
            None => rest,
        }
    }
}

/// A positive-extent rectangle lying entirely within `outer`.
pub open spec fn rect_within(v: Rect, outer: Rect) -> bool {
    &&& v.wf()
    &&& 0 < v.w
    &&& 0 < v.h
    &&& outer.left() <= v.left()
    &&& v.right() <= outer.right()
    &&& outer.top() <= v.top()
    &&& v.bottom() <= outer.bottom()
}

/// The channel a masked capture holds: the source where the point is
/// covered, transparent black elsewhere.
pub open spec fn masked_channel(captured: RgbaBuffer, covered: bool, x: int, y: int, c: int) -> u8 {
    if covered {
        captured.spec_channel(x, y, c)
    } else {
        0
    }
}

/// The part of rectangle `v` a row-major paint has reached: `rows` full
/// rows, then `cols` pixels of the next row.
pub open spec fn painted(v: Rect, rows: int, cols: int, ax: int, ay: int) -> bool {
    &&& v.spec_contains_coords(ax, ay)
    &&& (ay - v.y < rows || (ay - v.y == rows && ax - v.x < cols))
}

/// Pushing a rectangle extends coverage by exactly that rectangle.
proof fn lemma_covers_push(s: Seq<Rect>, v: Rect, ax: int, ay: int)
    ensures
        covers(s.push(v), ax, ay) <==> covers(s, ax, ay) || v.spec_contains_coords(ax, ay),
{
    if covers(s.push(v), ax, ay) {
        let i = choose|i: int|
            0 <= i < s.push(v).len() && s.push(v)[i].spec_contains_coords(ax, ay);
        if i < s.len() {
            assert(s[i].spec_contains_coords(ax, ay));
        } else {
            assert(s.push(v)[i] == v);
        }
    }
    if covers(s, ax, ay) {
        let i = choose|i: int| 0 <= i < s.len() && s[i].spec_contains_coords(ax, ay);
        assert(s.push(v)[i].spec_contains_coords(ax, ay));
    }
    if v.spec_contains_coords(ax, ay) {
        assert(s.push(v)[s.len() as int].spec_contains_coords(ax, ay));
    }
}

/// For points inside the captured area, the clipped rectangles cover
/// exactly what the monitors cover.
proof fn lemma_visible_covers(monitors: Seq<Rect>, sel: Rect, ax: int, ay: int)
    requires
        sel.wf(),
        forall|i: int| 0 <= i < monitors.len() ==> (#[trigger] monitors[i]).wf(),
        sel.spec_contains_coords(ax, ay),
    ensures
        covers(visible_rects(monitors, sel), ax, ay) <==> covers(monitors, ax, ay),
    decreases monitors.len(),
{
    if monitors.len() > 0 {
        let head = monitors.drop_last();
        let last = monitors.last();
        assert(forall|i: int| 0 <= i < head.len() ==> (#[trigger] head[i]).wf());
        lemma_visible_covers(head, sel, ax, ay);
        lemma_intersection_contains_point(last, sel, ax, ay);
        assert(monitors =~= head.push(last));
        lemma_covers_push(head, last, ax, ay);
        match last.spec_intersection(sel) {
            Some(v) => {
                lemma_covers_push(visible_rects(head, sel), v, ax, ay);
            },
            None => {},
        }
    }
}

/// Each channel index of a packed RGBA buffer belongs to one pixel and one
/// channel only.
proof fn lemma_rgba_index_injective(
    x1: int,
    y1: int,
    c1: int,
    x2: int,
    y2: int,
    c2: int,
    w: int,
    h: int,
)
    by (nonlinear_arith)
    requires
        0 <= x1 < w,
        0 <= y1 < h,
        0 <= c1 < 4,
        0 <= x2 < w,
        0 <= y2 < h,
        0 <= c2 < 4,
        4 * (y1 * w + x1) + c1 == 4 * (y2 * w + x2) + c2,
    ensures
        x1 == x2,
        y1 == y2,
        c1 == c2,
{
}

/// Blank the parts of `captured` (whose geometry is `sel`) that no monitor
/// shows. With at most one visible monitor the capture is returned
/// unchanged; otherwise every pixel on a monitor keeps its source value and
/// every other pixel becomes transparent black.
pub fn mask(captured: RgbaBuffer, sel: Rect, monitors: &Vec<Rect>) -> (r: RgbaBuffer)
    requires
        captured.wf(),
        sel.wf(),
        sel.w == captured.width,
        sel.h == captured.height,
        forall|i: int| 0 <= i < monitors@.len() ==> (#[trigger] monitors@[i]).wf(),
    ensures
        r.wf(),
        r.width == captured.width,
        r.height == captured.height,
        visible_rects(monitors@, sel).len() <= 1 ==> r == captured,
        visible_rects(monitors@, sel).len() >= 2 ==> forall|x: int, y: int, c: int|
            0 <= x < captured.width && 0 <= y < captured.height && 0 <= c < 4
                ==> #[trigger] r.spec_channel(x, y, c) == masked_channel(
                captured,
                covers(monitors@, sel.x + x, sel.y + y),
                x,
                y,
                c,
            ),
{
    let monitor_count = monitors.len();
    let mut visible: Vec<Rect> = Vec::new();
    let mut i: usize = 0;
    while i < monitor_count
        invariant
            i <= monitor_count,
            monitor_count == monitors@.len(),
            sel.wf(),
            forall|k: int| 0 <= k < monitors@.len() ==> (#[trigger] monitors@[k]).wf(),
            visible@ == visible_rects(monitors@.take(i as int), sel),
            forall|k: int| 0 <= k < visible@.len() ==> rect_within(#[trigger] visible@[k], sel),
        decreases monitor_count - i,
    {
        match monitors[i].intersection(sel) {
            Some(v) => {
                proof {
                    lemma_intersection_within(monitors@[i as int], sel);
                }
                visible.push(v);
            },
            None => {},
        }
        proof {
            let t1 = monitors@.take(i + 1int);
            assert(t1.drop_last() =~= monitors@.take(i as int));
            assert(t1.last() == monitors@[i as int]);
        }
        i = i + 1;
    }
    proof {
        assert(monitors@.take(monitor_count as int) =~= monitors@);
    }
    if visible.len() <= 1 {
        return captured;
    }
    let w = captured.width;
    let h = captured.height;
    let total = captured.data.len();
    let mut out_data: Vec<u8> = Vec::new();
    while out_data.len() < total
        invariant
            out_data@.len() <= total,
            forall|m: int| 0 <= m < out_data@.len() ==> out_data@[m] == 0u8,
        decreases total - out_data@.len(),
    {
        out_data.push(0);
    }
    proof {
        assert(visible@.take(0) =~= Seq::<Rect>::empty());
        assert forall|x: int, y: int, c: int|
            0 <= x < w && 0 <= y < h && 0 <= c < 4 implies #[trigger] out_data@[4 * (y * w + x)
            + c] == masked_channel(
            captured,
            covers(visible@.take(0), sel.x + x, sel.y + y),
            x,
            y,
            c,
        ) by {
            lemma_rgba_index_bound(x, y, w as int, h as int, c);
            lemma_buffer_len(w as int, h as int);
        }
    }
    let visible_count = visible.len();
    let mut k: usize = 0;
    while k < visible_count
        invariant
            k <= visible_count,
            visible_count == visible@.len(),
            captured.wf(),
            sel.wf(),
            w == captured.width,
            h == captured.height,
            sel.w == captured.width,
            sel.h == captured.height,
            total == captured.data@.len(),
            out_data@.len() == total,
            forall|j: int| 0 <= j < visible@.len() ==> rect_within(#[trigger] visible@[j], sel),
            forall|x: int, y: int, c: int|
                0 <= x < w && 0 <= y < h && 0 <= c < 4 ==> #[trigger] out_data@[4 * (y * w + x) + c]
                    == masked_channel(
                    captured,
                    covers(visible@.take(k as int), sel.x + x, sel.y + y),
                    x,
                    y,
                    c,
                ),
        decreases visible_count - k,
    {
        let v = visible[k];
        let rx0 = v.x - sel.x;
        let ry0 = v.y - sel.y;
        let mut dy: i32 = 0;
        while dy < v.h
            invariant
                0 <= dy <= v.h,
                v == visible@[k as int],
                0 <= k < visible@.len(),
                visible@.len() == visible_count,
                rect_within(v, sel),
                rx0 == v.x - sel.x,
                ry0 == v.y - sel.y,
                captured.wf(),
                sel.wf(),
                w == captured.width,
                h == captured.height,
                sel.w == captured.width,
                sel.h == captured.height,
                total == captured.data@.len(),
                out_data@.len() == total,
                forall|x: int, y: int, c: int|
                    0 <= x < w && 0 <= y < h && 0 <= c < 4 ==> #[trigger] out_data@[4 * (y * w + x) + c]
                        == masked_channel(
                        captured,
                        covers(visible@.take(k as int), sel.x + x, sel.y + y) || painted(
                            v,
                            dy as int,
                            0,
                            sel.x + x,
                            sel.y + y,
                        ),
                        x,
                        y,
                        c,
                    ),
            decreases v.h - dy,
        {
            let py = ry0 + dy;
            let mut dx: i32 = 0;
            while dx < v.w
                invariant
                    0 <= dx <= v.w,
                    0 <= dy < v.h,
                    py == ry0 + dy,
                    v == visible@[k as int],
                    0 <= k < visible@.len(),
                    visible@.len() == visible_count,
                    rect_within(v, sel),
                    rx0 == v.x - sel.x,
                    ry0 == v.y - sel.y,
                    captured.wf(),
                    sel.wf(),
                    w == captured.width,
                    h == captured.height,
                    sel.w == captured.width,
                    sel.h == captured.height,
                    total == captured.data@.len(),
                    out_data@.len() == total,
                    forall|x: int, y: int, c: int|
                        0 <= x < w && 0 <= y < h && 0 <= c < 4 ==> #[trigger] out_data@[4 * (y * w + x) + c]
                            == masked_channel(
                            captured,
                            covers(visible@.take(k as int), sel.x + x, sel.y + y) || painted(
                                v,
                                dy as int,
                                dx as int,
                                sel.x + x,
                                sel.y + y,
                            ),
                            x,
                            y,
                            c,
                        ),
                decreases v.w - dx,
            {
                let px = rx0 + dx;
                proof {
                    lemma_rgba_index_bound(px as int, py as int, w as int, h as int, 3);
                    lemma_buffer_len(w as int, h as int);
                }
                let idx: usize = 4 * ((py as usize) * (w as usize) + (px as usize));
                let ghost prev = out_data@;
                out_data.set(idx, captured.data[idx]);
                out_data.set(idx + 1, captured.data[idx + 1]);
                out_data.set(idx + 2, captured.data[idx + 2]);
                out_data.set(idx + 3, captured.data[idx + 3]);
                proof {
                    assert forall|x: int, y: int, c: int|
                        0 <= x < w && 0 <= y < h && 0 <= c < 4 implies #[trigger] out_data@[4 * (y * w + x)
                        + c] == masked_channel(
                        captured,
                        covers(visible@.take(k as int), sel.x + x, sel.y + y) || painted(
                            v,
                            dy as int,
                            dx + 1,
                            sel.x + x,
                            sel.y + y,
                        ),
                        x,
                        y,
                        c,
                    ) by {
                        lemma_rgba_index_bound(x, y, w as int, h as int, c);
                        if x == px as int && y == py as int {
                            assert(painted(v, dy as int, dx + 1, sel.x + x, sel.y + y));
                        } else {
                            let j = 4 * (y * w + x) + c;
                            let updated_base = 4 * ((py as int) * w + (px as int));
                            if updated_base <= j < updated_base + 4 {
                                lemma_rgba_index_injective(
                                    x,
                                    y,
                                    c,
                                    px as int,
                                    py as int,
                                    j - updated_base,
                                    w as int,
                                    h as int,
                                );
                            }
                            assert(out_data@[4 * (y * w + x) + c] == prev[4 * (y * w + x) + c]);
                            assert(painted(v, dy as int, dx + 1, sel.x + x, sel.y + y) == painted(
                                v,
                                dy as int,
                                dx as int,
                                sel.x + x,
                                sel.y + y,
                            ));
                        }
                    }
                }
                dx = dx + 1;
            }
            proof {
                assert forall|x: int, y: int|
                    0 <= x < w && 0 <= y < h implies (#[trigger] painted(
                    v,
                    dy as int,
                    v.w as int,
                    sel.x + x,
                    sel.y + y,
                ) == painted(v, dy + 1, 0, sel.x + x, sel.y + y)) by {}
            }
            dy = dy + 1;
        }
        proof {
            let ghost tk1 = visible@.take(k + 1int);
            assert(tk1.drop_last() =~= visible@.take(k as int));
            assert(tk1 =~= visible@.take(k as int).push(visible@[k as int]));
            assert forall|x: int, y: int|
                0 <= x < w && 0 <= y < h implies (covers(
                visible@.take(k as int),
                sel.x + x,
                sel.y + y,
            ) || painted(v, v.h as int, 0, sel.x + x, sel.y + y)) == #[trigger] covers(
                tk1,
                sel.x + x,
                sel.y + y,
            ) by {
                lemma_covers_push(visible@.take(k as int), visible@[k as int], sel.x + x, sel.y + y);
            }
        }
        k = k + 1;
    }
    proof {
        assert(visible@.take(visible_count as int) =~= visible@);
        assert forall|x: int, y: int|
            0 <= x < w && 0 <= y < h implies #[trigger] covers(visible@, sel.x + x, sel.y + y)
            == covers(monitors@, sel.x + x, sel.y + y) by {
            assert(sel.spec_contains_coords(sel.x + x, sel.y + y));
            lemma_visible_covers(monitors@, sel, sel.x + x, sel.y + y);
        }
    }
    RgbaBuffer { width: w, height: h, data: out_data }
}

} // verus!
