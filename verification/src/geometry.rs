//! Axis-aligned rectangles and points in the shared (virtual-screen) integer
//! coordinate space, with intersection and half-open point containment.

use vstd::math::max;
use vstd::math::min;
use vstd::prelude::*;

verus! {

/// An axis-aligned rectangle: `x`,`y` is the top-left corner, `w`,`h` are the
/// extents to the right and downwards.
#[derive(Copy, Clone, Debug, PartialEq, Eq, Structural)]
pub struct Rect {
    pub x: i32,
    pub y: i32,
    pub w: i32,
    pub h: i32,
}

/// A point in the same coordinate space as [`Rect`].
#[derive(Copy, Clone, Debug, PartialEq, Eq, Structural)]
pub struct Point {
    pub x: i32,
    pub y: i32,
}

impl Rect {
    /// A well-formed rectangle has non-negative extents and far edges that
    /// still fit in `i32`.
    pub open spec fn wf(self) -> bool {
        &&& 0 <= self.w
        &&& 0 <= self.h
        &&& self.x + self.w <= i32::MAX
        &&& self.y + self.h <= i32::MAX
    }

    pub open spec fn left(self) -> int {
        self.x as int
    }

    pub open spec fn top(self) -> int {
        self.y as int
    }

    pub open spec fn right(self) -> int {
        self.x + self.w
    }

    pub open spec fn bottom(self) -> int {
        self.y + self.h
    }

    /// The overlap of two rectangles. A shared edge or corner alone does not
    /// count: only an overlap of positive width and height yields a rectangle.
    pub open spec fn spec_intersection(self, other: Rect) -> Option<Rect> {
        let ix = max(self.left(), other.left());
        let iy = max(self.top(), other.top());
        let iw = min(self.right(), other.right()) - ix;
        let ih = min(self.bottom(), other.bottom()) - iy;
        if iw > 0 && ih > 0 {
            Some(Rect { x: ix as i32, y: iy as i32, w: iw as i32, h: ih as i32 })
        } else {
            None
        }
    }

    /// Whether the point `(px, py)` lies inside the rectangle; the right and
    /// bottom edges are excluded (half-open on both axes).
    pub open spec fn spec_contains_coords(self, px: int, py: int) -> bool {
        &&& self.left() <= px < self.right()
        &&& self.top() <= py < self.bottom()
    }

    pub open spec fn spec_contains(self, pos: Point) -> bool {
        self.spec_contains_coords(pos.x as int, pos.y as int)
    }

    pub fn intersection(&self, other: Rect) -> (r: Option<Rect>)
        requires
            self.wf(),
            other.wf(),
        ensures
            r == self.spec_intersection(other),
    {
        let ix = if self.x > other.x {
            self.x
        } else {
            other.x
        };
        let iy = if self.y > other.y {
            self.y
        } else {
            other.y
        };
        let self_right = self.x + self.w;
        let other_right = other.x + other.w;
        let self_bottom = self.y + self.h;
        let other_bottom = other.y + other.h;
        let right_min = if self_right < other_right {
            self_right
        } else {
            other_right
        };
        let bottom_min = if self_bottom < other_bottom {
            self_bottom
        } else {
            other_bottom
        };
        if right_min > ix && bottom_min > iy {
            Some(Rect { x: ix, y: iy, w: right_min - ix, h: bottom_min - iy })
        } else {
            None
        }
    }

    pub fn contains(&self, pos: Point) -> (r: bool)
        requires
            self.wf(),
        ensures
            r == self.spec_contains(pos),
    {
        pos.x >= self.x && pos.x < self.x + self.w && pos.y >= self.y && pos.y < self.y + self.h
    }
}

/// Intersection is commutative.
pub proof fn lemma_intersection_commutative(a: Rect, b: Rect)
    ensures
        a.spec_intersection(b) == b.spec_intersection(a),
{
}

/// Rectangles that merely touch along an edge or at a corner (the overlap
/// would have zero width or zero height) do not intersect.
pub proof fn lemma_touching_rects_do_not_intersect(a: Rect, b: Rect)
    requires
        max(a.left(), b.left()) == min(a.right(), b.right()) || max(a.top(), b.top()) == min(
            a.bottom(),
            b.bottom(),
        ),
    ensures
        a.spec_intersection(b) is None,
{
}

/// Containment is half-open: a point on the right or bottom edge of a
/// rectangle lies outside it.
pub proof fn lemma_contains_excludes_far_edges(r: Rect, p: Point)
    requires
        p.x == r.right() || p.y == r.bottom(),
    ensures
        !r.spec_contains(p),
{
}

/// A point lies in both rectangles exactly when their intersection exists and
/// contains it.
pub proof fn lemma_intersection_contains_point(a: Rect, b: Rect, px: int, py: int)
    ensures
        (a.spec_contains_coords(px, py) && b.spec_contains_coords(px, py)) <==> (
        a.spec_intersection(b) matches Some(v) && v.spec_contains_coords(px, py)),
{
}

/// The intersection of two well-formed rectangles is well-formed, has
/// positive extents, and lies within both arguments.
pub proof fn lemma_intersection_within(a: Rect, b: Rect)
    requires
        a.wf(),
        b.wf(),
    ensures
        a.spec_intersection(b) matches Some(v) ==> {
            &&& v.wf()
            &&& 0 < v.w
            &&& 0 < v.h
            &&& a.left() <= v.left()
            &&& v.right() <= a.right()
            &&& a.top() <= v.top()
            &&& v.bottom() <= a.bottom()
            &&& b.left() <= v.left()
            &&& v.right() <= b.right()
            &&& b.top() <= v.top()
            &&& v.bottom() <= b.bottom()
        },
{
}

} // verus!
