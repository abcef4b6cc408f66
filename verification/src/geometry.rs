//! Axis-aligned integer rectangles and the overlap, intersection and union
//! operations that the damage tracker is built on.

use vstd::prelude::*;

verus! {

use vstd::math::{max, min};

/// Every coordinate handled by the renderer stays within this bound, so that
/// sums of two coordinates (a rectangle edge plus an offset, or the edges
/// compared by an intersection) always fit in an `i32`.
pub const MAX_COORD: i32 = 0x2000_0000;

/// An axis-aligned rectangle on the integer pixel plane.
///
/// `width` and `height` may be zero or negative; such a rectangle is empty
/// and covers no pixel.
#[derive(Clone, Copy, Debug, PartialEq, Eq, Structural)]
pub struct Rect {
    pub x: i32,
    pub y: i32,
    pub width: i32,
    pub height: i32,
}

impl Rect {
    /// Right edge (exclusive), as a mathematical integer.
    pub open spec fn right(self) -> int {
        self.x + self.width
    }

    /// Bottom edge (exclusive), as a mathematical integer.
    pub open spec fn bottom(self) -> int {
        self.y + self.height
    }

    /// An empty rectangle covers no pixel.
    pub open spec fn is_empty(self) -> bool {
        self.width <= 0 || self.height <= 0
    }

    /// The pixel whose top-left corner is `(px, py)` lies inside `self`.
    pub open spec fn contains(self, px: int, py: int) -> bool {
        self.x <= px < self.right() && self.y <= py < self.bottom()
    }

    /// All four edges stay within `MAX_COORD`, so edge arithmetic cannot
    /// overflow an `i32`.
    pub open spec fn wf(self) -> bool {
        &&& -MAX_COORD <= self.x <= MAX_COORD
        &&& -MAX_COORD <= self.right() <= MAX_COORD
        &&& -MAX_COORD <= self.y <= MAX_COORD
        &&& -MAX_COORD <= self.bottom() <= MAX_COORD
    }

    /// `self` covers no pixel outside `o`: it is empty, or all four of its
    /// edges lie within `o`'s.
    pub open spec fn contained_in(self, o: Rect) -> bool {
        self.is_empty() || (o.x <= self.x && self.right() <= o.right() && o.y <= self.y
            && self.bottom() <= o.bottom())
    }

    /// The overlap test used by the damage tracker. An empty rectangle
    /// overlaps nothing. Two nonempty rectangles overlap when the closed
    /// rectangles intersect *or touch* along an edge or corner: merging on
    /// touch is what lets adjacent dirty grid cells coalesce into one dirty
    /// rectangle.
    pub open spec fn spec_has_overlap(self, rhs: Rect) -> bool {
        &&& !self.is_empty()
        &&& !rhs.is_empty()
        &&& rhs.right() >= self.x
        &&& rhs.x <= self.right()
        &&& rhs.bottom() >= self.y
        &&& rhs.y <= self.bottom()
    }

    /// The intersection: the largest rectangle covered by both inputs.
    /// Disjoint inputs give an empty result (clamped to zero size).
    pub open spec fn spec_intersection(self, rhs: Rect) -> Rect {
        let x1 = max(self.x as int, rhs.x as int);
        let y1 = max(self.y as int, rhs.y as int);
        let x2 = min(self.right(), rhs.right());
        let y2 = min(self.bottom(), rhs.bottom());
        Rect {
            x: x1 as i32,
            y: y1 as i32,
            width: max(0, x2 - x1) as i32,
            height: max(0, y2 - y1) as i32,
        }
    }

    /// The union: the smallest rectangle covering both inputs.
    pub open spec fn spec_union(self, rhs: Rect) -> Rect {
        let x1 = min(self.x as int, rhs.x as int);
        let y1 = min(self.y as int, rhs.y as int);
        let x2 = max(self.right(), rhs.right());
        let y2 = max(self.bottom(), rhs.bottom());
        Rect {
            x: x1 as i32,
            y: y1 as i32,
            width: (x2 - x1) as i32,
            height: (y2 - y1) as i32,
        }
    }

    /// The all-zero rectangle.
    pub fn default() -> (r: Rect)
        ensures
            r == (Rect { x: 0, y: 0, width: 0, height: 0 }),
    {
        Rect { x: 0, y: 0, width: 0, height: 0 }
    }

    /// Whether `self` and `rhs` overlap: both nonempty, and intersecting or
    /// touching.
    pub fn has_overlap(self, rhs: Rect) -> (b: bool)
        requires
            self.wf(),
            rhs.wf(),
        ensures
            b == self.spec_has_overlap(rhs),
    {
        self.width > 0 && self.height > 0 && rhs.width > 0 && rhs.height > 0 && rhs.x + rhs.width
            >= self.x && rhs.x <= self.x + self.width && rhs.y + rhs.height >= self.y && rhs.y
            <= self.y + self.height
    }

    /// The intersection of `self` and `rhs`.
    pub fn intersection(self, rhs: Rect) -> (r: Rect)
        requires
            self.wf(),
            rhs.wf(),
        ensures
            r == self.spec_intersection(rhs),
            r.wf(),
            r.width >= 0,
            r.height >= 0,
    {
        let x1 = if self.x >= rhs.x {
            self.x
        } else {
            rhs.x
        };
        let y1 = if self.y >= rhs.y {
            self.y
        } else {
            rhs.y
        };
        let sx2 = self.x + self.width;
        let rx2 = rhs.x + rhs.width;
        let x2 = if sx2 <= rx2 {
            sx2
        } else {
            rx2
        };
        let sy2 = self.y + self.height;
        let ry2 = rhs.y + rhs.height;
        let y2 = if sy2 <= ry2 {
            sy2
        } else {
            ry2
        };
        Rect {
            x: x1,
            y: y1,
            width: if x2 - x1 >= 0 {
                x2 - x1
            } else {
                0
            },
            height: if y2 - y1 >= 0 {
                y2 - y1
            } else {
                0
            },
        }
    }

    /// The union of `self` and `rhs`.
    pub fn union(self, rhs: Rect) -> (r: Rect)
        requires
            self.wf(),
            rhs.wf(),
        ensures
            r == self.spec_union(rhs),
            r.wf(),
    {
        let x1 = if self.x <= rhs.x {
            self.x
        } else {
            rhs.x
        };
        let y1 = if self.y <= rhs.y {
            self.y
        } else {
            rhs.y
        };
        let sx2 = self.x + self.width;
        let rx2 = rhs.x + rhs.width;
        let x2 = if sx2 >= rx2 {
            sx2
        } else {
            rx2
        };
        let sy2 = self.y + self.height;
        let ry2 = rhs.y + rhs.height;
        let y2 = if sy2 >= ry2 {
            sy2
        } else {
            ry2
        };
        Rect { x: x1, y: y1, width: x2 - x1, height: y2 - y1 }
    }
}

/// A point covered by the intersection is covered by both inputs, and
/// conversely.
pub proof fn lemma_intersection_contains(a: Rect, b: Rect, px: int, py: int)
    ensures
        a.spec_intersection(b).contains(px, py) <==> a.contains(px, py) && b.contains(px, py),
{
}

/// The union covers every point that either input covers.
pub proof fn lemma_union_covers(a: Rect, b: Rect, px: int, py: int)
    requires
        a.wf(),
        b.wf(),
    ensures
        a.contains(px, py) || b.contains(px, py) ==> a.spec_union(b).contains(px, py),
{
}

/// Rectangles that truly share a pixel also pass the closed overlap test.
pub proof fn lemma_shared_point_overlaps(a: Rect, b: Rect, px: int, py: int)
    requires
        a.contains(px, py),
        b.contains(px, py),
    ensures
        a.spec_has_overlap(b),
{
}

} // verus!
