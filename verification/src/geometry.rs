//! Axis-aligned rectangles on the integer pixel grid, and the overlap and
//! displacement arithmetic on them.

use vstd::prelude::*;

verus! {

/// A point or a displacement on the pixel grid.
#[derive(Clone, Copy, Debug, PartialEq, Eq, Structural)]
pub struct Vec2i(pub i32, pub i32);

/// An axis-aligned rectangle: the origin is its top-left corner, the extents
/// are unsigned. It covers the pixels `x <= px < x + w`, `y <= py < y + h`.
#[derive(Clone, Copy, Debug, PartialEq, Eq, Structural)]
pub struct Rect {
    pub x: i32,
    pub y: i32,
    pub w: u16,
    pub h: u16,
}

impl Rect {
    /// The first column to the right of the rectangle.
    pub open spec fn right(self) -> int {
        self.x + self.w
    }

    /// The first row below the rectangle.
    pub open spec fn bottom(self) -> int {
        self.y + self.h
    }

    /// Both far edges are representable as `i32`.
    pub open spec fn well_formed(self) -> bool {
        self.right() <= i32::MAX && self.bottom() <= i32::MAX
    }

    /// Whether the pixel `(px, py)` lies inside the rectangle.
    pub open spec fn covers(self, px: int, py: int) -> bool {
        self.x <= px < self.right() && self.y <= py < self.bottom()
    }

    /// Penetration depth along the x axis; positive when the x ranges overlap.
    pub open spec fn x_overlap(self, other: Rect) -> int {
        vstd::math::min(self.right(), other.right()) - vstd::math::max(
            self.x as int,
            other.x as int,
        )
    }

    /// Penetration depth along the y axis; positive when the y ranges overlap.
    pub open spec fn y_overlap(self, other: Rect) -> int {
        vstd::math::min(self.bottom(), other.bottom()) - vstd::math::max(
            self.y as int,
            other.y as int,
        )
    }

    /// Two rectangles overlap when neither axis separates them.
    pub open spec fn overlaps(self, other: Rect) -> bool {
        !axis_separates(self.x as int, self.right(), other.x as int, other.right())
            && !axis_separates(self.y as int, self.bottom(), other.y as int, other.bottom())
    }

    /// The same rectangle with its origin at `(x, y)`.
    pub open spec fn at(self, x: i32, y: i32) -> Rect {
        Rect { x, y, w: self.w, h: self.h }
    }

    /// Whether the rectangle can be shifted by `(dx, dy)` without leaving
    /// the `i32` grid.
    pub open spec fn can_shift(self, dx: int, dy: int) -> bool {
        i32::MIN <= self.x + dx <= i32::MAX && i32::MIN <= self.y + dy <= i32::MAX
    }
}

/// The intervals `[a1, a2)` and `[b1, b2)` are separated on their axis.
pub open spec fn axis_separates(a1: int, a2: int, b1: int, b2: int) -> bool {
    a2 <= b1 || b2 <= a1
}

/// The minimum translation vector of two rectangles: nothing unless they
/// penetrate on both axes, else the penetration along the shallower axis,
/// with x chosen on a tie.
pub open spec fn displacement(r1: Rect, r2: Rect) -> Option<(i32, i32)> {
    let dx = r1.x_overlap(r2);
    let dy = r1.y_overlap(r2);
    if dx > 0 && dy > 0 {
        if dx > dy {
            Some((0i32, dy as i32))
        } else {
            Some((dx as i32, 0i32))
        }
    } else {
        None
    }
}

/// Whether `p` lies in the interval `[lo, hi)`.
pub open spec fn in_interval(p: int, lo: int, hi: int) -> bool {
    lo <= p < hi
}

impl Rect {
    /// Computes [`Rect::well_formed`].
    pub fn is_well_formed(&self) -> (fits: bool)
        ensures
            fits == self.well_formed(),
    {
        self.x as i64 + self.w as i64 <= i32::MAX as i64 && self.y as i64 + self.h as i64
            <= i32::MAX as i64
    }
}

/// Tells whether two intervals on one axis are separated.
pub fn separating_axis(ax1: i32, ax2: i32, bx1: i32, bx2: i32) -> (separated: bool)
    requires
        ax1 <= ax2,
        bx1 <= bx2,
    ensures
        separated == axis_separates(ax1 as int, ax2 as int, bx1 as int, bx2 as int),
{
    ax2 <= bx1 || bx2 <= ax1
}

/// The minimum translation vector that separates two rectangles, or nothing
/// where they do not penetrate on both axes.
pub fn rect_displacement(r1: Rect, r2: Rect) -> (mtv: Option<(i32, i32)>)
    requires
        r1.well_formed(),
        r2.well_formed(),
    ensures
        mtv == displacement(r1, r2),
{
    let right1: i64 = r1.x as i64 + r1.w as i64;
    let right2: i64 = r2.x as i64 + r2.w as i64;
    let bottom1: i64 = r1.y as i64 + r1.h as i64;
    let bottom2: i64 = r2.y as i64 + r2.h as i64;
    let left: i64 = if r1.x >= r2.x { r1.x as i64 } else { r2.x as i64 };
    let top: i64 = if r1.y >= r2.y { r1.y as i64 } else { r2.y as i64 };
    let x_overlap: i64 = (if right1 <= right2 { right1 } else { right2 }) - left;
    let y_overlap: i64 = (if bottom1 <= bottom2 { bottom1 } else { bottom2 }) - top;
    if x_overlap > 0 && y_overlap > 0 {
        if x_overlap > y_overlap {
            Some((0, y_overlap as i32))
        } else {
            Some((x_overlap as i32, 0))
        }
    } else {
        None
    }
}

/// Tells whether two rectangles overlap, by one separation test per axis.
pub fn rects_overlap(r1: Rect, r2: Rect) -> (hit: bool)
    requires
        r1.well_formed(),
        r2.well_formed(),
    ensures
        hit == r1.overlaps(r2),
{
    !separating_axis(r1.x, r1.x + r1.w as i32, r2.x, r2.x + r2.w as i32) && !separating_axis(
        r1.y,
        r1.y + r1.h as i32,
        r2.y,
        r2.y + r2.h as i32,
    )
}

/// Two intervals are separated exactly when they share no point. An empty
/// interval strictly inside the other shares no point with it and yet is not
/// reported as separated, so those inputs are left out.
pub proof fn lemma_separation_is_disjointness(a1: int, a2: int, b1: int, b2: int)
    requires
        a1 <= a2,
        b1 <= b2,
        !(a1 == a2 && b1 < a1 < b2),
        !(b1 == b2 && a1 < b1 < a2),
    ensures
        axis_separates(a1, a2, b1, b2) <==> !exists|p: int|
            #[trigger] in_interval(p, a1, a2) && in_interval(p, b1, b2),
{
    if !axis_separates(a1, a2, b1, b2) {
        let p = vstd::math::max(a1, b1);
        assert(in_interval(p, a1, a2) && in_interval(p, b1, b2));
    }
}

/// Rectangles that no axis separates share a pixel, and the other way
/// round, where no overlapping rectangle has an empty extent.
pub proof fn lemma_overlap_is_shared_pixel(r1: Rect, r2: Rect)
    requires
        r1.overlaps(r2) ==> r1.w > 0 && r1.h > 0 && r2.w > 0 && r2.h > 0,
    ensures
        r1.overlaps(r2) <==> exists|px: int, py: int|
            #[trigger] r1.covers(px, py) && r2.covers(px, py),
{
    if r1.overlaps(r2) {
        let px = vstd::math::max(r1.x as int, r2.x as int);
        let py = vstd::math::max(r1.y as int, r2.y as int);
        assert(r1.covers(px, py) && r2.covers(px, py));
    }
}

/// The minimum translation vector exists exactly for rectangles that share
/// a pixel. It has exactly one non-zero component, which is positive and is
/// the penetration depth along the axis of the shallower penetration; on a
/// tie that axis is x.
pub proof fn lemma_displacement_axis(r1: Rect, r2: Rect)
    ensures
        displacement(r1, r2).is_some() <==> exists|px: int, py: int|
            #[trigger] r1.covers(px, py) && r2.covers(px, py),
        displacement(r1, r2).is_some() ==> r1.overlaps(r2),
        r1.overlaps(r2) && r1.w > 0 && r1.h > 0 && r2.w > 0 && r2.h > 0 ==> displacement(
            r1,
            r2,
        ).is_some(),
        displacement(r1, r2) matches Some((dx, dy)) ==> {
            ||| dx == r1.x_overlap(r2) && dy == 0 && 0 < r1.x_overlap(r2) <= r1.y_overlap(r2)
            ||| dx == 0 && dy == r1.y_overlap(r2) && 0 < r1.y_overlap(r2) < r1.x_overlap(r2)
        },
{
    if displacement(r1, r2).is_some() {
        let px = vstd::math::max(r1.x as int, r2.x as int);
        let py = vstd::math::max(r1.y as int, r2.y as int);
        assert(r1.covers(px, py) && r2.covers(px, py));
    }
}

} // verus!
