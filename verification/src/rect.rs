//! Axis-aligned rectangle arithmetic on unsigned pixel coordinates.
//!
//! A rectangle with `w == 0` or `h == 0` is a valid but degenerate value used
//! as a sentinel; the inclusive edge accessors `right` and `bottom` are only
//! meaningful for rectangles with real area, so callers guard degenerate
//! rectangles before asking for them.

use vstd::prelude::*;

verus! {

/// Defines a rectangle in pixels with the origin at the top-left of the texture atlas.
#[derive(Copy, Clone, Debug, PartialEq, Eq, Structural)]
pub struct Rect {
    /// Horizontal position the rectangle begins at.
    pub x: u32,
    /// Vertical position the rectangle begins at.
    pub y: u32,
    /// Width of the rectangle.
    pub w: u32,
    /// Height of the rectangle.
    pub h: u32,
}

impl Rect {
    /// Left edge as a mathematical integer.
    pub open spec fn spec_left(self) -> int {
        self.x as int
    }

    /// Inclusive right edge as a mathematical integer.
    pub open spec fn spec_right(self) -> int {
        self.x + self.w - 1
    }

    /// Top edge as a mathematical integer.
    pub open spec fn spec_top(self) -> int {
        self.y as int
    }

    /// Inclusive bottom edge as a mathematical integer.
    pub open spec fn spec_bottom(self) -> int {
        self.y + self.h - 1
    }

    /// Number of pixels covered.
    pub open spec fn spec_area(self) -> int {
        self.w * self.h
    }

    /// True if the rectangle covers no pixel at all.
    pub open spec fn is_degenerate(self) -> bool {
        self.w == 0 || self.h == 0
    }

    /// Intersection test with strict inequalities on the inclusive edges:
    /// rectangles that merely touch, or are only one pixel wide or tall,
    /// do not count as intersecting.
    pub open spec fn spec_intersects(self, other: Rect) -> bool {
        &&& self.spec_left() < other.spec_right()
        &&& self.spec_right() > other.spec_left()
        &&& self.spec_top() < other.spec_bottom()
        &&& self.spec_bottom() > other.spec_top()
    }

    /// Inclusive-bound containment of `other` in `self`.
    pub open spec fn spec_contains(self, other: Rect) -> bool {
        &&& self.spec_left() <= other.spec_left()
        &&& self.spec_right() >= other.spec_right()
        &&& self.spec_top() <= other.spec_top()
        &&& self.spec_bottom() >= other.spec_bottom()
    }

    /// Inclusive-bound containment of the point `(x, y)` in `self`.
    pub open spec fn spec_contains_point(self, x: int, y: int) -> bool {
        &&& self.spec_left() <= x <= self.spec_right()
        &&& self.spec_top() <= y <= self.spec_bottom()
    }

    /// True if `(x, y)` lies on one of the four inclusive edges.
    pub open spec fn spec_is_outline(self, x: int, y: int) -> bool {
        ||| x == self.spec_left()
        ||| x == self.spec_right()
        ||| y == self.spec_top()
        ||| y == self.spec_bottom()
    }

    /// The two rectangles share no pixel.  Degenerate rectangles are
    /// disjoint from everything.
    pub open spec fn spec_disjoint(self, other: Rect) -> bool {
        ||| self.is_degenerate()
        ||| other.is_degenerate()
        ||| self.x + self.w <= other.x
        ||| other.x + other.w <= self.x
        ||| self.y + self.h <= other.y
        ||| other.y + other.h <= self.y
    }

    /// Create a new [Rect] based on a position and its width and height.
    pub fn new(x: u32, y: u32, w: u32, h: u32) -> (r: Rect)
        ensures
            r == (Rect { x, y, w, h }),
    {
        Rect { x, y, w, h }
    }

    /// Create a new [Rect] based on two points spanning the rectangle,
    /// both edges inclusive.
    pub fn new_with_points(x1: u32, y1: u32, x2: u32, y2: u32) -> (r: Rect)
        requires
            x1 <= x2,
            y1 <= y2,
            x2 - x1 + 1 <= u32::MAX,
            y2 - y1 + 1 <= u32::MAX,
        ensures
            r == (Rect { x: x1, y: y1, w: (x2 - x1 + 1) as u32, h: (y2 - y1 + 1) as u32 }),
    {
        Rect { x: x1, y: y1, w: x2 - x1 + 1, h: y2 - y1 + 1 }
    }

    /// Get the top coordinate of the rectangle.
    #[inline(always)]
    pub fn top(&self) -> (r: u32)
        ensures
            r == self.spec_top(),
    {
        self.y
    }

    /// Get the bottom coordinate of the rectangle.
    #[inline(always)]
    pub fn bottom(&self) -> (r: u32)
        requires
            1 <= self.y + self.h <= u32::MAX,
        ensures
            r == self.spec_bottom(),
    {
        self.y + self.h - 1
    }

    /// Get the left coordinate of the rectangle.
    #[inline(always)]
    pub fn left(&self) -> (r: u32)
        ensures
            r == self.spec_left(),
    {
        self.x
    }

    /// Get the right coordinate of the rectangle.
    #[inline(always)]
    pub fn right(&self) -> (r: u32)
        requires
            1 <= self.x + self.w <= u32::MAX,
        ensures
            r == self.spec_right(),
    {
        self.x + self.w - 1
    }

    /// Get the area of the rectangle.
    #[inline(always)]
    pub fn area(&self) -> (r: u32)
        requires
            self.spec_area() <= u32::MAX,
        ensures
            r == self.spec_area(),
    {
        self.w * self.h
    }

    /// Check if this rectangle intersects with another.
    pub fn intersects(&self, other: &Rect) -> (r: bool)
        requires
            1 <= self.x + self.w <= u32::MAX,
            1 <= self.y + self.h <= u32::MAX,
            1 <= other.x + other.w <= u32::MAX,
            1 <= other.y + other.h <= u32::MAX,
        ensures
            r == self.spec_intersects(*other),
    {
        self.left() < other.right() && self.right() > other.left() && self.top()
            < other.bottom() && self.bottom() > other.top()
    }

    /// Check if this rectangle contains another.
    pub fn contains(&self, other: &Rect) -> (r: bool)
        requires
            1 <= self.x + self.w <= u32::MAX,
            1 <= self.y + self.h <= u32::MAX,
            1 <= other.x + other.w <= u32::MAX,
            1 <= other.y + other.h <= u32::MAX,
        ensures
            r == self.spec_contains(*other),
    {
        self.left() <= other.left() && self.right() >= other.right() && self.top()
            <= other.top() && self.bottom() >= other.bottom()
    }

    /// Check if this rectangle contains a point. Includes the edges of the rectangle.
    pub fn contains_point(&self, x: u32, y: u32) -> (r: bool)
        requires
            1 <= self.x + self.w <= u32::MAX,
            1 <= self.y + self.h <= u32::MAX,
        ensures
            r == self.spec_contains_point(x as int, y as int),
    {
        self.left() <= x && self.right() >= x && self.top() <= y && self.bottom() >= y
    }

    /// The clamped intersection corner `max(self.left, other.left)`.
    pub open spec fn spec_inside_x1(self, other: Rect) -> int {
        if other.spec_left() < self.spec_left() {
            self.spec_left()
        } else {
            other.spec_left()
        }
    }

    /// The clamped intersection corner `max(self.top, other.top)`.
    pub open spec fn spec_inside_y1(self, other: Rect) -> int {
        if other.spec_top() < self.spec_top() {
            self.spec_top()
        } else {
            other.spec_top()
        }
    }

    /// The clamped intersection corner `min(self.right, other.right)`.
    pub open spec fn spec_inside_x2(self, other: Rect) -> int {
        if other.spec_right() > self.spec_right() {
            self.spec_right()
        } else {
            other.spec_right()
        }
    }

    /// The clamped intersection corner `min(self.bottom, other.bottom)`.
    pub open spec fn spec_inside_y2(self, other: Rect) -> int {
        if other.spec_bottom() > self.spec_bottom() {
            self.spec_bottom()
        } else {
            other.spec_bottom()
        }
    }

    /// Rectangle spanned by two inclusive corner points.
    pub open spec fn spec_between(x1: int, y1: int, x2: int, y2: int) -> Rect {
        Rect { x: x1 as u32, y: y1 as u32, w: (x2 - x1 + 1) as u32, h: (y2 - y1 + 1) as u32 }
    }

    /// Left strip left over after subtracting the intersection with `other`.
    pub open spec fn spec_crop_left(self, other: Rect) -> Rect {
        Rect::spec_between(
            self.spec_left(),
            self.spec_top(),
            self.spec_inside_x1(other),
            self.spec_bottom(),
        )
    }

    /// Right strip left over after subtracting the intersection with `other`.
    pub open spec fn spec_crop_right(self, other: Rect) -> Rect {
        Rect::spec_between(
            self.spec_inside_x2(other),
            self.spec_top(),
            self.spec_right(),
            self.spec_bottom(),
        )
    }

    /// Top strip left over after subtracting the intersection with `other`.
    pub open spec fn spec_crop_top(self, other: Rect) -> Rect {
        Rect::spec_between(
            self.spec_inside_x1(other),
            self.spec_top(),
            self.spec_inside_x2(other),
            self.spec_inside_y1(other),
        )
    }

    /// Bottom strip left over after subtracting the intersection with `other`.
    pub open spec fn spec_crop_bottom(self, other: Rect) -> Rect {
        Rect::spec_between(
            self.spec_inside_x1(other),
            self.spec_inside_y2(other),
            self.spec_inside_x2(other),
            self.spec_bottom(),
        )
    }

    /// The ordered pieces that `crop` returns: `self` unchanged when the two
    /// rectangles do not intersect, otherwise the left, right, top and bottom
    /// strips around the intersection, each kept only if it has positive area.
    pub open spec fn spec_crop(self, other: Rect) -> Seq<Rect> {
        if !self.spec_intersects(other) {
            seq![self]
        } else {
            let candidates = seq![
                self.spec_crop_left(other),
                self.spec_crop_right(other),
                self.spec_crop_top(other),
                self.spec_crop_bottom(other),
            ];
            candidates.filter(|r: Rect| r.spec_area() > 0)
        }
    }

    /// Split two rectangles into non-overlapping regions.
    pub fn crop(&self, other: &Rect) -> (result: Vec<Rect>)
        requires
            1 <= self.x + self.w <= u32::MAX,
            1 <= self.y + self.h <= u32::MAX,
            1 <= other.x + other.w <= u32::MAX,
            1 <= other.y + other.h <= u32::MAX,
            self.spec_area() <= u32::MAX,
            self.spec_intersects(*other) ==> !self.is_degenerate() && !other.is_degenerate(),
        ensures
            result@ == self.spec_crop(*other),
            forall|k: int|
                0 <= k < result@.len() ==> {
                    let p = #[trigger] result@[k];
                    &&& self.x <= p.x
                    &&& p.x + p.w <= self.x + self.w
                    &&& self.y <= p.y
                    &&& p.y + p.h <= self.y + self.h
                    &&& (!self.is_degenerate() ==> 1 <= p.w && 1 <= p.h)
                },
    {
        if !self.intersects(other) {
            let mut result = Vec::new();
            result.push(*self);
            assert(result@ =~= self.spec_crop(*other));
            return result;
        }
        proof {
            assert(!self.is_degenerate() && !other.is_degenerate());
        }
        let inside_x1 = if other.left() < self.left() {
            self.left()
        } else {
            other.left()
        };
        let inside_y1 = if other.top() < self.top() {
            self.top()
        } else {
            other.top()
        };
        let inside_x2 = if other.right() > self.right() {
            self.right()
        } else {
            other.right()
        };
        let inside_y2 = if other.bottom() > self.bottom() {
            self.bottom()
        } else {
            other.bottom()
        };
        let mut result = Vec::new();

        let r1 = Rect::new_with_points(self.left(), self.top(), inside_x1, self.bottom());
        proof {
            lemma_area_le(r1, *self);
        }
        if r1.area() > 0 {
            result.push(r1);
        }
        let r2 = Rect::new_with_points(inside_x2, self.top(), self.right(), self.bottom());
        proof {
            lemma_area_le(r2, *self);
        }
        if r2.area() > 0 {
            result.push(r2);
        }
        let r3 = Rect::new_with_points(inside_x1, self.top(), inside_x2, inside_y1);
        proof {
            lemma_area_le(r3, *self);
        }
        if r3.area() > 0 {
            result.push(r3);
        }
        let r4 = Rect::new_with_points(inside_x1, inside_y2, inside_x2, self.bottom());
        proof {
            lemma_area_le(r4, *self);
        }
        if r4.area() > 0 {
            result.push(r4);
        }
        proof {
            if r1.spec_area() > 0 {
                assert(1 <= r1.w && 1 <= r1.h) by (nonlinear_arith)
                    requires
                        r1.w * r1.h > 0,
                ;
            }
            if r2.spec_area() > 0 {
                assert(1 <= r2.w && 1 <= r2.h) by (nonlinear_arith)
                    requires
                        r2.w * r2.h > 0,
                ;
            }
            if r3.spec_area() > 0 {
                assert(1 <= r3.w && 1 <= r3.h) by (nonlinear_arith)
                    requires
                        r3.w * r3.h > 0,
                ;
            }
            if r4.spec_area() > 0 {
                assert(1 <= r4.w && 1 <= r4.h) by (nonlinear_arith)
                    requires
                        r4.w * r4.h > 0,
                ;
            }
            let pieces = seq![
                self.spec_crop_left(*other),
                self.spec_crop_right(*other),
                self.spec_crop_top(*other),
                self.spec_crop_bottom(*other),
            ];
            reveal_with_fuel(Seq::filter, 6);
            assert(pieces.drop_last() =~= seq![
                self.spec_crop_left(*other),
                self.spec_crop_right(*other),
                self.spec_crop_top(*other),
            ]);
            assert(pieces.drop_last().drop_last() =~= seq![
                self.spec_crop_left(*other),
                self.spec_crop_right(*other),
            ]);
            assert(pieces.drop_last().drop_last().drop_last() =~= seq![
                self.spec_crop_left(*other),
            ]);
            assert(pieces.drop_last().drop_last().drop_last().drop_last() =~= Seq::<
                Rect,
            >::empty());
            assert(result@ =~= self.spec_crop(*other));
        }
        result
    }

    /// Check if a point falls on the rectangle's boundaries.
    pub fn is_outline(&self, x: u32, y: u32) -> (r: bool)
        requires
            1 <= self.x + self.w <= u32::MAX,
            1 <= self.y + self.h <= u32::MAX,
        ensures
            r == self.spec_is_outline(x as int, y as int),
    {
        x == self.left() || x == self.right() || y == self.top() || y == self.bottom()
    }
}

/// A rectangle no wider and no taller than another covers no more pixels.
pub proof fn lemma_area_le(a: Rect, b: Rect)
    requires
        a.w <= b.w,
        a.h <= b.h,
    ensures
        a.spec_area() <= b.spec_area(),
{
    assert(a.w * a.h <= b.w * b.h) by (nonlinear_arith)
        requires
            a.w <= b.w,
            a.h <= b.h,
    ;
}

} // verus!
