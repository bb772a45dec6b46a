//! Guillotine free-space tracker: free space is a list of disjoint
//! rectangles; placement picks the best-area fit and splits the chosen free
//! rectangle along its shorter axis.

use vstd::prelude::*;
use crate::buffer2d::{patch, patch_rotated, Buffer2d, Packer};
use crate::rect::Rect;

verus! {

/// The request fits the free rectangle as it is.
pub open spec fn fits_upright(fa: Rect, w: int, h: int) -> bool {
    w <= fa.w && h <= fa.h
}

/// The request fits the free rectangle in one of the two orientations.
pub open spec fn fits_any(fa: Rect, w: int, h: int) -> bool {
    fits_upright(fa, w, h) || fits_upright(fa, h, w)
}

/// The two remainders of a free rectangle after a placement in its corner,
/// split along the shorter axis of the free rectangle.
pub open spec fn split_pieces(area: Rect, rect: Rect) -> (Rect, Rect) {
    if area.w < area.h {
        (
            Rect {
                x: (area.x + rect.w) as u32,
                y: area.y,
                w: (area.w - rect.w) as u32,
                h: rect.h,
            },
            Rect {
                x: area.x,
                y: (area.y + rect.h) as u32,
                w: area.w,
                h: (area.h - rect.h) as u32,
            },
        )
    } else {
        (
            Rect {
                x: area.x,
                y: (area.y + rect.h) as u32,
                w: rect.w,
                h: (area.h - rect.h) as u32,
            },
            Rect {
                x: (area.x + rect.w) as u32,
                y: area.y,
                w: (area.w - rect.w) as u32,
                h: area.h,
            },
        )
    }
}

/// Guillotine packer around a destination buffer.
pub struct GuillotinePacker<B: Buffer2d> {
    /// The destination buffer.
    pub buf: B,
    /// The free rectangles, pairwise disjoint.
    pub free_areas: Vec<Rect>,
    /// Empty margin reserved around each packed buffer.
    pub margin: u32,
}

/// A rectangle nested inside one of two disjoint rectangles stays disjoint
/// from the other.
proof fn lemma_disjoint_nested(a: Rect, b: Rect, inner: Rect)
    requires
        a.spec_disjoint(b),
        a.x <= inner.x,
        inner.x + inner.w <= a.x + a.w,
        a.y <= inner.y,
        inner.y + inner.h <= a.y + a.h,
    ensures
        inner.spec_disjoint(b),
{
}

impl<B: Buffer2d> GuillotinePacker<B> {
    /// Every free rectangle lies inside the buffer and has a representable
    /// area, the free rectangles are pairwise disjoint, and the whole buffer
    /// can be written.
    pub open spec fn wf(self) -> bool {
        &&& self.buf.wf()
        &&& forall|i: int|
            0 <= i < self.free_areas@.len() ==> {
                &&& (#[trigger] self.free_areas@[i]).x + self.free_areas@[i].w
                    <= self.buf.spec_width()
                &&& self.free_areas@[i].y + self.free_areas@[i].h <= self.buf.spec_height()
                &&& self.free_areas@[i].spec_area() <= u32::MAX
            }
        &&& forall|i: int, j: int|
            0 <= i < self.free_areas@.len() && 0 <= j < self.free_areas@.len() && i != j
                ==> (#[trigger] self.free_areas@[i]).spec_disjoint(#[trigger] self.free_areas@[j])
        &&& forall|a: int, b: int|
            0 <= a < self.buf.spec_width() && 0 <= b < self.buf.spec_height()
                ==> self.buf.settable(a, b)
        &&& self.buf.spec_width() * self.buf.spec_height() <= u32::MAX
    }

    /// Create a packer whose free space is the whole buffer.
    pub fn new(buf: B) -> (r: GuillotinePacker<B>)
        requires
            buf.wf(),
            buf.spec_width() * buf.spec_height() <= u32::MAX,
            forall|a: int, b: int|
                0 <= a < buf.spec_width() && 0 <= b < buf.spec_height() ==> buf.settable(a, b),
        ensures
            r.wf(),
            r.buf == buf,
            r.margin == 0,
            r.free_areas@ =~= seq![
                Rect { x: 0, y: 0, w: buf.spec_width(), h: buf.spec_height() },
            ],
    {
        let (width, height) = buf.dimensions();
        let mut free_areas = Vec::new();
        free_areas.push(Rect { x: 0, y: 0, w: width, h: height });

        GuillotinePacker { buf, free_areas, margin: 0 }
    }

    /// Best-area fit: the free rectangle of least area that still admits
    /// the request in some orientation, trying the upright orientation of
    /// each rectangle first.
    fn find_free_area(&self, w: u32, h: u32) -> (r: Option<(usize, Rect)>)
        requires
            self.wf(),
            1 <= w,
            1 <= h,
        ensures
            r is None ==> forall|j: int|
                0 <= j < self.free_areas@.len() ==> !fits_any(
                    #[trigger] self.free_areas@[j],
                    w as int,
                    h as int,
                ),
            r matches Some((i, rect)) ==> {
                let fa = self.free_areas@[i as int];
                &&& i < self.free_areas@.len()
                &&& rect.x == fa.x
                &&& rect.y == fa.y
                &&& ((rect.w == w && rect.h == h && fits_upright(fa, w as int, h as int)) || (
                rect.w == h && rect.h == w && fits_upright(fa, h as int, w as int)
                    && !fits_upright(fa, w as int, h as int)))
                &&& forall|j: int|
                    0 <= j < self.free_areas@.len() && fits_any(
                        #[trigger] self.free_areas@[j],
                        w as int,
                        h as int,
                    ) ==> self.free_areas@[j].spec_area() >= fa.spec_area()
            },
    {
        let mut index: Option<usize> = None;
        let mut min_area: Option<u32> = None;
        let mut rect = Rect::new(0, 0, 0, 0);
        let n = self.free_areas.len();
        let mut i: usize = 0;

        while i < n
            invariant
                self.wf(),
                n == self.free_areas@.len(),
                i <= n,
                1 <= w,
                1 <= h,
                match (index, min_area) {
                    (Some(b), Some(ma)) => {
                        let fa = self.free_areas@[b as int];
                        &&& b < n
                        &&& ma == fa.spec_area()
                        &&& rect.x == fa.x
                        &&& rect.y == fa.y
                        &&& ((rect.w == w && rect.h == h && fits_upright(fa, w as int, h as int))
                            || (rect.w == h && rect.h == w && fits_upright(fa, h as int, w as int)
                            && !fits_upright(fa, w as int, h as int)))
                        &&& forall|j: int|
                            0 <= j < i && fits_any(
                                #[trigger] self.free_areas@[j],
                                w as int,
                                h as int,
                            ) ==> self.free_areas@[j].spec_area() >= ma
                    },
                    (None, None) => forall|j: int|
                        0 <= j < i ==> !fits_any(#[trigger] self.free_areas@[j], w as int, h as int),
                    _ => false,
                },
            decreases n - i,
        {
            let area = self.free_areas[i];
            let a = area.area();

            if w <= area.w && h <= area.h {
                let take = match min_area {
                    Some(ma) => a < ma,
                    None => true,
                };
                if take {
                    index = Some(i);
                    min_area = Some(a);
                    rect = Rect { x: area.x, y: area.y, w, h };
                }
            } else if h <= area.w && w <= area.h {
                let take = match min_area {
                    Some(ma) => a < ma,
                    None => true,
                };
                if take {
                    index = Some(i);
                    min_area = Some(a);
                    rect = Rect { x: area.x, y: area.y, w: h, h: w };
                }
            }
            i = i + 1;
        }

        match index {
            Some(i) => Some((i, rect)),
            _ => None,
        }
    }

    /// Shorter-axis split: replace the chosen free rectangle by the two
    /// remainders around the placement in its corner.
    fn split(&mut self, index: usize, rect: &Rect)
        requires
            old(self).wf(),
            index < old(self).free_areas@.len(),
            rect.x == old(self).free_areas@[index as int].x,
            rect.y == old(self).free_areas@[index as int].y,
            rect.w <= old(self).free_areas@[index as int].w,
            rect.h <= old(self).free_areas@[index as int].h,
        ensures
            final(self).wf(),
            final(self).buf == old(self).buf,
            final(self).margin == old(self).margin,
            final(self).free_areas@ == old(self).free_areas@.remove(index as int).push(
                split_pieces(old(self).free_areas@[index as int], *rect).0,
            ).push(split_pieces(old(self).free_areas@[index as int], *rect).1),
    {
        let area = self.free_areas.remove(index);
        proof {
            crate::rect::lemma_area_le(
                split_pieces(area, *rect).0,
                old(self).free_areas@[index as int],
            );
            crate::rect::lemma_area_le(
                split_pieces(area, *rect).1,
                old(self).free_areas@[index as int],
            );
            // the two remainders nest inside the removed rectangle and do
            // not overlap each other, so disjointness survives the split
            let p0 = split_pieces(area, *rect).0;
            let p1 = split_pieces(area, *rect).1;
            let rest = old(self).free_areas@.remove(index as int);
            assert(p0.spec_disjoint(p1));
            assert forall|j: int| 0 <= j < rest.len() implies p0.spec_disjoint(
                #[trigger] rest[j],
            ) && p1.spec_disjoint(rest[j]) && rest[j].spec_disjoint(p0) && rest[j].spec_disjoint(
                p1,
            ) by {
                let o = if j < index as int {
                    old(self).free_areas@[j]
                } else {
                    old(self).free_areas@[j + 1]
                };
                assert(rest[j] == o);
                assert(area.spec_disjoint(o));
                lemma_disjoint_nested(area, o, p0);
                lemma_disjoint_nested(area, o, p1);
            }
        }
        // Split horizontally
        if area.w < area.h {
            self.free_areas.push(
                Rect { x: area.x + rect.w, y: area.y, w: area.w - rect.w, h: rect.h },
            );
            self.free_areas.push(
                Rect { x: area.x, y: area.y + rect.h, w: area.w, h: area.h - rect.h },
            );
        }
        // Split vertically
         else {
            self.free_areas.push(
                Rect { x: area.x, y: area.y + rect.h, w: rect.w, h: area.h - rect.h },
            );
            self.free_areas.push(
                Rect { x: area.x + rect.w, y: area.y, w: area.w - rect.w, h: area.h },
            );
        }
    }
}

impl<B: Buffer2d> Packer for GuillotinePacker<B> {
    type Buffer = B;

    open spec fn wf(&self) -> bool {
        GuillotinePacker::wf(*self)
    }

    /// The request's sides, inflated by the margin, stay representable.
    open spec fn req_ok(&self, w: int, h: int) -> bool {
        &&& 1 <= w
        &&& 1 <= h
        &&& w + self.margin <= u32::MAX
        &&& h + self.margin <= u32::MAX
    }

    /// The buffer is consistent, wholly writable, and its area is
    /// representable.
    open spec fn new_req(buf: &B) -> bool {
        &&& buf.wf()
        &&& buf.spec_width() * buf.spec_height() <= u32::MAX
        &&& forall|a: int, b: int|
            0 <= a < buf.spec_width() && 0 <= b < buf.spec_height() ==> buf.settable(a, b)
    }

    fn new(buf: B) -> Self {
        GuillotinePacker::new(buf)
    }

    fn buf(&self) -> (r: &B)
        ensures
            *r == self.buf,
    {
        &self.buf
    }

    fn pack<O: Buffer2d<Pixel = B::Pixel>>(&mut self, buf: &O) -> (r: Option<Rect>)
        ensures
            final(self).buf.spec_width() == old(self).buf.spec_width(),
            final(self).buf.spec_height() == old(self).buf.spec_height(),
            final(self).margin == old(self).margin,
            r is Some <==> exists|j: int|
                0 <= j < old(self).free_areas@.len() && fits_any(
                    #[trigger] old(self).free_areas@[j],
                    buf.spec_width() + old(self).margin,
                    buf.spec_height() + old(self).margin,
                ),
            r is None ==> *final(self) == *old(self),
            r matches Some(rect) ==> {
                let w = buf.spec_width() + old(self).margin;
                let h = buf.spec_height() + old(self).margin;
                &&& ((rect.w == w && rect.h == h) || (rect.w == h && rect.h == w))
                &&& rect.x + rect.w <= old(self).buf.spec_width()
                &&& rect.y + rect.h <= old(self).buf.spec_height()
                &&& (rect.w == w ==> forall|a: int, b: int|
                    0 <= a < old(self).buf.spec_width() && 0 <= b < old(self).buf.spec_height()
                        ==> #[trigger] final(self).buf.pixel_at(a, b) == (if rect.x <= a < rect.x
                        + buf.spec_width() && rect.y <= b < rect.y + buf.spec_height()
                        && buf.pixel_at(a - rect.x, b - rect.y) is Some {
                        buf.pixel_at(a - rect.x, b - rect.y)
                    } else {
                        old(self).buf.pixel_at(a, b)
                    }))
                &&& (rect.w != w ==> forall|a: int, b: int|
                    0 <= a < old(self).buf.spec_width() && 0 <= b < old(self).buf.spec_height()
                        ==> #[trigger] final(self).buf.pixel_at(a, b) == (if rect.x <= a < rect.x
                        + buf.spec_height() && rect.y <= b < rect.y + buf.spec_width()
                        && buf.pixel_at(b - rect.y, rect.x + buf.spec_height() - 1 - a) is Some {
                        buf.pixel_at(b - rect.y, rect.x + buf.spec_height() - 1 - a)
                    } else {
                        old(self).buf.pixel_at(a, b)
                    }))
            },
    {
        let (mut width, mut height) = buf.dimensions();
        width = width + self.margin;
        height = height + self.margin;
        match self.find_free_area(width, height) {
            Some((i, rect)) => {
                if width == rect.w {
                    patch(&mut self.buf, rect.x, rect.y, buf);
                } else {
                    patch_rotated(&mut self.buf, rect.x, rect.y, buf);
                }
                self.split(i, &rect);

                Some(rect)
            },
            _ => None,
        }
    }

    fn set_margin(&mut self, val: u32)
        ensures
            final(self).buf == old(self).buf,
            final(self).free_areas == old(self).free_areas,
            final(self).margin == val,
    {
        self.margin = val;
    }

    fn into_buf(self) -> (r: B)
        ensures
            r == self.buf,
    {
        self.buf
    }
}

} // verus!
