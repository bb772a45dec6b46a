//! Max-rects free-space tracker: free space is a list of possibly
//! overlapping rectangles; placement picks the bottom-left-most fit, every
//! free rectangle is cropped against the occupied area afterwards, and a
//! cleanup pass drops free rectangles contained in another.

use vstd::prelude::*;
use crate::buffer2d::{patch, patch_rotated, Buffer2d, Packer};
use crate::guillotine_packer::{fits_any, fits_upright};
use crate::rect::Rect;

verus! {

/// The two enlarged remainders of a free rectangle after a placement in its
/// corner, keeping only those with real area.
pub open spec fn maxrect_remainders(area: Rect, rect: Rect) -> Seq<Rect> {
    let right = Rect {
        x: (area.x + rect.w) as u32,
        y: area.y,
        w: (area.w - rect.w) as u32,
        h: area.h,
    };
    let below = Rect {
        x: area.x,
        y: (area.y + rect.h) as u32,
        w: area.w,
        h: (area.h - rect.h) as u32,
    };
    let first = if right.is_degenerate() {
        Seq::<Rect>::empty()
    } else {
        seq![right]
    };
    if below.is_degenerate() {
        first
    } else {
        first.push(below)
    }
}

/// Crop every rectangle of the list against `rect`, in order.
pub open spec fn crop_all(fs: Seq<Rect>, rect: Rect) -> Seq<Rect>
    decreases fs.len(),
{
    if fs.len() == 0 {
        Seq::<Rect>::empty()
    } else {
        crop_all(fs.drop_last(), rect) + fs.last().spec_crop(rect)
    }
}

/// The free rectangle at `j` is kept by the cleanup pass: no other free
/// rectangle contains it.
pub open spec fn kept(fs: Seq<Rect>, j: int) -> bool {
    forall|i: int|
        0 <= i < fs.len() && i != j ==> !(#[trigger] fs[i]).spec_contains(fs[j])
}

/// The prefix of the cleanup pass's result built from the first `upto`
/// entries.
pub open spec fn merge_filter_upto(fs: Seq<Rect>, upto: int) -> Seq<Rect>
    decreases upto,
{
    if upto <= 0 {
        Seq::<Rect>::empty()
    } else if kept(fs, upto - 1) {
        merge_filter_upto(fs, upto - 1).push(fs[upto - 1])
    } else {
        merge_filter_upto(fs, upto - 1)
    }
}

/// Max-rects packer around a destination buffer.
pub struct MaxrectPacker<B: Buffer2d> {
    /// The destination buffer.
    pub buf: B,
    /// The free rectangles; they may overlap.
    pub free_areas: Vec<Rect>,
    /// Empty margin reserved around each packed buffer.
    pub margin: u32,
}

impl<B: Buffer2d> MaxrectPacker<B> {
    /// Every free rectangle denotes real area, lies inside the buffer and
    /// has a representable area, and the whole buffer can be written.
    pub open spec fn wf(self) -> bool {
        &&& self.buf.wf()
        &&& forall|i: int|
            0 <= i < self.free_areas@.len() ==> {
                &&& 1 <= (#[trigger] self.free_areas@[i]).w
                &&& 1 <= self.free_areas@[i].h
                &&& self.free_areas@[i].x + self.free_areas@[i].w <= self.buf.spec_width()
                &&& self.free_areas@[i].y + self.free_areas@[i].h <= self.buf.spec_height()
                &&& self.free_areas@[i].spec_area() <= u32::MAX
            }
        &&& forall|a: int, b: int|
            0 <= a < self.buf.spec_width() && 0 <= b < self.buf.spec_height()
                ==> self.buf.settable(a, b)
        &&& self.buf.spec_width() * self.buf.spec_height() <= u32::MAX
    }

    /// Create a packer whose free space is the whole buffer.
    pub fn new(buf: B) -> (r: MaxrectPacker<B>)
        requires
            buf.wf(),
            1 <= buf.spec_width(),
            1 <= buf.spec_height(),
            buf.spec_width() * buf.spec_height() <= u32::MAX,
            forall|a: int, b: int|
                0 <= a < buf.spec_width() && 0 <= b < buf.spec_height() ==> buf.settable(a, b),
        ensures
            r.wf(),
            r.buf == buf,
            r.margin == 0,
            r.free_areas@ =~= seq![
                Rect { x: 0, y: 0, w: buf.spec_width(), h: buf.spec_height() },
            ],
    {
        let (width, height) = buf.dimensions();

        let mut free_areas = Vec::new();
        free_areas.push(Rect { x: 0, y: 0, w: width, h: height });

        MaxrectPacker { buf, free_areas, margin: 0 }
    }

    /// Bottom-left fit: among the free rectangles that admit the request in
    /// some orientation, the one whose top edge, then left edge, is least,
    /// trying the upright orientation of each rectangle first.
    fn find_free_area(&self, w: u32, h: u32) -> (r: Option<(usize, Rect)>)
        requires
            self.wf(),
            1 <= w,
            1 <= h,
        ensures
            r is None ==> forall|j: int|
                0 <= j < self.free_areas@.len() ==> !fits_any(
                    #[trigger] self.free_areas@[j],
                    w as int,
                    h as int,
                ),
            r matches Some((i, rect)) ==> {
                let fa = self.free_areas@[i as int];
                &&& i < self.free_areas@.len()
                &&& rect.x == fa.x
                &&& rect.y == fa.y
                &&& ((rect.w == w && rect.h == h && fits_upright(fa, w as int, h as int)) || (
                rect.w == h && rect.h == w && fits_upright(fa, h as int, w as int)
                    && !fits_upright(fa, w as int, h as int)))
                &&& forall|j: int|
                    0 <= j < self.free_areas@.len() && fits_any(
                        #[trigger] self.free_areas@[j],
                        w as int,
                        h as int,
                    ) ==> (self.free_areas@[j].y > fa.y || (self.free_areas@[j].y == fa.y
                        && self.free_areas@[j].x >= fa.x))
            },
    {
        let mut min_x: Option<u32> = None;
        let mut min_y: Option<u32> = None;
        let mut index: Option<usize> = None;
        let mut rect = Rect::new(0, 0, 0, 0);
        let n = self.free_areas.len();
        let mut i: usize = 0;

        while i < n
            invariant
                self.wf(),
                n == self.free_areas@.len(),
                i <= n,
                1 <= w,
                1 <= h,
                match (index, min_x, min_y) {
                    (Some(b), Some(mx), Some(my)) => {
                        let fa = self.free_areas@[b as int];
                        &&& b < n
                        &&& mx == fa.x
                        &&& my == fa.y
                        &&& rect.x == fa.x
                        &&& rect.y == fa.y
                        &&& ((rect.w == w && rect.h == h && fits_upright(fa, w as int, h as int))
                            || (rect.w == h && rect.h == w && fits_upright(fa, h as int, w as int)
                            && !fits_upright(fa, w as int, h as int)))
                        &&& forall|j: int|
                            0 <= j < i && fits_any(
                                #[trigger] self.free_areas@[j],
                                w as int,
                                h as int,
                            ) ==> (self.free_areas@[j].y > fa.y || (self.free_areas@[j].y == fa.y
                                && self.free_areas@[j].x >= fa.x))
                    },
                    (None, None, None) => forall|j: int|
                        0 <= j < i ==> !fits_any(#[trigger] self.free_areas@[j], w as int, h as int),
                    _ => false,
                },
            decreases n - i,
        {
            let area = self.free_areas[i];

            if w <= area.w && h <= area.h {
                let take = match (min_x, min_y) {
                    (Some(mx), Some(my)) => area.y < my || (area.y == my && area.x < mx),
                    _ => true,
                };
                if take {
                    index = Some(i);
                    min_x = Some(area.x);
                    min_y = Some(area.y);
                    rect = Rect { x: area.x, y: area.y, w, h };
                }
            } else if h <= area.w && w <= area.h {
                let take = match (min_x, min_y) {
                    (Some(mx), Some(my)) => area.y < my || (area.y == my && area.x < mx),
                    _ => true,
                };
                if take {
                    index = Some(i);
                    min_x = Some(area.x);
                    min_y = Some(area.y);
                    rect = Rect { x: area.x, y: area.y, w: h, h: w };
                }
            }
            i = i + 1;
        }

        match index {
            Some(i) => Some((i, rect)),
            _ => None,
        }
    }

    /// Replace the chosen free rectangle by its two enlarged remainders,
    /// then crop every free rectangle against the occupied area.  Remainders
    /// without area are dropped.
    fn split(&mut self, index: usize, rect: &Rect)
        requires
            old(self).wf(),
            index < old(self).free_areas@.len(),
            1 <= rect.w,
            1 <= rect.h,
            rect.x == old(self).free_areas@[index as int].x,
            rect.y == old(self).free_areas@[index as int].y,
            rect.w <= old(self).free_areas@[index as int].w,
            rect.h <= old(self).free_areas@[index as int].h,
            rect.x + rect.w <= u32::MAX,
            rect.y + rect.h <= u32::MAX,
        ensures
            final(self).wf(),
            final(self).buf == old(self).buf,
            final(self).margin == old(self).margin,
            final(self).free_areas@ == crop_all(
                old(self).free_areas@.remove(index as int) + maxrect_remainders(
                    old(self).free_areas@[index as int],
                    *rect,
                ),
                *rect,
            ),
    {
        let ghost area0 = self.free_areas@[index as int];
        let area = self.free_areas.remove(index);
        let right_rest = Rect { x: area.x + rect.w, y: area.y, w: area.w - rect.w, h: area.h };
        if right_rest.w >= 1 && right_rest.h >= 1 {
            self.free_areas.push(right_rest);
        }
        let below_rest = Rect { x: area.x, y: area.y + rect.h, w: area.w, h: area.h - rect.h };
        if below_rest.w >= 1 && below_rest.h >= 1 {
            self.free_areas.push(below_rest);
        }
        proof {
            assert(self.free_areas@ =~= old(self).free_areas@.remove(index as int)
                + maxrect_remainders(area0, *rect));
            crate::rect::lemma_area_le(right_rest, area0);
            crate::rect::lemma_area_le(below_rest, area0);
        }

        let ghost fs = self.free_areas@;
        let mut new_free_areas: Vec<Rect> = Vec::new();
        let n = self.free_areas.len();
        let mut i: usize = 0;
        while i < n
            invariant
                old(self).wf(),
                self.buf == old(self).buf,
                self.margin == old(self).margin,
                fs == self.free_areas@,
                n == fs.len(),
                i <= n,
                1 <= rect.w,
                1 <= rect.h,
                rect.x + rect.w <= u32::MAX,
                rect.y + rect.h <= u32::MAX,
                forall|k: int|
                    0 <= k < fs.len() ==> {
                        &&& 1 <= (#[trigger] fs[k]).w
                        &&& 1 <= fs[k].h
                        &&& fs[k].x + fs[k].w <= self.buf.spec_width()
                        &&& fs[k].y + fs[k].h <= self.buf.spec_height()
                        &&& fs[k].spec_area() <= u32::MAX
                    },
                new_free_areas@ == crop_all(fs.take(i as int), *rect),
                forall|k: int|
                    0 <= k < new_free_areas@.len() ==> {
                        &&& 1 <= (#[trigger] new_free_areas@[k]).w
                        &&& 1 <= new_free_areas@[k].h
                        &&& new_free_areas@[k].x + new_free_areas@[k].w <= self.buf.spec_width()
                        &&& new_free_areas@[k].y + new_free_areas@[k].h <= self.buf.spec_height()
                        &&& new_free_areas@[k].spec_area() <= u32::MAX
                    },
            decreases n - i,
        {
            let fa = self.free_areas[i];
            let mut pieces = fa.crop(rect);
            proof {
                assert forall|k: int| 0 <= k < pieces@.len() implies {
                    &&& 1 <= (#[trigger] pieces@[k]).w
                    &&& 1 <= pieces@[k].h
                    &&& pieces@[k].x + pieces@[k].w <= self.buf.spec_width()
                    &&& pieces@[k].y + pieces@[k].h <= self.buf.spec_height()
                    &&& pieces@[k].spec_area() <= u32::MAX
                } by {
                    crate::rect::lemma_area_le(pieces@[k], fa);
                }
                assert(fs.take(i as int + 1).drop_last() =~= fs.take(i as int));
                assert(fs.take(i as int + 1).last() == fs[i as int]);
            }
            new_free_areas.append(&mut pieces);
            i = i + 1;
        }
        self.free_areas = new_free_areas;
        proof {
            assert(fs.take(n as int) =~= fs);
        }
    }

    /// Cleanup pass: drop every free rectangle contained in another one.
    fn merge(&mut self)
        requires
            old(self).wf(),
        ensures
            final(self).wf(),
            final(self).buf == old(self).buf,
            final(self).margin == old(self).margin,
            old(self).free_areas@.len() > 1 ==> final(self).free_areas@ == merge_filter_upto(
                old(self).free_areas@,
                old(self).free_areas@.len() as int,
            ),
            old(self).free_areas@.len() <= 1 ==> final(self).free_areas@ == old(
                self,
            ).free_areas@,
    {
        let ghost fs = self.free_areas@;
        if self.free_areas.len() > 1 {
            let mut new_free_areas: Vec<Rect> = Vec::new();
            let n = self.free_areas.len();
            let mut i: usize = 0;
            while i < n
                invariant
                    old(self).wf(),
                    self.buf == old(self).buf,
                    self.margin == old(self).margin,
                    fs == self.free_areas@,
                    fs == old(self).free_areas@,
                    n == fs.len(),
                    i <= n,
                    new_free_areas@ == merge_filter_upto(fs, i as int),
                    forall|k: int|
                        0 <= k < new_free_areas@.len() ==> exists|m: int|
                            0 <= m < fs.len() && #[trigger] new_free_areas@[k] == fs[m],
                decreases n - i,
            {
                let mut keep = true;
                let mut j: usize = 0;
                while j < n
                    invariant
                        old(self).wf(),
                        fs == self.free_areas@,
                        fs == old(self).free_areas@,
                        n == fs.len(),
                        i < n,
                        j <= n,
                        keep == (forall|t: int|
                            0 <= t < j && t != i as int ==> !(#[trigger] fs[t]).spec_contains(
                                fs[i as int],
                            )),
                    decreases n - j,
                {
                    if j != i {
                        if self.free_areas[j].contains(&self.free_areas[i]) {
                            keep = false;
                        }
                    }
                    j = j + 1;
                }
                if keep {
                    new_free_areas.push(self.free_areas[i]);
                }
                i = i + 1;
            }
            self.free_areas = new_free_areas;
        }
    }
}

impl<B: Buffer2d> Packer for MaxrectPacker<B> {
    type Buffer = B;

    open spec fn wf(&self) -> bool {
        MaxrectPacker::wf(*self)
    }

    /// The request's sides, inflated by the margin, denote real area and
    /// stay representable.
    open spec fn req_ok(&self, w: int, h: int) -> bool {
        &&& 1 <= w + self.margin
        &&& 1 <= h + self.margin
        &&& w + self.margin <= u32::MAX
        &&& h + self.margin <= u32::MAX
        &&& self.margin <= w + self.margin
        &&& self.margin <= h + self.margin
    }

    /// The buffer denotes real area, is consistent and wholly writable, and
    /// its area is representable.
    open spec fn new_req(buf: &B) -> bool {
        &&& buf.wf()
        &&& 1 <= buf.spec_width()
        &&& 1 <= buf.spec_height()
        &&& buf.spec_width() * buf.spec_height() <= u32::MAX
        &&& forall|a: int, b: int|
            0 <= a < buf.spec_width() && 0 <= b < buf.spec_height() ==> buf.settable(a, b)
    }

    fn new(buf: B) -> Self {
        MaxrectPacker::new(buf)
    }

    fn buf(&self) -> (r: &B)
        ensures
            *r == self.buf,
    {
        &self.buf
    }

    fn pack<O: Buffer2d<Pixel = B::Pixel>>(&mut self, buf: &O) -> (r: Option<Rect>)
        ensures
            final(self).buf.spec_width() == old(self).buf.spec_width(),
            final(self).buf.spec_height() == old(self).buf.spec_height(),
            final(self).margin == old(self).margin,
            r is Some <==> exists|j: int|
                0 <= j < old(self).free_areas@.len() && fits_any(
                    #[trigger] old(self).free_areas@[j],
                    buf.spec_width() + old(self).margin,
                    buf.spec_height() + old(self).margin,
                ),
            r is None ==> *final(self) == *old(self),
            r matches Some(rect) ==> {
                let w = buf.spec_width() + old(self).margin;
                let h = buf.spec_height() + old(self).margin;
                &&& ((rect.w + old(self).margin == w && rect.h + old(self).margin == h) || (
                rect.w + old(self).margin == h && rect.h + old(self).margin == w))
                &&& rect.x + rect.w <= old(self).buf.spec_width()
                &&& rect.y + rect.h <= old(self).buf.spec_height()
                &&& (rect.w + old(self).margin == w ==> forall|a: int, b: int|
                    0 <= a < old(self).buf.spec_width() && 0 <= b < old(self).buf.spec_height()
                        ==> #[trigger] final(self).buf.pixel_at(a, b) == (if rect.x <= a < rect.x
                        + buf.spec_width() && rect.y <= b < rect.y + buf.spec_height()
                        && buf.pixel_at(a - rect.x, b - rect.y) is Some {
                        buf.pixel_at(a - rect.x, b - rect.y)
                    } else {
                        old(self).buf.pixel_at(a, b)
                    }))
                &&& (rect.w + old(self).margin != w ==> forall|a: int, b: int|
                    0 <= a < old(self).buf.spec_width() && 0 <= b < old(self).buf.spec_height()
                        ==> #[trigger] final(self).buf.pixel_at(a, b) == (if rect.x <= a < rect.x
                        + buf.spec_height() && rect.y <= b < rect.y + buf.spec_width()
                        && buf.pixel_at(b - rect.y, rect.x + buf.spec_height() - 1 - a) is Some {
                        buf.pixel_at(b - rect.y, rect.x + buf.spec_height() - 1 - a)
                    } else {
                        old(self).buf.pixel_at(a, b)
                    }))
            },
    {
        let (mut width, mut height) = buf.dimensions();
        width = width + self.margin;
        height = height + self.margin;
        match self.find_free_area(width, height) {
            Some((i, mut rect)) => {
                if width == rect.w {
                    patch(&mut self.buf, rect.x, rect.y, buf);
                } else {
                    patch_rotated(&mut self.buf, rect.x, rect.y, buf);
                }

                self.split(i, &rect);
                self.merge();

                rect.w = rect.w - self.margin;
                rect.h = rect.h - self.margin;
                Some(rect)
            },
            _ => None,
        }
    }

    fn set_margin(&mut self, val: u32)
        ensures
            final(self).buf == old(self).buf,
            final(self).free_areas == old(self).free_areas,
            final(self).margin == val,
    {
        self.margin = val;
    }

    fn into_buf(self) -> (r: B)
        ensures
            r == self.buf,
    {
        self.buf
    }
}

} // verus!
