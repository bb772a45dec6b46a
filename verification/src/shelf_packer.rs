//! Shelf free-space tracker: a single running cursor and the height of the
//! currently open shelf.  A buffer opens a new shelf when it does not fit on
//! the current row; the first buffer of a shelf may be stored on its side to
//! keep the shelf low.

use vstd::prelude::*;
use crate::buffer2d::{patch, patch_rotated, Buffer2d, Packer};
use crate::rect::Rect;

verus! {

/// The decision the shelf packer takes before placing a `bw` by `bh`
/// request: the placed width and height (sides swapped when stored
/// sideways), and the cursor and open-shelf height after a possible new
/// shelf is opened.  The fields are `(pw, ph, nx, ny, nshelf)`.
pub open spec fn shelf_prepare(x: int, y: int, shelf: int, width: int, bw: int, bh: int) -> (
    int,
    int,
    int,
    int,
    int,
) {
    if x == 0 {
        // first rectangle of an open shelf: store it sideways when that
        // lowers the shelf
        if bh > bw && bh <= width {
            (bh, bw, x, y, shelf)
        } else {
            (bw, bh, x, y, shelf)
        }
    } else {
        if bw > bh && x + bh <= width {
            (bh, bw, x, y, shelf)
        } else if x + bw > width {
            // open a new shelf
            (bw, bh, 0, y + shelf, 0)
        } else {
            (bw, bh, x, y, shelf)
        }
    }
}

/// Shelf packer around a destination buffer.
pub struct ShelfPacker<B: Buffer2d> {
    /// The destination buffer.
    pub buf: B,
    /// Cached buffer width.
    pub width: u32,
    /// Cached buffer height.
    pub height: u32,
    /// Horizontal cursor on the open shelf.
    pub x: u32,
    /// Vertical position of the open shelf.
    pub y: u32,
    /// Height of the open shelf so far.
    pub opening_shelf_max_y: u32,
    /// Empty margin reserved around each packed buffer.
    pub margin: u32,
}

impl<B: Buffer2d> ShelfPacker<B> {
    /// The cursor lies inside the buffer, the open shelf is no taller than
    /// the buffer, and the whole buffer can be written.
    pub open spec fn wf(self) -> bool {
        &&& self.buf.wf()
        &&& self.width == self.buf.spec_width()
        &&& self.height == self.buf.spec_height()
        &&& self.x <= self.width
        &&& self.opening_shelf_max_y <= self.height
        &&& self.y + self.opening_shelf_max_y <= self.height + self.height
        &&& self.height + self.height <= u32::MAX
        &&& forall|a: int, b: int|
            0 <= a < self.buf.spec_width() && 0 <= b < self.buf.spec_height()
                ==> self.buf.settable(a, b)
    }

    /// Create a packer with the cursor at the buffer's top-left corner.
    pub fn new(buf: B) -> (r: ShelfPacker<B>)
        requires
            buf.wf(),
            buf.spec_height() + buf.spec_height() <= u32::MAX,
            forall|a: int, b: int|
                0 <= a < buf.spec_width() && 0 <= b < buf.spec_height() ==> buf.settable(a, b),
        ensures
            r.wf(),
            r.buf == buf,
            r.x == 0,
            r.y == 0,
            r.opening_shelf_max_y == 0,
            r.margin == 0,
    {
        let (w, h) = buf.dimensions();
        ShelfPacker { buf, width: w, height: h, x: 0, y: 0, opening_shelf_max_y: 0, margin: 0 }
    }
}

impl<B: Buffer2d> Packer for ShelfPacker<B> {
    type Buffer = B;

    open spec fn wf(&self) -> bool {
        ShelfPacker::wf(*self)
    }

    /// The request's sides, inflated by the margin, stay representable next
    /// to the cursor arithmetic.
    open spec fn req_ok(&self, w: int, h: int) -> bool {
        &&& w + self.margin + self.width <= u32::MAX
        &&& h + self.margin + self.width <= u32::MAX
        &&& w + self.margin + self.height + self.height <= u32::MAX
        &&& h + self.margin + self.height + self.height <= u32::MAX
    }

    /// The buffer is consistent and wholly writable, and twice its height is
    /// representable.
    open spec fn new_req(buf: &B) -> bool {
        &&& buf.wf()
        &&& buf.spec_height() + buf.spec_height() <= u32::MAX
        &&& forall|a: int, b: int|
            0 <= a < buf.spec_width() && 0 <= b < buf.spec_height() ==> buf.settable(a, b)
    }

    fn new(buf: B) -> Self {
        ShelfPacker::new(buf)
    }

    fn buf(&self) -> (r: &B)
        ensures
            *r == self.buf,
    {
        &self.buf
    }

    fn pack<O: Buffer2d<Pixel = B::Pixel>>(&mut self, buf: &O) -> (r: Option<Rect>)
        ensures
            final(self).buf.spec_width() == old(self).buf.spec_width(),
            final(self).buf.spec_height() == old(self).buf.spec_height(),
            final(self).margin == old(self).margin,
            ({
                let bw = buf.spec_width() + old(self).margin;
                let bh = buf.spec_height() + old(self).margin;
                let step = shelf_prepare(
                    old(self).x as int,
                    old(self).y as int,
                    old(self).opening_shelf_max_y as int,
                    old(self).width as int,
                    bw,
                    bh,
                );
                &&& ((r is Some) <==> (step.2 + step.0 <= old(self).width && step.3 + step.1 <= old(
                    self,
                ).height))
                &&& (r is None ==> {
                    &&& final(self).buf == old(self).buf
                    &&& final(self).x == step.2
                    &&& final(self).y == step.3
                    &&& final(self).opening_shelf_max_y == step.4
                })
                &&& (r matches Some(rect) ==> {
                    &&& rect.x == step.2 + step.0
                    &&& rect.y == step.3
                    &&& rect.w == step.0 - old(self).margin
                    &&& rect.h == step.1 - old(self).margin
                    &&& final(self).x == step.2 + step.0
                    &&& final(self).y == step.3
                    &&& final(self).opening_shelf_max_y == (if step.4 < step.1 {
                        step.1
                    } else {
                        step.4
                    })
                    &&& (step.0 == bw ==> forall|a: int, b: int|
                        0 <= a < old(self).buf.spec_width() && 0 <= b < old(
                            self,
                        ).buf.spec_height() ==> #[trigger] final(self).buf.pixel_at(a, b) == (
                        if step.2 <= a < step.2 + buf.spec_width() && step.3 <= b < step.3
                            + buf.spec_height() && buf.pixel_at(a - step.2, b - step.3) is Some {
                            buf.pixel_at(a - step.2, b - step.3)
                        } else {
                            old(self).buf.pixel_at(a, b)
                        }))
                    &&& (step.0 != bw ==> forall|a: int, b: int|
                        0 <= a < old(self).buf.spec_width() && 0 <= b < old(
                            self,
                        ).buf.spec_height() ==> #[trigger] final(self).buf.pixel_at(a, b) == (
                        if step.2 <= a < step.2 + buf.spec_height() && step.3 <= b < step.3
                            + buf.spec_width() && buf.pixel_at(
                            b - step.3,
                            step.2 + buf.spec_height() - 1 - a,
                        ) is Some {
                            buf.pixel_at(b - step.3, step.2 + buf.spec_height() - 1 - a)
                        } else {
                            old(self).buf.pixel_at(a, b)
                        }))
                })
            }),
    {
        let (mut buf_width, mut buf_height) = buf.dimensions();
        buf_width = buf_width + self.margin;
        buf_height = buf_height + self.margin;
        let mut patched_width = buf_width;
        let mut patched_height = buf_height;

        // If the rectangle is the first rectangle on a new open shelf,
        // store it sideways. This is to minimize the height of the new shelf.
        if self.x == 0 {
            if buf_height > buf_width && buf_height <= self.width {
                patched_width = buf_height;
                patched_height = buf_width;
            }
        }
        // If the rectangle fits upright then store it so.
        // This aims to minimize the wasted surface area between the
        // rectangle top side and the shelf ceiling.
        //
        // Otherwise store the rectangle sideways if possible.
         else {
            if buf_width > buf_height && self.x + buf_height <= self.width {
                patched_width = buf_height;
                patched_height = buf_width;
            } else if self.x + buf_width > self.width {
                // Open a new shelf
                self.x = 0;
                self.y = self.y + self.opening_shelf_max_y;
                self.opening_shelf_max_y = 0;
            }
        }

        if self.x + patched_width <= self.width && self.y + patched_height <= self.height {
            if patched_width == buf_width {
                patch(&mut self.buf, self.x, self.y, buf);
            } else {
                patch_rotated(&mut self.buf, self.x, self.y, buf);
            }

            self.x = self.x + patched_width;
            if self.opening_shelf_max_y < patched_height {
                self.opening_shelf_max_y = patched_height;
            }

            Some(
                Rect::new(
                    self.x,
                    self.y,
                    patched_width - self.margin,
                    patched_height - self.margin,
                ),
            )
        } else {
            None
        }
    }

    fn set_margin(&mut self, val: u32)
        ensures
            final(self).buf == old(self).buf,
            final(self).x == old(self).x,
            final(self).y == old(self).y,
            final(self).opening_shelf_max_y == old(self).opening_shelf_max_y,
            final(self).margin == val,
    {
        self.margin = val;
    }

    fn into_buf(self) -> (r: B)
        ensures
            r == self.buf,
    {
        self.buf
    }
}

} // verus!
