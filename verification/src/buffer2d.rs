//! A two-dimensional pixel buffer and the packing interface built on it.

use vstd::prelude::*;
use crate::rect::Rect;
use crate::texture::memory_rgba8_texture::{MemoryRGBA8Texture, RGBA8};
use crate::texture::Texture;

verus! {

/// A mutable two-dimensional pixel buffer.
pub trait Buffer2d: Sized {
    /// Pixel type of this buffer.
    type Pixel;

    /// The buffer's internal bookkeeping is consistent.
    spec fn wf(&self) -> bool;

    /// Width in pixels.
    spec fn spec_width(&self) -> u32;

    /// Height in pixels.
    spec fn spec_height(&self) -> u32;

    /// The pixel stored at a coordinate; meaningful inside the bounds.
    spec fn pixel_at(&self, x: int, y: int) -> Option<Self::Pixel>;

    /// Coordinates whose pixel this buffer can overwrite.
    spec fn settable(&self, x: int, y: int) -> bool;

    /// Get the width of this buffer.
    fn width(&self) -> (r: u32)
        requires
            self.wf(),
        ensures
            r == self.spec_width(),
    ;

    /// Get the height of this buffer.
    fn height(&self) -> (r: u32)
        requires
            self.wf(),
        ensures
            r == self.spec_height(),
    ;

    /// Get the pixel value at a specific coordinate.
    fn get(&self, x: u32, y: u32) -> (r: Option<Self::Pixel>)
        requires
            self.wf(),
            x < self.spec_width(),
            y < self.spec_height(),
        ensures
            r == self.pixel_at(x as int, y as int),
    ;

    /// Set the pixel value at a specific coordinate.
    fn set(&mut self, x: u32, y: u32, val: Self::Pixel)
        requires
            old(self).wf(),
            old(self).settable(x as int, y as int),
        ensures
            final(self).wf(),
            final(self).spec_width() == old(self).spec_width(),
            final(self).spec_height() == old(self).spec_height(),
            forall|a: int, b: int|
                #[trigger] final(self).settable(a, b) == old(self).settable(a, b),
            forall|a: int, b: int|
                0 <= a < old(self).spec_width() && 0 <= b < old(self).spec_height()
                    ==> #[trigger] final(self).pixel_at(a, b) == (if a == x && b == y {
                    Some(val)
                } else {
                    old(self).pixel_at(a, b)
                }),
    ;

    /// Width and height as a pair.
    fn dimensions(&self) -> (r: (u32, u32))
        requires
            self.wf(),
        ensures
            r.0 == self.spec_width(),
            r.1 == self.spec_height(),
    {
        (self.width(), self.height())
    }
}

/// A packer that copies source buffers into a destination buffer it owns,
/// remembering where each one went.
pub trait Packer: Sized {
    /// The destination buffer type.
    type Buffer: Buffer2d;

    /// The packer's internal bookkeeping is consistent.
    spec fn wf(&self) -> bool;

    /// A buffer of this size can go through the packer's arithmetic.
    spec fn req_ok(&self, w: int, h: int) -> bool;

    /// The destination buffer is fit to build a packer around.
    spec fn new_req(buf: &Self::Buffer) -> bool;

    /// Create a packer around an empty destination buffer.
    fn new(buf: Self::Buffer) -> (r: Self)
        requires
            Self::new_req(&buf),
        ensures
            r.wf(),
    ;

    /// The destination buffer.
    fn buf(&self) -> &Self::Buffer;

    /// Copy `buf` into the destination at a free spot and return where it
    /// went; `None` if it does not fit.
    fn pack<O: Buffer2d<Pixel = <Self::Buffer as Buffer2d>::Pixel>>(&mut self, buf: &O) -> (r:
        Option<Rect>)
        requires
            old(self).wf(),
            buf.wf(),
            old(self).req_ok(buf.spec_width() as int, buf.spec_height() as int),
        ensures
            final(self).wf(),
    ;

    /// Reserve `val` pixels of empty margin around every packed buffer.
    fn set_margin(&mut self, val: u32)
        requires
            old(self).wf(),
        ensures
            final(self).wf(),
    ;

    /// Take the destination buffer out of the packer.
    fn into_buf(self) -> Self::Buffer;
}

/// An in-memory RGBA8 destination buffer for the buffer-based packers.
pub struct MemoryBuffer {
    /// The pixel store.
    pub texture: MemoryRGBA8Texture,
}

impl MemoryBuffer {
    /// Wrap a pixel store as a destination buffer.
    pub fn new(texture: MemoryRGBA8Texture) -> (r: MemoryBuffer)
        ensures
            r.texture == texture,
    {
        MemoryBuffer { texture }
    }
}

impl Buffer2d for MemoryBuffer {
    type Pixel = RGBA8;

    open spec fn wf(&self) -> bool {
        self.texture.wf()
    }

    open spec fn spec_width(&self) -> u32 {
        self.texture.spec_width()
    }

    open spec fn spec_height(&self) -> u32 {
        self.texture.spec_height()
    }

    open spec fn pixel_at(&self, x: int, y: int) -> Option<RGBA8> {
        self.texture.pixel_at(x, y)
    }

    open spec fn settable(&self, x: int, y: int) -> bool {
        self.texture.settable(x, y)
    }

    fn width(&self) -> u32 {
        self.texture.width()
    }

    fn height(&self) -> u32 {
        self.texture.height()
    }

    fn get(&self, x: u32, y: u32) -> (r: Option<RGBA8>) {
        self.texture.get(x, y)
    }

    fn set(&mut self, x: u32, y: u32, val: RGBA8) {
        self.texture.set(x, y, val);
    }

}

/// Copy every present pixel of `buf` into `dst`, with `buf`'s origin at
/// `(x, y)`.
pub fn patch<S: Buffer2d, O: Buffer2d<Pixel = S::Pixel>>(dst: &mut S, x: u32, y: u32, buf: &O)
    requires
        old(dst).wf(),
        buf.wf(),
        x + buf.spec_width() <= old(dst).spec_width(),
        y + buf.spec_height() <= old(dst).spec_height(),
        forall|a: int, b: int|
            x <= a < x + buf.spec_width() && y <= b < y + buf.spec_height() ==> old(dst).settable(
                a,
                b,
            ),
    ensures
        final(dst).wf(),
        final(dst).spec_width() == old(dst).spec_width(),
        final(dst).spec_height() == old(dst).spec_height(),
        forall|a: int, b: int| #[trigger] final(dst).settable(a, b) == old(dst).settable(a, b),
        forall|a: int, b: int|
            0 <= a < old(dst).spec_width() && 0 <= b < old(dst).spec_height()
                ==> #[trigger] final(dst).pixel_at(a, b) == (if x <= a < x + buf.spec_width() && y
                <= b < y + buf.spec_height() && buf.pixel_at(a - x, b - y) is Some {
                buf.pixel_at(a - x, b - y)
            } else {
                old(dst).pixel_at(a, b)
            }),
    {
        let w = buf.width();
        let h = buf.height();
        let mut sy: u32 = 0;
        while sy < h
            invariant
                dst.wf(),
                buf.wf(),
                w == buf.spec_width(),
                h == buf.spec_height(),
                x + w <= old(dst).spec_width(),
                y + h <= old(dst).spec_height(),
                dst.spec_width() == old(dst).spec_width(),
                dst.spec_height() == old(dst).spec_height(),
                forall|a: int, b: int|
                    #[trigger] dst.settable(a, b) == old(dst).settable(a, b),
                forall|a: int, b: int|
                    x <= a < x + w && y <= b < y + h ==> old(dst).settable(a, b),
                sy <= h,
                forall|a: int, b: int|
                    0 <= a < old(dst).spec_width() && 0 <= b < old(dst).spec_height()
                        ==> #[trigger] dst.pixel_at(a, b) == (if x <= a < x + w && y <= b < y
                        + sy && buf.pixel_at(a - x, b - y) is Some {
                        buf.pixel_at(a - x, b - y)
                    } else {
                        old(dst).pixel_at(a, b)
                    }),
            decreases h - sy,
        {
            let mut sx: u32 = 0;
            while sx < w
                invariant
                    dst.wf(),
                    buf.wf(),
                    w == buf.spec_width(),
                    h == buf.spec_height(),
                    x + w <= old(dst).spec_width(),
                    y + h <= old(dst).spec_height(),
                    dst.spec_width() == old(dst).spec_width(),
                    dst.spec_height() == old(dst).spec_height(),
                    forall|a: int, b: int|
                        #[trigger] dst.settable(a, b) == old(dst).settable(a, b),
                    forall|a: int, b: int|
                        x <= a < x + w && y <= b < y + h ==> old(dst).settable(a, b),
                    sy < h,
                    sx <= w,
                    forall|a: int, b: int|
                        0 <= a < old(dst).spec_width() && 0 <= b < old(dst).spec_height()
                            ==> #[trigger] dst.pixel_at(a, b) == (if x <= a < x + w && ((y <= b
                            < y + sy) || (b == y + sy && x <= a < x + sx)) && buf.pixel_at(
                            a - x,
                            b - y,
                        ) is Some {
                            buf.pixel_at(a - x, b - y)
                        } else {
                            old(dst).pixel_at(a, b)
                        }),
                decreases w - sx,
            {
                match buf.get(sx, sy) {
                    Some(val) => {
                        dst.set(x + sx, y + sy, val);
                    },
                    _ => {},
                }
                sx = sx + 1;
            }
            sy = sy + 1;
        }
    }


/// Copy every present pixel of `buf` into `dst` turned 90 degrees
/// clockwise, with the turned image's origin at `(x, y)`.
pub fn patch_rotated<S: Buffer2d, O: Buffer2d<Pixel = S::Pixel>>(
    dst: &mut S,
    x: u32,
    y: u32,
    buf: &O,
)
    requires
        old(dst).wf(),
        buf.wf(),
        x + buf.spec_height() <= old(dst).spec_width(),
        y + buf.spec_width() <= old(dst).spec_height(),
        forall|a: int, b: int|
            x <= a < x + buf.spec_height() && y <= b < y + buf.spec_width() ==> old(dst).settable(
                a,
                b,
            ),
    ensures
        final(dst).wf(),
        final(dst).spec_width() == old(dst).spec_width(),
        final(dst).spec_height() == old(dst).spec_height(),
        forall|a: int, b: int| #[trigger] final(dst).settable(a, b) == old(dst).settable(a, b),
        forall|a: int, b: int|
            0 <= a < old(dst).spec_width() && 0 <= b < old(dst).spec_height()
                ==> #[trigger] final(dst).pixel_at(a, b) == (if x <= a < x + buf.spec_height() && y
                <= b < y + buf.spec_width() && buf.pixel_at(
                b - y,
                x + buf.spec_height() - 1 - a,
            ) is Some {
                buf.pixel_at(b - y, x + buf.spec_height() - 1 - a)
            } else {
                old(dst).pixel_at(a, b)
            }),
    {
        let w = buf.width();
        let h = buf.height();
        let mut sy: u32 = 0;
        while sy < h
            invariant
                dst.wf(),
                buf.wf(),
                w == buf.spec_width(),
                h == buf.spec_height(),
                x + h <= old(dst).spec_width(),
                y + w <= old(dst).spec_height(),
                dst.spec_width() == old(dst).spec_width(),
                dst.spec_height() == old(dst).spec_height(),
                forall|a: int, b: int|
                    #[trigger] dst.settable(a, b) == old(dst).settable(a, b),
                forall|a: int, b: int|
                    x <= a < x + h && y <= b < y + w ==> old(dst).settable(a, b),
                sy <= h,
                forall|a: int, b: int|
                    0 <= a < old(dst).spec_width() && 0 <= b < old(dst).spec_height()
                        ==> #[trigger] dst.pixel_at(a, b) == (if x + h - sy <= a < x + h && y
                        <= b < y + w && buf.pixel_at(b - y, x + h - 1 - a) is Some {
                        buf.pixel_at(b - y, x + h - 1 - a)
                    } else {
                        old(dst).pixel_at(a, b)
                    }),
            decreases h - sy,
        {
            let mut sx: u32 = 0;
            while sx < w
                invariant
                    dst.wf(),
                    buf.wf(),
                    w == buf.spec_width(),
                    h == buf.spec_height(),
                    x + h <= old(dst).spec_width(),
                    y + w <= old(dst).spec_height(),
                    dst.spec_width() == old(dst).spec_width(),
                    dst.spec_height() == old(dst).spec_height(),
                    forall|a: int, b: int|
                        #[trigger] dst.settable(a, b) == old(dst).settable(a, b),
                    forall|a: int, b: int|
                        x <= a < x + h && y <= b < y + w ==> old(dst).settable(a, b),
                    sy < h,
                    sx <= w,
                    forall|a: int, b: int|
                        0 <= a < old(dst).spec_width() && 0 <= b < old(dst).spec_height()
                            ==> #[trigger] dst.pixel_at(a, b) == (if ((x + h - sy <= a < x + h
                            && y <= b < y + w) || (a == x + h - sy - 1 && y <= b < y + sx))
                            && buf.pixel_at(b - y, x + h - 1 - a) is Some {
                            buf.pixel_at(b - y, x + h - 1 - a)
                        } else {
                            old(dst).pixel_at(a, b)
                        }),
                decreases w - sx,
            {
                match buf.get(sx, sy) {
                    Some(val) => {
                        dst.set(x + h - sy - 1, y + sx, val);
                    },
                    _ => {},
                }
                sx = sx + 1;
            }
            sy = sy + 1;
        }
    }


} // verus!
