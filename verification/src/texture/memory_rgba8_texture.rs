//! Defines an RGBA8-based texture and pixel format.

use vstd::prelude::*;
use crate::texture::{Pixel, Texture};

verus! {

/// [Pixel] format for [MemoryRGBA8Texture].
#[derive(Copy, Clone, Debug, PartialEq, Eq, Structural)]
pub struct RGBA8 {
    /// Red component.
    pub r: u8,
    /// Green component.
    pub g: u8,
    /// Blue component.
    pub b: u8,
    /// Alpha component.
    pub a: u8,
}

impl Pixel for RGBA8 {
    /// A pixel is transparent exactly when its alpha component is zero.
    open spec fn is_transparent_spec(&self) -> bool {
        self.a == 0
    }

    fn is_transparent(&self) -> (r: bool) {
        self.a == 0
    }

    fn transparency() -> (r: Option<Self>)
        ensures
            r == Some(RGBA8 { r: 0, g: 0, b: 0, a: 0 }),
    {
        Some(RGBA8 { r: 0, g: 0, b: 0, a: 0 })
    }

    /// The debug outline color is opaque red.
    open spec fn outline_spec() -> Self {
        RGBA8 { r: 255, g: 0, b: 0, a: 255 }
    }

    fn outline() -> RGBA8 {
        RGBA8 { r: 255, g: 0, b: 0, a: 255 }
    }
}

/// Texture from RGBA8 pixel data, stored row by row.
#[derive(Clone)]
pub struct MemoryRGBA8Texture {
    /// The pixels, row by row from the top.
    pub pixels: Vec<RGBA8>,
    /// Width in pixels.
    pub width: u32,
    /// Height in pixels.
    pub height: u32,
}

/// A coordinate inside the bounds indexes inside the row-major buffer.
pub proof fn lemma_row_major_index(x: int, y: int, w: int, h: int)
    requires
        0 <= x < w,
        0 <= y < h,
    ensures
        0 <= y * w + x < h * w,
{
    assert(y * w + x < h * w) by (nonlinear_arith)
        requires
            0 <= x < w,
            0 <= y < h,
    ;
    assert(0 <= y * w) by (nonlinear_arith)
        requires
            0 <= y,
            0 < w,
    ;
}

impl MemoryRGBA8Texture {
    /// Create a texture from memory given a raw buffer of four bytes per
    /// pixel, rows first.
    pub fn from_memory(buf: &[u8], w: u32, h: u32) -> (r: MemoryRGBA8Texture)
        requires
            w * h <= u32::MAX,
            buf@.len() == 4 * (w * h),
        ensures
            r.wf(),
            r.spec_width() == w,
            r.spec_height() == h,
            forall|x: int, y: int|
                0 <= x < w && 0 <= y < h ==> #[trigger] r.pixel_at(x, y) == Some(
                    RGBA8 {
                        r: buf@[4 * (y * w + x)],
                        g: buf@[4 * (y * w + x) + 1],
                        b: buf@[4 * (y * w + x) + 2],
                        a: buf@[4 * (y * w + x) + 3],
                    },
                ),
    {
        let mut pixels = Vec::new();
        let count = w * h;
        let buf_len = buf.len();
        let mut i: u32 = 0;
        while i < count
            invariant
                count == w * h,
                4 * (w * h) == buf@.len(),
                buf_len == buf@.len(),
                i <= count,
                pixels@.len() == i,
                forall|j: int|
                    0 <= j < i ==> #[trigger] pixels@[j] == (RGBA8 {
                        r: buf@[4 * j],
                        g: buf@[4 * j + 1],
                        b: buf@[4 * j + 2],
                        a: buf@[4 * j + 3],
                    }),
            decreases count - i,
        {
            let base = (i as usize) * 4;
            pixels.push(
                RGBA8 { r: buf[base], g: buf[base + 1], b: buf[base + 2], a: buf[base + 3] },
            );
            i = i + 1;
        }

        let r = MemoryRGBA8Texture { pixels, width: w, height: h };
        proof {
            assert forall|x: int, y: int| 0 <= x < w && 0 <= y < h implies #[trigger] r.pixel_at(
                x,
                y,
            ) == Some(
                RGBA8 {
                    r: buf@[4 * (y * w + x)],
                    g: buf@[4 * (y * w + x) + 1],
                    b: buf@[4 * (y * w + x) + 2],
                    a: buf@[4 * (y * w + x) + 3],
                },
            ) by {
                lemma_row_major_index(x, y, w as int, h as int);
                let j = y * (w as int) + x;
                assert(w * h == h * w) by (nonlinear_arith);
                assert(0 <= j < w * h);
                assert(r.pixels@[j] == (RGBA8 {
                    r: buf@[4 * j],
                    g: buf@[4 * j + 1],
                    b: buf@[4 * j + 2],
                    a: buf@[4 * j + 3],
                }));
            }
        }
        r
    }

    /// Index of a coordinate in the row-major pixel buffer.
    #[inline(always)]
    fn index_for(&self, x: u32, y: u32) -> (r: usize)
        requires
            self.wf(),
            x < self.width,
            y < self.height,
        ensures
            r == y * self.width + x,
            r < self.pixels@.len(),
    {
        proof {
            lemma_row_major_index(x as int, y as int, self.width as int, self.height as int);
            assert((self.height * self.width) as int == (self.width * self.height) as int)
                by (nonlinear_arith);
        }
        (y * self.width + x) as usize
    }
}

impl Texture for MemoryRGBA8Texture {
    type Pixel = RGBA8;

    /// The buffer holds exactly one pixel for each coordinate.
    open spec fn wf(&self) -> bool {
        &&& self.width * self.height <= u32::MAX
        &&& self.pixels@.len() == self.width * self.height
    }

    open spec fn spec_width(&self) -> u32 {
        self.width
    }

    open spec fn spec_height(&self) -> u32 {
        self.height
    }

    open spec fn pixel_at(&self, x: int, y: int) -> Option<RGBA8> {
        if 0 <= x < self.width && 0 <= y < self.height {
            Some(self.pixels@[y * self.width + x])
        } else {
            None
        }
    }

    open spec fn settable(&self, x: int, y: int) -> bool {
        0 <= x < self.width && 0 <= y < self.height
    }

    fn width(&self) -> u32 {
        self.width
    }

    fn height(&self) -> u32 {
        self.height
    }

    fn get(&self, x: u32, y: u32) -> (r: Option<RGBA8>) {
        let index = self.index_for(x, y);
        if index < self.pixels.len() {
            Some(self.pixels[index])
        } else {
            None
        }
    }

    fn set(&mut self, x: u32, y: u32, val: RGBA8) {
        let index = self.index_for(x, y);
        self.pixels[index] = val;
        proof {
            assert(self.pixels@ == old(self).pixels@.update(index as int, val));
            assert forall|a: int, b: int|
                0 <= a < old(self).spec_width() && 0 <= b < old(self).spec_height()
                    implies #[trigger] self.pixel_at(a, b) == (if a == x && b == y {
                Some(val)
            } else {
                old(self).pixel_at(a, b)
            }) by {
                lemma_row_major_index(a, b, self.width as int, self.height as int);
                lemma_row_major_index(x as int, y as int, self.width as int, self.height as int);
                assert(self.width * self.height == self.height * self.width) by (nonlinear_arith);
                if a == x && b == y {
                    assert(self.pixels@[b * self.width + a] == val);
                } else {
                    if b * self.width + a == y * self.width + x {
                        assert(b == y) by (nonlinear_arith)
                            requires
                                b * self.width + a == y * self.width + x,
                                0 <= a < self.width,
                                0 <= x < self.width,
                                0 <= b,
                                0 <= y,
                        ;
                        assert(a == x);
                        assert(false);
                    }
                    assert(self.pixels@[b * self.width + a] == old(self).pixels@[b * self.width
                        + a]);
                }
            }
        }
    }
}

} // verus!
