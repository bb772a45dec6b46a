//! Traits for a texture and its pixel contents.

use vstd::prelude::*;

pub use self::memory_rgba8_texture::MemoryRGBA8Texture;
pub use self::sub_texture::SubTexture;

pub mod memory_rgba8_texture;
pub mod sub_texture;

verus! {

/// Describes a pixel type.
pub trait Pixel: Sized {
    /// Whether this pixel value counts as transparent.
    spec fn is_transparent_spec(&self) -> bool;

    /// If the pixel is transparent.
    fn is_transparent(&self) -> (r: bool)
        ensures
            r == self.is_transparent_spec(),
    ;

    /// The transparent value for this pixel type, if the format has one.
    fn transparency() -> (r: Option<Self>)
        ensures
            r matches Some(p) ==> p.is_transparent_spec(),
    ;

    /// The outline value, as a specification-level constant.
    spec fn outline_spec() -> Self;

    /// Outline value for this pixel type.
    fn outline() -> (r: Self)
        ensures
            r == Self::outline_spec(),
    ;
}

/// A missing pixel counts as transparent.
pub open spec fn opt_transparent<P: Pixel>(p: Option<P>) -> bool {
    match p {
        Option::None => true,
        Option::Some(q) => q.is_transparent_spec(),
    }
}

/// Every pixel of the column is transparent.
pub open spec fn spec_column_transparent<T: Texture + ?Sized>(t: &T, col: int) -> bool {
    forall|y: int| 0 <= y < t.spec_height() ==> opt_transparent(#[trigger] t.pixel_at(col, y))
}

/// Every pixel of the row is transparent.
pub open spec fn spec_row_transparent<T: Texture + ?Sized>(t: &T, row: int) -> bool {
    forall|x: int| 0 <= x < t.spec_width() ==> opt_transparent(#[trigger] t.pixel_at(x, row))
}

/// Some pixel of the texture is not transparent.
pub open spec fn spec_has_opaque_pixel<T: Texture + ?Sized>(t: &T) -> bool {
    exists|x: int, y: int|
        0 <= x < t.spec_width() && 0 <= y < t.spec_height() && !opt_transparent(
            #[trigger] t.pixel_at(x, y),
        )
}

/// Describes a texture type.
pub trait Texture {
    /// Pixel type of this texture.
    type Pixel: Pixel;

    /// The texture's internal bookkeeping is consistent.
    spec fn wf(&self) -> bool;

    /// Width in pixels.
    spec fn spec_width(&self) -> u32;

    /// Height in pixels.
    spec fn spec_height(&self) -> u32;

    /// The pixel stored at a coordinate; meaningful inside the texture's
    /// bounds.
    spec fn pixel_at(&self, x: int, y: int) -> Option<Self::Pixel>;

    /// Coordinates whose pixel this texture can overwrite.
    spec fn settable(&self, x: int, y: int) -> bool;

    /// Get the width of this texture.
    fn width(&self) -> (r: u32)
        requires
            self.wf(),
        ensures
            r == self.spec_width(),
    ;

    /// Get the height of this texture.
    fn height(&self) -> (r: u32)
        requires
            self.wf(),
        ensures
            r == self.spec_height(),
    ;

    /// Get the pixel value at a specific coordinate.
    fn get(&self, x: u32, y: u32) -> (r: Option<Self::Pixel>)
        requires
            self.wf(),
            x < self.spec_width(),
            y < self.spec_height(),
        ensures
            r == self.pixel_at(x as int, y as int),
    ;

    /// Set the pixel value at a specific coordinate.
    fn set(&mut self, x: u32, y: u32, val: Self::Pixel)
        requires
            old(self).wf(),
            old(self).settable(x as int, y as int),
        ensures
            final(self).wf(),
            final(self).spec_width() == old(self).spec_width(),
            final(self).spec_height() == old(self).spec_height(),
            forall|a: int, b: int|
                #[trigger] final(self).settable(a, b) == old(self).settable(a, b),
            forall|a: int, b: int|
                0 <= a < old(self).spec_width() && 0 <= b < old(self).spec_height()
                    ==> #[trigger] final(self).pixel_at(a, b) == (if a == x && b == y {
                    Some(val)
                } else {
                    old(self).pixel_at(a, b)
                }),
    ;

    /// Get the pixel if it were transformed by a rotation.
    fn get_rotated(&self, x: u32, y: u32) -> (r: Option<Self::Pixel>)
        requires
            self.wf(),
            x < self.spec_height(),
            y < self.spec_width(),
        ensures
            r == self.pixel_at(y as int, self.spec_height() - x - 1),
    {
        let w = self.height();
        self.get(y, w - x - 1)
    }

    /// Check if a column of the texture is transparent.
    fn is_column_transparent(&self, col: u32) -> (r: bool)
        requires
            self.wf(),
            col < self.spec_width(),
        ensures
            r == (forall|b: int|
                0 <= b < self.spec_height() ==> opt_transparent(
                    #[trigger] self.pixel_at(col as int, b),
                )),
    {
        let h = self.height();
        let mut y: u32 = 0;
        while y < h
            invariant
                self.wf(),
                col < self.spec_width(),
                h == self.spec_height(),
                y <= h,
                forall|b: int| 0 <= b < y ==> opt_transparent(#[trigger] self.pixel_at(col as int, b)),
            decreases h - y,
        {
            if let Some(p) = self.get(col, y) {
                if !p.is_transparent() {
                    return false;
                }
            }
            y = y + 1;
        }
        true
    }

    /// Check if a row of the texture is transparent.
    fn is_row_transparent(&self, row: u32) -> (r: bool)
        requires
            self.wf(),
            row < self.spec_height(),
        ensures
            r == (forall|a: int|
                0 <= a < self.spec_width() ==> opt_transparent(
                    #[trigger] self.pixel_at(a, row as int),
                )),
    {
        let w = self.width();
        let mut x: u32 = 0;
        while x < w
            invariant
                self.wf(),
                row < self.spec_height(),
                w == self.spec_width(),
                x <= w,
                forall|a: int| 0 <= a < x ==> opt_transparent(#[trigger] self.pixel_at(a, row as int)),
            decreases w - x,
        {
            if let Some(p) = self.get(x, row) {
                if !p.is_transparent() {
                    return false;
                }
            }
            x = x + 1;
        }
        true
    }
}

} // verus!
