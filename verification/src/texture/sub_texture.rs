//! A cropped view of another texture, owned or borrowed.

use vstd::prelude::*;
use crate::rect::Rect;
use crate::texture::Texture;

verus! {

/// A texture that is either owned by its holder or borrowed from elsewhere.
pub enum TextureHold<'a, T> {
    /// The holder owns the texture.
    Owned(T),
    /// The holder borrows the texture.
    Borrowed(&'a T),
}

/// A view of a texture restricted to the `source` rectangle: coordinate
/// `(0, 0)` of the view is `(source.x, source.y)` of the underlying texture.
pub struct SubTexture<'a, T> {
    /// The underlying texture.
    pub texture: TextureHold<'a, T>,
    /// The window onto the underlying texture.
    pub source: Rect,
}

impl<'a, T> SubTexture<'a, T> {
    /// The underlying texture, wherever it is held.
    pub open spec fn inner(self) -> T {
        match self.texture {
            TextureHold::Owned(t) => t,
            TextureHold::Borrowed(t) => *t,
        }
    }

    /// The view owns the underlying texture.
    pub open spec fn is_owned(self) -> bool {
        self.texture is Owned
    }
}

impl<'a, T: Texture> SubTexture<'a, T> {
    /// Wrap an owned texture.
    pub fn new(texture: T, source: Rect) -> (r: SubTexture<'a, T>)
        ensures
            r.inner() == texture,
            r.is_owned(),
            r.source == source,
    {
        SubTexture { texture: TextureHold::Owned(texture), source }
    }

    /// Wrap a borrowed texture.
    pub fn from_ref(texture: &'a T, source: Rect) -> (r: SubTexture<'a, T>)
        ensures
            r.inner() == *texture,
            !r.is_owned(),
            r.source == source,
    {
        SubTexture { texture: TextureHold::Borrowed(texture), source }
    }
}

impl<'a, T: Texture> Texture for SubTexture<'a, T> {
    type Pixel = T::Pixel;

    /// The window denotes real area and lies inside the underlying texture.
    open spec fn wf(&self) -> bool {
        &&& self.inner().wf()
        &&& 1 <= self.source.w
        &&& 1 <= self.source.h
        &&& self.source.x + self.source.w <= self.inner().spec_width()
        &&& self.source.y + self.source.h <= self.inner().spec_height()
    }

    open spec fn spec_width(&self) -> u32 {
        self.source.w
    }

    open spec fn spec_height(&self) -> u32 {
        self.source.h
    }

    open spec fn pixel_at(&self, x: int, y: int) -> Option<T::Pixel> {
        self.inner().pixel_at(self.source.x + x, self.source.y + y)
    }

    open spec fn settable(&self, x: int, y: int) -> bool {
        &&& self.is_owned()
        &&& 0 <= x < self.source.w
        &&& 0 <= y < self.source.h
        &&& self.inner().settable(self.source.x + x, self.source.y + y)
    }

    fn width(&self) -> u32 {
        self.source.w
    }

    fn height(&self) -> u32 {
        self.source.h
    }

    fn get(&self, x: u32, y: u32) -> (r: Option<T::Pixel>) {
        let xt = self.source.x + x;
        let yt = self.source.y + y;
        match &self.texture {
            TextureHold::Owned(t) => t.get(xt, yt),
            TextureHold::Borrowed(t) => t.get(xt, yt),
        }
    }

    fn set(&mut self, x: u32, y: u32, val: T::Pixel) {
        let xt = self.source.x + x;
        let yt = self.source.y + y;
        match &mut self.texture {
            TextureHold::Owned(t) => {
                t.set(xt, yt, val);
            },
            TextureHold::Borrowed(_) => {
                // excluded by this method's precondition: a borrowed view
                // cannot be written through
            },
        }
    }
}

} // verus!
