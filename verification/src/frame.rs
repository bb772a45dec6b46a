//! Record of where one packed texture ended up inside an atlas page.

use vstd::prelude::*;
use crate::rect::Rect;

verus! {

/// Boundaries and properties of a packed texture.
#[derive(Clone, Debug)]
pub struct Frame {
    /// Key used to uniquely identify this frame.
    pub key: String,
    /// Rectangle describing the texture coordinates and size.
    pub frame: Rect,
    /// True if the texture was rotated during packing.
    /// If it was rotated, it was rotated 90 degrees clockwise.
    pub rotated: bool,
    /// True if the texture was trimmed during packing.
    pub trimmed: bool,
    /// Source texture geometry before any trimming: `(x, y)` is the position
    /// of the trimmed box inside the original image, `(w, h)` is the original
    /// image size.
    pub source: Rect,
}

} // verus!
