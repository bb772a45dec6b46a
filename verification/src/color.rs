//! Color format tags for pixel buffers.

use vstd::prelude::*;

verus! {

/// The pixel formats a buffer can be created with.
#[derive(Copy, Clone, Debug, PartialEq, Eq, Structural)]
pub enum ColorType {
    /// One grey channel.
    Grey,
    /// Red, green and blue channels.
    RGB,
    /// Red, green, blue and alpha channels.
    RGBA,
}

} // verus!
