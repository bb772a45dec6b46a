//! Converting a [Texture](crate::texture::Texture) to arbitrary output data.

use vstd::prelude::*;
use crate::texture::memory_rgba8_texture::RGBA8;
use crate::texture::Texture;

pub use self::image_exporter::ImageExporter;

pub mod image_exporter;

verus! {

/// Result of exporting a texture.
pub type ExportResult<T> = Result<T, String>;

/// Background color settings for sections of the image without regions.
pub struct BackgroundColorSettings {
    /// Color to use on exported image for sections that have no image region pixels.
    pub color: RGBA8,
    /// Threshold for overriding an image region's own pixel with the
    /// background [color](Self::color) when the region pixel's alpha is at or
    /// below it.  With `None` the region's own pixel is written unchanged.
    pub region_transparency_threshold: Option<u8>,
    /// If set, and the threshold test kept the region's own color, replace
    /// its alpha with 255 making it fully opaque.  This is useful to get rid
    /// of leaky transparent border pixels inside a region.
    pub discard_own_alpha_on_threshold_test: bool,
}

/// Converter for a [Texture] to type `Output`.
pub trait Exporter<T: Texture<Pixel = RGBA8>> {
    /// Output type to use.
    type Output;

    /// Export a texture, mapping pixels not covered by any region to the
    /// background policy.
    fn export(texture: &T, background_color: Option<BackgroundColorSettings>) -> (r: ExportResult<
        Self::Output,
    >)
        requires
            texture.wf(),
            4 * (texture.spec_width() * texture.spec_height()) <= u32::MAX,
    ;
}

} // verus!
