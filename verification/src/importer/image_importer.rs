//! Imports images of the `image` crate as textures.

use vstd::prelude::*;
use crate::importer::{ImportResult, Importer};

verus! {

/// Importer type for images of the `image` crate.
#[derive(Copy, Clone)]
pub struct ImageImporter;

impl ImageImporter {
    /// Import an image from memory.
    ///
    /// Relies on `image::load_from_memory`: it decodes an encoded image from
    /// the bytes, guessing the format, and reports decoding failures as
    /// errors.
    #[verifier::external_body]
    pub fn import_from_memory(buf: &[u8]) -> ImportResult<image::DynamicImage> {
        match image::load_from_memory(buf) {
            Ok(image) => Ok(image),
            Err(e) => Err(format!("{}", e)),
        }
    }
}

impl<'a> Importer<&'a [u8]> for ImageImporter {
    type Texture = image::DynamicImage;

    fn import(input: &[u8]) -> ImportResult<image::DynamicImage> {
        ImageImporter::import_from_memory(input)
    }
}

} // verus!
