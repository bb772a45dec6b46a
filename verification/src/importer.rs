//! Converting arbitrary input data to a [Texture](crate::texture::Texture).

use vstd::prelude::*;

pub use self::image_importer::ImageImporter;

pub mod image_importer;

verus! {

/// Result of importing data and converting it to a texture.
pub type ImportResult<T> = Result<T, String>;

/// Converter for an input type `I` to a texture value.
pub trait Importer<I> {
    /// Texture type produced.
    type Texture;

    /// Import `I` yielding a texture object.
    fn import(input: I) -> ImportResult<Self::Texture>;
}

} // verus!
