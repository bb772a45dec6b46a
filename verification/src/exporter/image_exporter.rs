//! Exports a texture as an image of the `image` crate.

use vstd::prelude::*;
use crate::exporter::{BackgroundColorSettings, ExportResult, Exporter};
use crate::texture::memory_rgba8_texture::{lemma_row_major_index, RGBA8};
use crate::texture::Texture;

verus! {

/// `image::DynamicImage`, declared so that library signatures can carry it.
/// Values of it are opaque to the verifier.
#[verifier::external_type_specification]
#[verifier::external_body]
pub struct ExDynamicImage(image::DynamicImage);

/// The color written for one coordinate of the exported image: the
/// texture's own pixel, or the background policy's answer where the texture
/// has none or where its alpha falls under the threshold.
pub open spec fn spec_export_pixel<T: Texture<Pixel = RGBA8>>(
    t: &T,
    bg: Option<BackgroundColorSettings>,
    x: int,
    y: int,
) -> RGBA8 {
    match bg {
        None => match t.pixel_at(x, y) {
            Some(p) => p,
            None => RGBA8 { r: 0, g: 0, b: 0, a: 0 },
        },
        Some(b) => match t.pixel_at(x, y) {
            Some(p) => match b.region_transparency_threshold {
                Some(thr) => if p.a <= thr {
                    b.color
                } else if b.discard_own_alpha_on_threshold_test {
                    RGBA8 { r: p.r, g: p.g, b: p.b, a: 255 }
                } else {
                    p
                },
                None => p,
            },
            None => b.color,
        },
    }
}

/// The raw bytes an image was built from, four per pixel in row-major
/// order.  What they are for a given image is known only through the
/// contract of [rgba_image_from_raw], which created the image.
pub uninterp spec fn image_pixel_bytes(img: image::DynamicImage) -> Seq<u8>;

/// Relies on `image::ImageBuffer::from_raw` and
/// `image::DynamicImage::ImageRgba8`: `from_raw` returns `Some` exactly when
/// the container holds at least `4 * width * height` bytes, it stores the
/// handed container unchanged, and the constructor only wraps the buffer.
#[verifier::external_body]
fn rgba_image_from_raw(width: u32, height: u32, pixels: Vec<u8>) -> (r: Option<
    image::DynamicImage,
>)
    ensures
        r is Some <==> 4 * (width * height) <= pixels@.len(),
        r matches Some(img) ==> image_pixel_bytes(img) == pixels@,
{
    image::ImageBuffer::<image::Rgba<u8>, Vec<u8>>::from_raw(width, height, pixels).map(
        image::DynamicImage::ImageRgba8,
    )
}

/// Gather the exported image's bytes row by row, four bytes per pixel.
fn build_export_pixels<T: Texture<Pixel = RGBA8>>(
    texture: &T,
    background_color: &Option<BackgroundColorSettings>,
) -> (pixels: Vec<u8>)
    requires
        texture.wf(),
        4 * (texture.spec_width() * texture.spec_height()) <= u32::MAX,
    ensures
        pixels@.len() == 4 * (texture.spec_width() * texture.spec_height()),
        forall|x: int, y: int|
            0 <= x < texture.spec_width() && 0 <= y < texture.spec_height() ==> {
                let p = #[trigger] spec_export_pixel(texture, *background_color, x, y);
                let base = 4 * (y * texture.spec_width() + x);
                &&& pixels@[base] == p.r
                &&& pixels@[base + 1] == p.g
                &&& pixels@[base + 2] == p.b
                &&& pixels@[base + 3] == p.a
            },
{
    let ghost w = texture.spec_width() as int;
    let ghost h = texture.spec_height() as int;
    let width = texture.width();
    let height = texture.height();
    let mut pixels: Vec<u8> = Vec::new();
    let mut row: u32 = 0;
    while row < height
        invariant
            texture.wf(),
            w == texture.spec_width() as int,
            h == texture.spec_height() as int,
            width == texture.spec_width(),
            height == texture.spec_height(),
            4 * (w * h) <= u32::MAX,
            row <= height,
            pixels@.len() == 4 * (row * w),
            forall|x: int, y: int|
                0 <= x < w && 0 <= y < row ==> {
                    let p = #[trigger] spec_export_pixel(texture, *background_color, x, y);
                    let base = 4 * (y * w + x);
                    &&& pixels@[base] == p.r
                    &&& pixels@[base + 1] == p.g
                    &&& pixels@[base + 2] == p.b
                    &&& pixels@[base + 3] == p.a
                },
        decreases height - row,
    {
        let mut col: u32 = 0;
        proof {
            assert((row + 1) * w == row * w + w) by (nonlinear_arith);
        }
        while col < width
            invariant
                texture.wf(),
                w == texture.spec_width() as int,
                h == texture.spec_height() as int,
                width == texture.spec_width(),
                height == texture.spec_height(),
                4 * (w * h) <= u32::MAX,
                row < height,
                col <= width,
                (row + 1) * w == row * w + w,
                h * w == w * h,
                pixels@.len() == 4 * (row * w + col),
                forall|x: int, y: int|
                    (0 <= x < w && 0 <= y < row) || (y == row && 0 <= x < col) ==> {
                        let p = #[trigger] spec_export_pixel(texture, *background_color, x, y);
                        let base = 4 * (y * w + x);
                        &&& pixels@[base] == p.r
                        &&& pixels@[base + 1] == p.g
                        &&& pixels@[base + 2] == p.b
                        &&& pixels@[base + 3] == p.a
                    },
            decreases width - col,
        {
            proof {
                lemma_row_major_index(col as int, row as int, w, h);
            }
            let own = texture.get(col, row);
            let chosen: RGBA8 = match background_color {
                None => match own {
                    Some(p) => p,
                    None => RGBA8 { r: 0, g: 0, b: 0, a: 0 },
                },
                Some(bg) => match own {
                    Some(p) => match bg.region_transparency_threshold {
                        Some(rthresh) => if p.a <= rthresh {
                            // override region's own color with background color
                            bg.color
                        } else if bg.discard_own_alpha_on_threshold_test {
                            // the threshold test failed, but we don't want the
                            // image region to have any transparent pixels
                            RGBA8 { r: p.r, g: p.g, b: p.b, a: 255 }
                        } else {
                            p
                        },
                        None => p,
                    },
                    None => bg.color,
                },
            };
            pixels.push(chosen.r);
            pixels.push(chosen.g);
            pixels.push(chosen.b);
            pixels.push(chosen.a);
            proof {
                let base_new = 4 * (row * w + col);
                assert(pixels@.len() == base_new + 4);
                assert forall|x: int, y: int|
                    (0 <= x < w && 0 <= y < row) || (y == row && 0 <= x < col + 1) implies {
                    let p = #[trigger] spec_export_pixel(texture, *background_color, x, y);
                    let base = 4 * (y * w + x);
                    &&& pixels@[base] == p.r
                    &&& pixels@[base + 1] == p.g
                    &&& pixels@[base + 2] == p.b
                    &&& pixels@[base + 3] == p.a
                } by {
                    if y == row && x == col {
                        assert(pixels@[base_new] == chosen.r);
                        assert(pixels@[base_new + 1] == chosen.g);
                        assert(pixels@[base_new + 2] == chosen.b);
                        assert(pixels@[base_new + 3] == chosen.a);
                    } else {
                        if y < row {
                            assert(y * w + x < row * w) by (nonlinear_arith)
                                requires
                                    0 <= x < w,
                                    0 <= y < row,
                            ;
                        }
                        assert(4 * (y * w + x) + 4 <= base_new);
                    }
                }
            }
            col = col + 1;
        }
        row = row + 1;
    }
    proof {
        assert(h * w == w * h) by (nonlinear_arith);
    }
    pixels
}

/// Exporter type for images of the `image` crate.
#[derive(Copy, Clone)]
pub struct ImageExporter;

impl<T: Texture<Pixel = RGBA8>> Exporter<T> for ImageExporter {
    type Output = image::DynamicImage;

    fn export(texture: &T, background_color: Option<BackgroundColorSettings>) -> (r: ExportResult<
        image::DynamicImage,
    >)
        ensures
            (r is Ok) <==> (texture.spec_width() > 0 && texture.spec_height() > 0),
            r matches Ok(img) ==> ({
                let w = texture.spec_width();
                let h = texture.spec_height();
                &&& image_pixel_bytes(img).len() == 4 * (w * h)
                &&& forall|x: int, y: int|
                    0 <= x < w && 0 <= y < h ==> {
                        let p = #[trigger] spec_export_pixel(texture, background_color, x, y);
                        let base = 4 * (y * w + x);
                        &&& image_pixel_bytes(img)[base] == p.r
                        &&& image_pixel_bytes(img)[base + 1] == p.g
                        &&& image_pixel_bytes(img)[base + 2] == p.b
                        &&& image_pixel_bytes(img)[base + 3] == p.a
                    }
            }),
    {
        let width = texture.width();
        let height = texture.height();

        if width == 0 || height == 0 {
            return Err("Width or height of this texture is zero".to_owned());
        }
        let pixels = build_export_pixels(texture, &background_color);

        if let Some(image) = rgba_image_from_raw(width, height, pixels) {
            Ok(image)
        } else {
            proof {
                assert(false);
            }
            Err("Can't export texture".to_owned())
        }
    }
}

} // verus!
