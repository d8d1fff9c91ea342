//! Preview images: a cached asset's bytes decoded by the image crate and
//! scaled down before they are uploaded as a texture, which bounds the
//! video memory a preview takes.
use vstd::prelude::*;
use image::{DynamicImage, ImageError};

verus! {

#[verifier::external_type_specification]
#[verifier::external_body]
pub struct ExImageError(ImageError);

/// Whether the image crate decodes `data`: it recognises the format from
/// the first bytes and the decoder for that format accepts the rest.
pub uninterp spec fn image_decodes(data: Seq<u8>) -> bool;

/// The width, height and 8-bit RGBA samples of the image that the image
/// crate decodes from `data` (`load_from_memory`, then `to_rgba8`); they
/// depend on the bytes alone.
pub uninterp spec fn decoded_rgba(data: Seq<u8>) -> (u32, u32, Seq<u8>);

/// The width, height and 8-bit RGBA samples of the `width` by `height`
/// RGBA image held in `pixels` once the image crate's `thumbnail` has scaled
/// it to fit within `edge` by `edge`; they depend on these values alone.
pub uninterp spec fn rgba_thumbnail(width: u32, height: u32, pixels: Seq<u8>, edge: u32) -> (u32, u32, Seq<u8>);

/// Calls `image::load_from_memory` and turns the image into 8-bit RGBA with
/// `DynamicImage::to_rgba8`, handing the buffer out as its width, height and
/// raw samples. Claimed: the call succeeds exactly when
/// `image_decodes(data)`; what it gives is `decoded_rgba(data)`; and the
/// samples hold at least four bytes for each pixel, which every image
/// buffer of the crate keeps.
#[verifier::external_body]
fn decode_rgba8(data: &[u8]) -> (r: Result<(u32, u32, Vec<u8>), ImageError>)
    ensures
        r is Ok <==> image_decodes(data@),
        r matches Ok(d) ==> (d.0, d.1, d.2@) == decoded_rgba(data@) && d.2@.len() >= 4 * d.0 * d.1,
{
    let rgba = image::load_from_memory(data)?.to_rgba8();
    Ok((rgba.width(), rgba.height(), rgba.into_raw()))
}

/// Calls `DynamicImage::thumbnail` on the `width` by `height` RGBA image held
/// in `pixels`, which scales it, keeping its aspect ratio, to the largest
/// size within `edge` by `edge`, and never below one pixel on an edge.
/// Claimed: what it gives is `rgba_thumbnail` of the arguments; it fits
/// within the edge when the edge is at least one; and its samples hold at
/// least four bytes for each pixel. The samples cover the image, so the
/// buffer is always built. The image is scaled down (one edge exceeds
/// `edge`), so the new buffer is no larger on an edge than the image or one
/// pixel, and it fits in memory's address range when the image has no empty
/// edge, or, when it has one, when four bytes for each of `edge` pixels do.
#[verifier::external_body]
fn thumbnail_rgba8(width: u32, height: u32, pixels: Vec<u8>, edge: u32) -> (r: (u32, u32, Vec<u8>))
    requires
        pixels@.len() >= 4 * width * height,
        4 * width * height <= usize::MAX,
        width > edge || height > edge,
        width == 0 || height == 0 ==> 4 * edge <= usize::MAX,
    ensures
        (r.0, r.1, r.2@) == rgba_thumbnail(width, height, pixels@, edge),
        edge >= 1 ==> r.0 <= edge && r.1 <= edge,
        r.2@.len() >= 4 * r.0 * r.1,
{
    let buffer = image::RgbaImage::from_raw(width, height, pixels).unwrap_or_default();
    let small = DynamicImage::ImageRgba8(buffer).thumbnail(edge, edge).into_rgba8();
    (small.width(), small.height(), small.into_raw())
}

/// Calls `ImageError`'s `Display` through `to_string`. Nothing is claimed of
/// the text.
#[verifier::external_body]
fn image_error_text(error: &ImageError) -> String {
    error.to_string()
}

/// A decoded preview: 8-bit RGBA samples, row by row.
#[derive(Debug, PartialEq)]
pub struct PreviewImage {
    pub width: u32,
    pub height: u32,
    pub pixels: Vec<u8>,
}

impl PreviewImage {
    /// The samples are exactly four bytes for each pixel.
    pub open spec fn wf(&self) -> bool {
        self.pixels@.len() == 4 * self.width * self.height
    }
}

/// An image of `width` by `height` is scaled down when a limit is given and
/// one of its edges exceeds it.
pub fn needs_downscale(width: u32, height: u32, max_dimension: Option<u32>) -> (r: bool)
    ensures
        r == match max_dimension {
            Some(m) => width > m || height > m,
            None => false,
        },
{
    match max_dimension {
        Some(m) => width > m || height > m,
        None => false,
    }
}

/// The preview made from `data`: the decoded image, or its thumbnail when
/// a limit is given and one of its edges exceeds it, with exactly four
/// bytes of samples for each pixel.
pub open spec fn spec_preview(data: Seq<u8>, max_dimension: Option<u32>) -> (u32, u32, Seq<u8>) {
    let d = decoded_rgba(data);
    let t = match max_dimension {
        Some(m) => if d.0 > m || d.1 > m {
            rgba_thumbnail(d.0, d.1, d.2, m)
        } else {
            d
        },
        None => d,
    };
    (t.0, t.1, t.2.subrange(0, 4 * t.0 * t.1))
}

/// A limit on a preview's edge for which four bytes for each of its pixels
/// fit in memory's address range: every limit on a 64-bit target. The image
/// crate's thumbnail of an image with an empty edge is one pixel high (or
/// wide) and as long as the limit, and its allocation overflows past that.
pub open spec fn limit_fits(max_dimension: Option<u32>) -> bool {
    max_dimension matches Some(m) ==> 4 * m <= usize::MAX
}

/// The preview fits within `max_dimension` on each edge, when a limit of at
/// least one is given.
pub open spec fn fits(p: PreviewImage, max_dimension: Option<u32>) -> bool {
    match max_dimension {
        Some(m) => m >= 1 ==> p.width <= m && p.height <= m,
        None => true,
    }
}

/// Decodes `data` for a preview, scaling it down to fit within
/// `max_dimension` on each edge when it exceeds it, and keeping its size
/// otherwise. Fails, with the image crate's message, exactly when the bytes
/// do not decode. The limit is one for which `limit_fits` holds, as the
/// image crate's thumbnail of an image with an empty edge needs.
pub fn decode_preview(data: &[u8], max_dimension: Option<u32>) -> (r: Result<PreviewImage, String>)
    requires
        limit_fits(max_dimension),
    ensures
        r is Ok <==> image_decodes(data@),
        r matches Ok(p) ==> p.wf() && (p.width, p.height, p.pixels@) == spec_preview(data@, max_dimension) && fits(
            p,
            max_dimension,
        ),
{
    match decode_rgba8(data) {
        Err(e) => Err(image_error_text(&e)),
        Ok((w, h, samples)) => {
            let sample_count = samples.len();
            let (width, height, mut pixels) = if needs_downscale(w, h, max_dimension) {
                let m = max_dimension.unwrap();
                assert(4 * w * h <= sample_count);
                thumbnail_rgba8(w, h, samples, m)
            } else {
                (w, h, samples)
            };
            let len = pixels.len();
            assert((width as int) * (height as int) * 4 <= len) by (nonlinear_arith)
                requires
                    4 * width * height <= len,
            ;
            let area = (width as usize) * (height as usize);
            let n = area * 4;
            let ghost all = pixels@;
            pixels.truncate(n);
            assert(pixels@.len() == 4 * width * height) by (nonlinear_arith)
                requires
                    pixels@.len() == (width as int) * (height as int) * 4,
            ;
            assert(pixels@ =~= all.subrange(0, 4 * width * height));
            Ok(PreviewImage { width, height, pixels })
        },
    }
}

/// What loading a preview found.
pub enum LoadedImage<T> {
    /// The texture was cached; it is now the most recently used.
    Cached(T),
    /// The decoded image, to be uploaded and then inserted in the cache.
    Decoded(PreviewImage),
}

/// Loads a preview: the texture found in the cache, if any (see
/// `get_cached_texture`), else the asset's bytes `data` decoded and scaled
/// down to `max_dimension`. The caller uploads a decoded image and inserts
/// the texture in the cache.
pub fn load_image<T>(cached: Option<T>, data: &[u8], max_dimension: Option<u32>) -> (r: Result<LoadedImage<T>, String>)
    requires
        cached is None ==> limit_fits(max_dimension),
    ensures
        match cached {
            Some(t) => r == Ok::<LoadedImage<T>, String>(LoadedImage::Cached(t)),
            None => {
                &&& r is Ok <==> image_decodes(data@)
                &&& r matches Ok(l) ==> (l matches LoadedImage::Decoded(p) && p.wf() && (p.width, p.height, p.pixels@)
                    == spec_preview(data@, max_dimension) && fits(p, max_dimension))
            },
        },
{
    match cached {
        Some(texture) => Ok(LoadedImage::Cached(texture)),
        None => match decode_preview(data, max_dimension) {
            Ok(p) => Ok(LoadedImage::Decoded(p)),
            Err(e) => Err(e),
        },
    }
}

} // verus!
