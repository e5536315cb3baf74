//! Thumbnails, upload copies and previews as JPEG bytes: the original size
//! read from the file header, the decoded image fitted to a long edge, and
//! its JPEG encoding. Writing the bytes to disk is left to the caller.

use image::DynamicImage;
use vstd::prelude::*;

use crate::error::AppError;
use crate::files::decode::{decode_scaled, only_file_errors, scaled_image, DecodePermit};
use crate::files::{THUMB_MAX, UPLOAD_MAX_EDGE};

verus! {

/// JPEG quality of thumbnails.
pub const THUMB_QUALITY: u8 = 80;

/// JPEG quality of upload copies.
pub const UPLOAD_QUALITY: u8 = 85;

/// Long edge of a preview thumbnail.
pub const PREVIEW_EDGE: u32 = 240;

/// JPEG quality of preview thumbnails.
pub const PREVIEW_QUALITY: u8 = 72;

/// What `image` reads as the width and height from the header of `bytes`
/// (format guessed from the content), or the text of its error.
pub uninterp spec fn header_size(bytes: Seq<u8>) -> Result<(u32, u32), Seq<char>>;

/// `ImageReader::new` with `with_guessed_format`, then `into_dimensions`.
/// Trusted: the result is `header_size` of the bytes (an error as its
/// text); only the header is read, nothing is decoded.
#[verifier::external_body]
fn image_dimensions(bytes: &[u8]) -> (r: Result<(u32, u32), String>)
    ensures
        match (r, header_size(bytes@)) {
            (Ok(a), Ok(b)) => a == b,
            (Err(m), Err(t)) => m@ == t,
            _ => false,
        },
{
    image::ImageReader::new(std::io::Cursor::new(bytes)).with_guessed_format().map_err(
        |e| e.to_string(),
    )?.into_dimensions().map_err(|e| e.to_string())
}

/// The width and height of a decoded image.
pub uninterp spec fn dimensions_of(img: DynamicImage) -> (u32, u32);

/// `GenericImageView::dimensions`. Trusted: the result is `dimensions_of`
/// the image.
#[verifier::external_body]
fn image_size(img: &DynamicImage) -> (r: (u32, u32))
    ensures
        r == dimensions_of(*img),
{
    image::GenericImageView::dimensions(img)
}

/// What `DynamicImage::thumbnail(edge, edge)` gives: the image scaled down
/// to fit an `edge` x `edge` box, aspect ratio kept.
pub uninterp spec fn thumbnail_image(img: DynamicImage, edge: u32) -> DynamicImage;

/// `DynamicImage::thumbnail` with the same bound on both sides. Trusted:
/// the result is `thumbnail_image` of the image and the edge, and both its
/// sides lie in `1..=edge` (the new size is each side times the smaller of
/// the two scale ratios, rounded, at least 1, and the new buffer has
/// exactly that size). The edge is kept to at most 4096 so that the new
/// buffer stays small.
#[verifier::external_body]
fn thumbnail_of(img: &DynamicImage, edge: u32) -> (r: DynamicImage)
    requires
        1 <= edge <= 4096,
    ensures
        r == thumbnail_image(*img, edge),
        1 <= dimensions_of(r).0 <= edge,
        1 <= dimensions_of(r).1 <= edge,
{
    img.thumbnail(edge, edge)
}

/// What `JpegEncoder::new_with_quality(.., quality).encode(..)` writes for
/// the image converted to 8-bit RGB, or the text of its error (an image
/// with a side of 0 or above 65535 pixels is refused).
pub uninterp spec fn jpeg_bytes(img: DynamicImage, quality: u8) -> Result<Seq<u8>, Seq<char>>;

/// `DynamicImage::to_rgb8`, then `JpegEncoder::encode` into memory.
/// Trusted: the result is `jpeg_bytes` of the image and the quality (an
/// error as its text).
#[verifier::external_body]
fn encode_jpeg(img: &DynamicImage, quality: u8) -> (r: Result<Vec<u8>, String>)
    ensures
        match (r, jpeg_bytes(*img, quality)) {
            (Ok(a), Ok(b)) => a@ == b,
            (Err(m), Err(t)) => m@ == t,
            _ => false,
        },
{
    let rgb = img.to_rgb8();
    let mut out: Vec<u8> = Vec::new();
    image::codecs::jpeg::JpegEncoder::new_with_quality(&mut out, quality).encode(
        &rgb,
        rgb.width(),
        rgb.height(),
        image::ExtendedColorType::Rgb8,
    ).map_err(|e| e.to_string())?;
    Ok(out)
}

/// `r` is a file error whose text is `t`.
pub open spec fn is_file_error<T>(r: Result<T, AppError>, t: Seq<char>) -> bool {
    match r {
        Err(AppError::Io(m)) => m@ == t,
        _ => false,
    }
}

/// The source of a thumbnail: the **original** size from the file header
/// (the decoded image is usually much smaller, and the size is what gets
/// recorded), and the image decoded for an edge of `THUMB_MAX`: the scaled
/// JPEG when that path applies, otherwise whatever the full decode gives on
/// this machine. A header that cannot be read, or a decode that fails, is a
/// file error.
pub open spec fn thumbnail_source_of(bytes: Seq<u8>, r: Result<((u32, u32), DynamicImage), AppError>) -> bool {
    match header_size(bytes) {
        Err(t) => is_file_error(r, t),
        Ok(size) => {
            &&& only_file_errors(r)
            &&& r matches Ok(v) ==> v.0 == size
            &&& scaled_image(bytes, THUMB_MAX) matches Some(img) ==> r == Ok::<
                ((u32, u32), DynamicImage),
                AppError,
            >((size, img))
        },
    }
}

/// Reads the original size of an image from its header, then decodes it
/// for a thumbnail (see `thumbnail_source_of`).
pub fn thumbnail_source(bytes: &[u8], permit: &DecodePermit) -> (r: Result<((u32, u32), DynamicImage), AppError>)
    ensures
        thumbnail_source_of(bytes@, r),
{
    let size = match image_dimensions(bytes) {
        Ok(d) => d,
        Err(m) => return Err(AppError::Io(m)),
    };
    match decode_scaled(bytes, THUMB_MAX, permit) {
        Ok(img) => Ok((size, img)),
        Err(e) => Err(e),
    }
}

/// The image fitted to a long edge of `max_edge`: scaled down when either
/// side is longer, unchanged otherwise.
pub open spec fn fitted(img: DynamicImage, max_edge: u32) -> DynamicImage {
    let (w, h) = dimensions_of(img);
    if w > max_edge || h > max_edge {
        thumbnail_image(img, max_edge)
    } else {
        img
    }
}

/// Fitting to a long edge `e` scales exactly the images with a side longer
/// than `e` (either side: a tall image counts as much as a wide one) and
/// leaves the others as they are, so whenever the scaled-down image fits
/// the `e` x `e` box, as `DynamicImage::thumbnail` makes it, the fitted
/// image has both sides at most `e`.
pub proof fn law_fitting_bounds_both_sides(img: DynamicImage, e: u32)
    ensures
        (dimensions_of(img).0 > e || dimensions_of(img).1 > e) ==> fitted(img, e)
            == thumbnail_image(img, e),
        (dimensions_of(img).0 <= e && dimensions_of(img).1 <= e) ==> fitted(img, e) == img,
        (dimensions_of(thumbnail_image(img, e)).0 <= e && dimensions_of(
            thumbnail_image(img, e),
        ).1 <= e) ==> dimensions_of(fitted(img, e)).0 <= e && dimensions_of(fitted(img, e)).1
            <= e,
{
}

/// The JPEG of the image fitted to `max_edge`, at `quality`.
fn jpeg_scaled_bytes(img: &DynamicImage, max_edge: u32, quality: u8) -> (r: Result<Vec<u8>, AppError>)
    requires
        1 <= max_edge <= 4096,
    ensures
        dimensions_of(fitted(*img, max_edge)).0 <= max_edge,
        dimensions_of(fitted(*img, max_edge)).1 <= max_edge,
        match (r, jpeg_bytes(fitted(*img, max_edge), quality)) {
            (Ok(a), Ok(b)) => a@ == b,
            (Err(AppError::Io(m)), Err(t)) => m@ == t,
            _ => false,
        },
{
    let (w, h) = image_size(img);
    let encoded = if w > max_edge || h > max_edge {
        let small = thumbnail_of(img, max_edge);
        encode_jpeg(&small, quality)
    } else {
        encode_jpeg(img, quality)
    };
    match encoded {
        Ok(b) => Ok(b),
        Err(m) => Err(AppError::Io(m)),
    }
}

/// Thumbnail bytes of a decoded image: long edge at most `THUMB_MAX`,
/// JPEG at `THUMB_QUALITY`.
pub fn thumbnail_jpeg(img: &DynamicImage) -> (r: Result<Vec<u8>, AppError>)
    ensures
        dimensions_of(fitted(*img, THUMB_MAX)).0 <= THUMB_MAX,
        dimensions_of(fitted(*img, THUMB_MAX)).1 <= THUMB_MAX,
        match (r, jpeg_bytes(fitted(*img, THUMB_MAX), THUMB_QUALITY)) {
            (Ok(a), Ok(b)) => a@ == b,
            (Err(AppError::Io(m)), Err(t)) => m@ == t,
            _ => false,
        },
{
    jpeg_scaled_bytes(img, THUMB_MAX, THUMB_QUALITY)
}

/// Upload-copy bytes of a decoded image: long edge at most
/// `UPLOAD_MAX_EDGE`, JPEG at `UPLOAD_QUALITY` (callers first ask
/// `is_oversize`).
pub fn upload_copy_jpeg(img: &DynamicImage) -> (r: Result<Vec<u8>, AppError>)
    ensures
        dimensions_of(fitted(*img, UPLOAD_MAX_EDGE)).0 <= UPLOAD_MAX_EDGE,
        dimensions_of(fitted(*img, UPLOAD_MAX_EDGE)).1 <= UPLOAD_MAX_EDGE,
        match (r, jpeg_bytes(fitted(*img, UPLOAD_MAX_EDGE), UPLOAD_QUALITY)) {
            (Ok(a), Ok(b)) => a@ == b,
            (Err(AppError::Io(m)), Err(t)) => m@ == t,
            _ => false,
        },
{
    jpeg_scaled_bytes(img, UPLOAD_MAX_EDGE, UPLOAD_QUALITY)
}

/// Preview bytes of a decoded image: always scaled to fit a
/// `PREVIEW_EDGE` box, JPEG at `PREVIEW_QUALITY`; a failed encode is a file
/// error.
pub fn preview_of_image(img: &DynamicImage) -> (r: Result<Vec<u8>, AppError>)
    ensures
        1 <= dimensions_of(thumbnail_image(*img, PREVIEW_EDGE)).0 <= PREVIEW_EDGE,
        1 <= dimensions_of(thumbnail_image(*img, PREVIEW_EDGE)).1 <= PREVIEW_EDGE,
        match (r, jpeg_bytes(thumbnail_image(*img, PREVIEW_EDGE), PREVIEW_QUALITY)) {
            (Ok(a), Ok(b)) => a@ == b,
            (Err(AppError::Io(m)), Err(t)) => m@ == t,
            _ => false,
        },
{
    let small = thumbnail_of(img, PREVIEW_EDGE);
    match encode_jpeg(&small, PREVIEW_QUALITY) {
        Ok(b) => Ok(b),
        Err(m) => Err(AppError::Io(m)),
    }
}

/// Preview bytes of an image file's content: decoded for `PREVIEW_EDGE`,
/// then as `preview_of_image`. When the scaled JPEG path applies the bytes
/// are those of its image; otherwise they come from whatever the full
/// decode gives on this machine. A failed decode is a file error.
pub fn preview_jpeg(bytes: &[u8], permit: &DecodePermit) -> (r: Result<Vec<u8>, AppError>)
    ensures
        only_file_errors(r),
        scaled_image(bytes@, PREVIEW_EDGE) matches Some(img) ==> match (
            r,
            jpeg_bytes(thumbnail_image(img, PREVIEW_EDGE), PREVIEW_QUALITY),
        ) {
            (Ok(a), Ok(b)) => a@ == b,
            (Err(AppError::Io(m)), Err(t)) => m@ == t,
            _ => false,
        },
{
    let img = match decode_scaled(bytes, PREVIEW_EDGE, permit) {
        Ok(img) => img,
        Err(e) => return Err(e),
    };
    preview_of_image(&img)
}

} // verus!
