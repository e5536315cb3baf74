//! Decoding budget and scaled JPEG decoding.
//!
//! A JPEG whose first frame header shows 8-bit samples with one or three
//! components, and which is larger than the requested edge, is decoded
//! through the DCT scaling of `jpeg-decoder` (1/2, 1/4 or 1/8), which costs
//! a fraction of the memory and time of a full decode. Everything else, and
//! every scaled decode that does not work out, falls back to a full decode
//! by `image`. The frame header is read by our own marker scan, so the
//! full dimensions are known before scaling and the component count is
//! checked before the decoder sees the file.

use image::DynamicImage;
use tokio::sync::OwnedSemaphorePermit;
use vstd::prelude::*;

use crate::error::AppError;

verus! {

#[verifier::external_type_specification]
#[verifier::external_body]
pub struct ExDynamicImage(DynamicImage);

#[verifier::external_type_specification]
#[verifier::external_body]
pub struct ExOwnedSemaphorePermit(OwnedSemaphorePermit);

/// Number of decodes allowed to run at once, given the machine's available
/// parallelism: half of it, clamped to 2..=3 (2 when unknown). The bound is
/// memory, not cores: a full decode of a large photograph holds tens of
/// megabytes.
pub fn decode_budget(parallelism: Option<usize>) -> (r: usize)
    ensures
        r == (match parallelism {
            Some(n) => if n / 2 < 2 {
                2
            } else if n / 2 > 3 {
                3
            } else {
                n / 2
            },
            None => 2,
        }),
        2 <= r <= 3,
{
    let half = match parallelism {
        Some(n) => n / 2,
        None => 2,
    };
    if half < 2 {
        2
    } else if half > 3 {
        3
    } else {
        half
    }
}

/// Proof of having passed the decoding budget: whoever holds it occupies
/// one decode slot, and dropping it gives the slot back.
pub struct DecodePermit(Option<OwnedSemaphorePermit>);

impl DecodePermit {
    /// Whether the permit occupies a slot of the budget.
    pub closed spec fn holds_slot(self) -> bool {
        self.0 is Some
    }

    /// A permit holding `slot` (no slot when the budget is closed).
    pub fn new(slot: Option<OwnedSemaphorePermit>) -> (r: Self)
        ensures
            r.holds_slot() == slot is Some,
    {
        DecodePermit(slot)
    }

    /// A permit that occupies no slot, for tests that decode small images
    /// one at a time.
    pub fn for_test() -> (r: Self)
        ensures
            !r.holds_slot(),
    {
        DecodePermit(None)
    }
}

/// The four numbers of a JPEG frame header (SOF segment).
#[derive(Clone, Copy, Debug, PartialEq, Eq, Structural)]
pub struct JpegHeader {
    pub width: u32,
    pub height: u32,
    pub components: u8,
    pub precision: u8,
}

/// The first index at or after `i` that does not hold a `0xFF` fill byte.
pub open spec fn skip_fill(b: Seq<u8>, i: int) -> int
    decreases b.len() - i,
{
    if 0 <= i < b.len() && b[i] == 0xFF {
        skip_fill(b, i + 1)
    } else {
        i
    }
}

/// `skip_fill` stays within `i..=b.len()`.
pub proof fn lemma_skip_fill(b: Seq<u8>, i: int)
    requires
        0 <= i <= b.len(),
    ensures
        i <= skip_fill(b, i) <= b.len(),
    decreases b.len() - i,
{
    if i < b.len() && b[i] == 0xFF {
        lemma_skip_fill(b, i + 1);
    }
}

/// Markers without a length field: TEM and RST0..RST7.
pub open spec fn is_standalone(m: u8) -> bool {
    m == 0x01 || (0xD0 <= m && m <= 0xD7)
}

/// Start-of-frame markers SOF0..SOF15, without DHT (C4), JPG (C8) and DAC
/// (CC), which share that range of codes.
pub open spec fn is_sof(m: u8) -> bool {
    0xC0 <= m && m <= 0xCF && m != 0xC4 && m != 0xC8 && m != 0xCC
}

/// A big-endian 16-bit number.
pub open spec fn be16(hi: u8, lo: u8) -> int {
    hi * 256 + lo
}

/// The header held by an SOF payload (at least six bytes).
pub open spec fn sof_header(p: Seq<u8>) -> JpegHeader {
    JpegHeader {
        precision: p[0],
        height: be16(p[1], p[2]) as u32,
        width: be16(p[3], p[4]) as u32,
        components: p[5],
    }
}

/// The first frame header found by walking the segments from index `i`:
/// each segment starts with `0xFF` (more `0xFF` fill may follow); markers
/// without a length are stepped over; reaching EOI or the scan data, running
/// out of bytes, or a length below 2 means no header.
pub open spec fn scan_segments(b: Seq<u8>, i: int) -> Option<JpegHeader>
    decreases b.len() - i,
    when 0 <= i
{
    if i >= b.len() || b[i] != 0xFF {
        None
    } else {
        let j = skip_fill(b, i);
        proof {
            lemma_skip_fill(b, i);
        }
        if j >= b.len() {
            None
        } else {
            let m = b[j];
            let k = j + 1;
            if is_standalone(m) {
                scan_segments(b, k)
            } else if m == 0xD9 || m == 0xDA {
                None
            } else if k + 1 >= b.len() {
                None
            } else {
                let len = be16(b[k], b[k + 1]);
                if len < 2 {
                    None
                } else if is_sof(m) {
                    if k + len > b.len() || len < 8 {
                        None
                    } else {
                        Some(sof_header(b.subrange(k + 2, k + len)))
                    }
                } else if k + len >= b.len() {
                    None
                } else {
                    scan_segments(b, k + len)
                }
            }
        }
    }
}

/// The frame header of a JPEG file: it must start with SOI (`FF D8`) and
/// hold at least four bytes; then the segments are walked from index 2.
pub open spec fn jpeg_header(b: Seq<u8>) -> Option<JpegHeader> {
    if b.len() < 4 || b[0] != 0xFF || b[1] != 0xD8 {
        None
    } else {
        scan_segments(b, 2)
    }
}

/// Every start-of-frame marker counts, not only the baseline one: a file
/// that opens with SOI and then a segment whose marker lies in
/// `0xC0..=0xCF`, other than DHT (`0xC4`), JPG (`0xC8`) and DAC (`0xCC`),
/// with a length `L >= 8` and `L - 2` payload bytes `p`, has the frame
/// header read from that payload: precision `p[0]`, height `p[1..3]`, width
/// `p[3..5]` (big-endian), components `p[5]`, whatever follows.
pub proof fn law_every_sof_marker_gives_the_frame_header(
    m: u8,
    hi: u8,
    lo: u8,
    p: Seq<u8>,
    rest: Seq<u8>,
)
    requires
        0xC0 <= m <= 0xCF,
        m != 0xC4 && m != 0xC8 && m != 0xCC,
        hi * 256 + lo >= 8,
        p.len() == hi * 256 + lo - 2,
    ensures
        jpeg_header(seq![0xFFu8, 0xD8u8, 0xFFu8, m, hi, lo] + p + rest) == Some(
            JpegHeader {
                precision: p[0],
                height: (p[1] * 256 + p[2]) as u32,
                width: (p[3] * 256 + p[4]) as u32,
                components: p[5],
            },
        ),
{
    let b = seq![0xFFu8, 0xD8u8, 0xFFu8, m, hi, lo] + p + rest;
    let len = hi * 256 + lo;
    assert(b[0] == 0xFF && b[1] == 0xD8 && b[2] == 0xFF && b[3] == m && b[4] == hi && b[5] == lo);
    assert(skip_fill(b, 3) == 3);
    assert(skip_fill(b, 2) == 3);
    assert(b.subrange(6, 4 + len) =~= p);
}

/// Walking the segments: at a segment start, one more `0xFF` fill byte
/// before the marker changes nothing; and a segment whose marker is not a
/// frame header, carries a length (not TEM/RST), and ends neither the
/// header part (EOI) nor starts the scan (SOS), is stepped over whole: the
/// marker, its two length bytes and `L - 2` payload bytes, where `L` is the
/// big-endian length (at least 2), provided more bytes follow it.
pub proof fn law_segments_are_stepped_over(b: Seq<u8>, i: int)
    requires
        0 <= i,
        i + 1 < b.len(),
        b[i] == 0xFF,
    ensures
        b[i + 1] == 0xFF ==> scan_segments(b, i) == scan_segments(b, i + 1),
        ({
            let m = b[i + 1];
            m != 0xFF && !(0xC0 <= m <= 0xCF && m != 0xC4 && m != 0xC8 && m != 0xCC) && m != 0x01
                && !(0xD0 <= m <= 0xD7) && m != 0xD9 && m != 0xDA && i + 3 < b.len() && b[i + 2]
                * 256 + b[i + 3] >= 2 && i + 2 + (b[i + 2] * 256 + b[i + 3]) < b.len()
        }) ==> scan_segments(b, i) == scan_segments(b, i + 2 + (b[i + 2] * 256 + b[i + 3])),
{
    lemma_skip_fill(b, i);
    if b[i + 1] == 0xFF {
        assert(skip_fill(b, i) == skip_fill(b, i + 1));
    } else {
        assert(skip_fill(b, i + 1) == i + 1);
        assert(skip_fill(b, i) == i + 1);
    }
}

/// Reads the first frame header of a JPEG without touching pixel data;
/// `None` when the bytes are not a JPEG or not laid out as expected. Never
/// reads past the end.
pub fn scan_jpeg_header(bytes: &[u8]) -> (r: Option<JpegHeader>)
    ensures
        r == jpeg_header(bytes@),
{
    let n = bytes.len();
    if n < 4 || bytes[0] != 0xFF || bytes[1] != 0xD8 {
        return None;
    }
    let mut i: usize = 2;
    loop
        invariant
            2 <= i <= n,
            n == bytes@.len(),
            jpeg_header(bytes@) == scan_segments(bytes@, i as int),
        decreases n - i,
    {
        if i >= n || bytes[i] != 0xFF {
            return None;
        }
        let ghost i0 = i as int;
        proof {
            lemma_skip_fill(bytes@, i0);
        }
        while i < n && bytes[i] == 0xFF
            invariant
                i0 <= i <= n,
                n == bytes@.len(),
                skip_fill(bytes@, i0) == skip_fill(bytes@, i as int),
            decreases n - i,
        {
            i += 1;
        }
        if i >= n {
            return None;
        }
        let marker = bytes[i];
        i += 1;
        if marker == 0x01 || (0xD0 <= marker && marker <= 0xD7) {
            continue;
        }
        if marker == 0xD9 || marker == 0xDA {
            return None;
        }
        if i >= n - 1 {
            return None;
        }
        let len: usize = (bytes[i] as usize) * 256 + (bytes[i + 1] as usize);
        if len < 2 {
            return None;
        }
        if 0xC0 <= marker && marker <= 0xCF && marker != 0xC4 && marker != 0xC8 && marker != 0xCC {
            if len > n - i || len < 8 {
                return None;
            }
            let p = i + 2;
            let header = JpegHeader {
                precision: bytes[p],
                height: (bytes[p + 1] as u32) * 256 + (bytes[p + 2] as u32),
                width: (bytes[p + 3] as u32) * 256 + (bytes[p + 4] as u32),
                components: bytes[p + 5],
            };
            proof {
                let payload = bytes@.subrange(p as int, i + len);
                assert(payload[0] == bytes@[p as int]);
                assert(payload[1] == bytes@[p + 1]);
                assert(payload[2] == bytes@[p + 2]);
                assert(payload[3] == bytes@[p + 3]);
                assert(payload[4] == bytes@[p + 4]);
                assert(payload[5] == bytes@[p + 5]);
            }
            return Some(header);
        }
        if len >= n - i {
            return None;
        }
        i = i + len;
    }
}

/// How a scaled decode is to be made: the requested edge and the component
/// count (1 for grey, 3 for colour).
#[derive(Clone, Copy, Debug, PartialEq, Eq, Structural)]
pub struct ScalePlan {
    pub edge: u16,
    pub components: u8,
}

/// A scaled decode is attempted only for 8-bit JPEGs with one or three
/// components that are larger than `max_edge` on some side, and only when
/// `max_edge` fits the decoder's 16-bit request.
pub open spec fn scale_plan(bytes: Seq<u8>, max_edge: u32) -> Option<ScalePlan> {
    match jpeg_header(bytes) {
        None => None,
        Some(h) => if h.precision != 8 || !(h.components == 1 || h.components == 3) {
            None
        } else if h.width <= max_edge && h.height <= max_edge {
            None
        } else if max_edge > 0xFFFF {
            None
        } else {
            Some(ScalePlan { edge: max_edge as u16, components: h.components })
        },
    }
}

/// Decides whether (and how) to take the scaled JPEG path.
pub fn plan_scaled_decode(bytes: &[u8], max_edge: u32) -> (r: Option<ScalePlan>)
    ensures
        r == scale_plan(bytes@, max_edge),
{
    match scan_jpeg_header(bytes) {
        None => None,
        Some(h) => {
            if h.precision != 8 || !(h.components == 1 || h.components == 3) {
                None
            } else if h.width <= max_edge && h.height <= max_edge {
                None
            } else if max_edge > 0xFFFF {
                None
            } else {
                Some(ScalePlan { edge: max_edge as u16, components: h.components })
            }
        },
    }
}

/// What `jpeg_decoder::Decoder` gives for `bytes` after `scale(edge, edge)`
/// and `decode()`: the output width and height and the pixel bytes, or
/// nothing when either call fails. The decoder is built with its
/// `platform_independent` feature, which leaves out the CPU-dependent SIMD
/// IDCT and colour conversion, so the pixels are the same on every machine.
pub uninterp spec fn jpeg_scaled(bytes: Seq<u8>, edge: u16) -> Option<(u16, u16, Seq<u8>)>;

/// `jpeg_decoder::Decoder::new`, `scale` and `decode`. Trusted: the result
/// is `jpeg_scaled` of the bytes and the edge. Called only on files whose
/// first frame has 8-bit samples and one or three components, the layouts
/// whose colour conversion the decoder handles without panicking.
#[verifier::external_body]
fn jpeg_decode_scaled(bytes: &[u8], edge: u16) -> (r: Option<(u16, u16, Vec<u8>)>)
    requires
        jpeg_header(bytes@) matches Some(h) && h.precision == 8 && (h.components == 1
            || h.components == 3),
    ensures
        match r {
            Some(t) => jpeg_scaled(bytes@, edge) == Some((t.0, t.1, t.2@)),
            None => jpeg_scaled(bytes@, edge) is None,
        },
{
    let mut decoder = jpeg_decoder::Decoder::new(std::io::Cursor::new(bytes));
    let (w, h) = decoder.scale(edge, edge).ok()?;
    let pixels = decoder.decode().ok()?;
    Some((w, h, pixels))
}

/// Whether a `w`×`h` buffer of `components` bytes per pixel fits in `len`
/// bytes (and its size in `usize`).
pub open spec fn raw_fits(components: int, w: u16, h: u16, len: nat) -> bool {
    components * w * h <= usize::MAX && components * w * h <= len
}

/// The colour image `RgbImage::from_raw` builds from a buffer.
pub uninterp spec fn rgb_image(w: u16, h: u16, pixels: Seq<u8>) -> DynamicImage;

/// The grey image `GrayImage::from_raw` builds from a buffer.
pub uninterp spec fn gray_image(w: u16, h: u16, pixels: Seq<u8>) -> DynamicImage;

/// `RgbImage::from_raw`. Trusted: it gives an image exactly when three
/// bytes per pixel fit in the buffer, and that image is `rgb_image` of the
/// size and the bytes.
#[verifier::external_body]
fn rgb_from_raw(w: u16, h: u16, pixels: Vec<u8>) -> (r: Option<DynamicImage>)
    ensures
        r is Some <==> raw_fits(3, w, h, pixels@.len()),
        r matches Some(img) ==> img == rgb_image(w, h, pixels@),
{
    image::RgbImage::from_raw(u32::from(w), u32::from(h), pixels).map(DynamicImage::ImageRgb8)
}

/// `GrayImage::from_raw`. Trusted: it gives an image exactly when one byte
/// per pixel fits in the buffer, and that image is `gray_image` of the
/// size and the bytes.
#[verifier::external_body]
fn gray_from_raw(w: u16, h: u16, pixels: Vec<u8>) -> (r: Option<DynamicImage>)
    ensures
        r is Some <==> raw_fits(1, w, h, pixels@.len()),
        r matches Some(img) ==> img == gray_image(w, h, pixels@),
{
    image::GrayImage::from_raw(u32::from(w), u32::from(h), pixels).map(DynamicImage::ImageLuma8)
}

/// The image the scaled path yields for these bytes: the planned scaled
/// decode, turned into a colour or grey image when its buffer fits.
pub open spec fn scaled_image(bytes: Seq<u8>, max_edge: u32) -> Option<DynamicImage> {
    match scale_plan(bytes, max_edge) {
        None => None,
        Some(p) => match jpeg_scaled(bytes, p.edge) {
            None => None,
            Some(t) => if !raw_fits(p.components as int, t.0, t.1, t.2.len()) {
                None
            } else if p.components == 3 {
                Some(rgb_image(t.0, t.1, t.2))
            } else {
                Some(gray_image(t.0, t.1, t.2))
            },
        },
    }
}

/// Whether the scaled path yields an image for these bytes.
pub open spec fn scaled_decode_succeeds(bytes: Seq<u8>, max_edge: u32) -> bool {
    scaled_image(bytes, max_edge) is Some
}

/// The scaled JPEG path: `None` whenever anything about it is uncertain,
/// so that the caller falls back to a full decode.
pub fn try_decode_scaled_jpeg(bytes: &[u8], max_edge: u32) -> (r: Option<DynamicImage>)
    ensures
        r == scaled_image(bytes@, max_edge),
{
    let plan = match plan_scaled_decode(bytes, max_edge) {
        Some(p) => p,
        None => return None,
    };
    let (w, h, pixels) = match jpeg_decode_scaled(bytes, plan.edge) {
        Some(t) => t,
        None => return None,
    };
    if plan.components == 3 {
        rgb_from_raw(w, h, pixels)
    } else {
        gray_from_raw(w, h, pixels)
    }
}

/// `ImageReader::new` with `with_guessed_format`, then `decode`. Nothing
/// is promised of the result: `image` decodes JPEG through `zune-jpeg`,
/// which picks SIMD upsampling and colour conversion by the CPU at run
/// time, and its source does not show that these give the scalar path's
/// pixels, so the image may differ from machine to machine.
#[verifier::external_body]
fn image_decode(bytes: &[u8]) -> (r: Result<DynamicImage, String>) {
    let reader = image::ImageReader::new(std::io::Cursor::new(bytes)).with_guessed_format().map_err(
        |e| e.to_string(),
    )?;
    reader.decode().map_err(|e| e.to_string())
}

/// `r` is a success or a file error.
pub open spec fn only_file_errors<T>(r: Result<T, AppError>) -> bool {
    match r {
        Ok(_) => true,
        Err(AppError::Io(_)) => true,
        Err(_) => false,
    }
}

/// A full decode by `image`; a failure is a file error carrying its text.
/// What the image holds depends on the machine (see `image_decode`).
pub fn decode_full(bytes: &[u8]) -> (r: Result<DynamicImage, AppError>)
    ensures
        only_file_errors(r),
{
    match image_decode(bytes) {
        Ok(img) => Ok(img),
        Err(msg) => Err(AppError::Io(msg)),
    }
}

/// Decodes to an image whose long edge is still at least `max_edge` when
/// the scaled JPEG path applies (the result is usually larger than
/// `max_edge`: callers still make their own thumbnail), and at full size
/// otherwise, where the image is whatever `image` decodes on this machine
/// (a failure is a file error). Holding a `DecodePermit` shows that the
/// decode is within budget.
pub fn decode_scaled(bytes: &[u8], max_edge: u32, permit: &DecodePermit) -> (r: Result<
    DynamicImage,
    AppError,
>)
    ensures
        match scaled_image(bytes@, max_edge) {
            Some(img) => r == Ok::<DynamicImage, AppError>(img),
            None => only_file_errors(r),
        },
{
    match try_decode_scaled_jpeg(bytes, max_edge) {
        Some(img) => Ok(img),
        None => decode_full(bytes),
    }
}

} // verus!
