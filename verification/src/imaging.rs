//! Image sizing arithmetic, content hashing, and the trusted codec layer.
//!
//! Resampling and the per-format encoders have no short mathematical
//! statement, so their results are given names (`resampled`, `png_encoding`,
//! ...) that the wrappers' contracts apply; everything computed around those
//! calls is verified.

use std::collections::hash_map::DefaultHasher;
use std::hash::{Hash, Hasher};
use vstd::prelude::*;
use vstd::string::StringExecFns;
use vstd::arithmetic::power2::{pow2, lemma2_to64, lemma_pow2_unfold};
use crate::errors::TileServiceError;
use crate::image_model::TileImage;
use crate::models::TileFormat;
use crate::strutil::{
    eq_ignore_ascii_case,
    hex_digits,
    str_eq_ignore_case,
    u64_hex_str,
};

verus! {

/// A sniffable source-image container format.
#[derive(Clone, Copy, Debug, PartialEq, Eq, Structural)]
pub enum ImageKind {
    Png,
    Jpeg,
    Gif,
    WebP,
    Tiff,
    Bmp,
    Other,
}

/// The canonical lower-case name of a sniffed format.
pub open spec fn spec_kind_name(k: ImageKind) -> Seq<char> {
    match k {
        ImageKind::Png => "png"@,
        ImageKind::Jpeg => "jpeg"@,
        ImageKind::Gif => "gif"@,
        ImageKind::WebP => "webp"@,
        ImageKind::Tiff => "tiff"@,
        ImageKind::Bmp => "bmp"@,
        ImageKind::Other => "unknown"@,
    }
}

impl ImageKind {
    pub fn name(&self) -> (r: String)
        ensures
            r@ == spec_kind_name(*self),
    {
        match self {
            ImageKind::Png => String::from_str("png"),
            ImageKind::Jpeg => String::from_str("jpeg"),
            ImageKind::Gif => String::from_str("gif"),
            ImageKind::WebP => String::from_str("webp"),
            ImageKind::Tiff => String::from_str("tiff"),
            ImageKind::Bmp => String::from_str("bmp"),
            ImageKind::Other => String::from_str("unknown"),
        }
    }
}

/// The format named by a file extension, compared without regard to ASCII
/// case.
pub open spec fn spec_format_from_extension(s: Seq<char>) -> Option<ImageKind> {
    if eq_ignore_ascii_case(s, "png"@) {
        Some(ImageKind::Png)
    } else if eq_ignore_ascii_case(s, "jpg"@) || eq_ignore_ascii_case(s, "jpeg"@) {
        Some(ImageKind::Jpeg)
    } else if eq_ignore_ascii_case(s, "gif"@) {
        Some(ImageKind::Gif)
    } else if eq_ignore_ascii_case(s, "webp"@) {
        Some(ImageKind::WebP)
    } else if eq_ignore_ascii_case(s, "tiff"@) || eq_ignore_ascii_case(s, "tif"@) {
        Some(ImageKind::Tiff)
    } else if eq_ignore_ascii_case(s, "bmp"@) {
        Some(ImageKind::Bmp)
    } else {
        None
    }
}

/// Maps a file extension to its image format.
pub fn get_format_from_extension(ext: &str) -> (r: Option<ImageKind>)
    ensures
        r == spec_format_from_extension(ext@),
{
    if str_eq_ignore_case(ext, "png") {
        Some(ImageKind::Png)
    } else if str_eq_ignore_case(ext, "jpg") || str_eq_ignore_case(ext, "jpeg") {
        Some(ImageKind::Jpeg)
    } else if str_eq_ignore_case(ext, "gif") {
        Some(ImageKind::Gif)
    } else if str_eq_ignore_case(ext, "webp") {
        Some(ImageKind::WebP)
    } else if str_eq_ignore_case(ext, "tiff") || str_eq_ignore_case(ext, "tif") {
        Some(ImageKind::Tiff)
    } else if str_eq_ignore_case(ext, "bmp") {
        Some(ImageKind::Bmp)
    } else {
        None
    }
}

/// How many tiles cover one axis: the ceiling of `dimension / tile_size`.
pub open spec fn spec_ceil_div(dimension: nat, tile_size: nat) -> nat {
    ((dimension + tile_size - 1) / tile_size as int) as nat
}

/// The number of tiles needed to cover a dimension.
pub fn calculate_tiles(dimension: u32, tile_size: u32) -> (r: u32)
    requires
        tile_size > 0,
    ensures
        r == spec_ceil_div(dimension as nat, tile_size as nat),
{
    proof {
        assert((dimension as int + tile_size - 1) / (tile_size as int) <= u32::MAX)
            by (nonlinear_arith)
            requires
                1 <= tile_size as int,
                dimension as int <= u32::MAX,
        ;
    }
    (((dimension as u64) + (tile_size as u64) - 1) / (tile_size as u64)) as u32
}

/// The preferred tile size for a source image: small sources get small
/// tiles, and each factor-of-four step in the largest dimension doubles the
/// tile size.
pub fn calculate_optimal_tile_size(width: u32, height: u32) -> (r: u32)
    ensures
        ({
            let max_dim = if width >= height {
                width
            } else {
                height
            };
            r == if max_dim <= 512 {
                128u32
            } else if max_dim <= 2048 {
                256u32
            } else if max_dim <= 8192 {
                512u32
            } else {
                1024u32
            }
        }),
{
    let max_dim = if width >= height {
        width
    } else {
        height
    };
    if max_dim <= 512 {
        128
    } else if max_dim <= 2048 {
        256
    } else if max_dim <= 8192 {
        512
    } else {
        1024
    }
}

/// The deepest zoom level worth generating for an image: the smallest zoom
/// whose tile grid covers the image's largest dimension, at least 1 and at
/// most 20.
pub fn calculate_max_zoom(width: u32, height: u32, tile_size: u32) -> (r: u32)
    requires
        tile_size > 0,
    ensures
        1 <= r <= 20,
        ({
            let t = spec_ceil_div(if width >= height {
                width as nat
            } else {
                height as nat
            }, tile_size as nat);
            (pow2(r as nat) >= t || r == 20) && (r > 1 ==> pow2((r - 1) as nat) < t)
        }),
{
    let max_dimension = if width >= height {
        width
    } else {
        height
    };
    let t = calculate_tiles(max_dimension, tile_size);
    let mut z: u32 = 0;
    let mut m: u64 = 1;
    proof {
        lemma2_to64();
    }
    while m < t as u64 && z < 20
        invariant
            z <= 20,
            m == pow2(z as nat),
            z > 0 ==> pow2((z - 1) as nat) < t,
        decreases 20 - z,
    {
        proof {
            lemma_pow2_unfold(z as nat + 1);
            lemma2_to64();
            if z as nat + 1 < 20 {
                vstd::arithmetic::power2::lemma_pow2_strictly_increases(z as nat + 1, 20);
            }
        }
        m = m * 2;
        z = z + 1;
    }
    if z < 1 {
        1
    } else {
        z
    }
}

/// Bytes needed to hold an image in memory at the given geometry.
pub fn calculate_memory_usage(width: u32, height: u32, channels: u32, bits_per_channel: u32) -> (r:
    u64)
    requires
        (width as int) * (height as int) * (channels as int) <= u64::MAX,
        (width as int) * (height as int) * (channels as int) * ((bits_per_channel as int) / 8)
            <= u64::MAX,
    ensures
        r == (width as int) * (height as int) * (channels as int) * ((bits_per_channel as int)
            / 8),
{
    proof {
        assert((width as int) * (height as int) <= (width as int) * (height as int) * (
        channels as int) || channels == 0) by (nonlinear_arith);
        assert((width as int) * (height as int) >= 0 && (width as int) * (height as int) * (
        channels as int) >= 0) by (nonlinear_arith);
        assert(channels == 0 ==> (width as int) * (height as int) * (channels as int) == 0)
            by (nonlinear_arith);
        assert((width as int) * (height as int) < u64::MAX) by (nonlinear_arith)
            requires
                width <= u32::MAX,
                height <= u32::MAX,
        ;
    }
    let wh: u64 = (width as u64) * (height as u64);
    let whc: u64 = wh * (channels as u64);
    proof {
        assert(whc * ((bits_per_channel as int) / 8) >= 0) by (nonlinear_arith)
            requires
                whc >= 0,
                bits_per_channel >= 0,
        ;
    }
    whc * ((bits_per_channel as u64) / 8)
}

/// What Lanczos resampling of an RGBA buffer to a new geometry yields.
/// A function of the pixels and geometries alone.
pub uninterp spec fn resampled(
    pixels: Seq<u8>,
    src_w: nat,
    src_h: nat,
    dst_w: nat,
    dst_h: nat,
) -> Seq<u8>;

/// Relies on image::imageops::resize with the Lanczos3 filter: the result
/// holds exactly the requested geometry, four bytes per pixel, and depends
/// on the source pixels and geometries alone.
#[verifier::external_body]
fn resize_raw(img: &TileImage, w: u32, h: u32) -> (r: TileImage)
    requires
        img.wf(),
    ensures
        r.wf(),
        r.width == w,
        r.height == h,
        r.pixels@ == resampled(img.pixels@, img.width as nat, img.height as nat, w as nat, h as nat),
{
    let buf = image::RgbaImage::from_raw(img.width, img.height, img.pixels.clone())
        .expect("pixel buffer matches dimensions");
    let out = image::imageops::resize(&buf, w, h, image::imageops::FilterType::Lanczos3);
    TileImage { width: w, height: h, pixels: out.into_raw() }
}

/// Resamples an image to an exact geometry.
pub fn resize_exact(img: &TileImage, w: u32, h: u32) -> (r: TileImage)
    requires
        img.wf(),
    ensures
        r.wf(),
        r.width == w,
        r.height == h,
        r.pixels@ == resampled(img.pixels@, img.width as nat, img.height as nat, w as nat, h as nat),
{
    resize_raw(img, w, h)
}

/// Resizes to the largest geometry that fits in `max_width x max_height`
/// while keeping the aspect ratio: both axes scale by
/// `min(max_width / width, max_height / height)`, rounded down.
pub fn resize_preserve_aspect(img: &TileImage, max_width: u32, max_height: u32) -> (r: TileImage)
    requires
        img.wf(),
        img.width > 0,
        img.height > 0,
    ensures
        r.wf(),
        ({
            let w = img.width as int;
            let h = img.height as int;
            if max_width * h <= max_height * w {
                r.width == max_width && r.height == h * max_width / w
            } else {
                r.width == w * max_height / h && r.height == max_height
            }
        }),
        r.pixels@ == resampled(
            img.pixels@,
            img.width as nat,
            img.height as nat,
            r.width as nat,
            r.height as nat,
        ),
{
    let w = img.width;
    let h = img.height;
    proof {
        assert((max_width as int) * (h as int) <= u64::MAX && (max_height as int) * (w as int)
            <= u64::MAX && (h as int) * (max_width as int) <= u64::MAX && (w as int) * (
        max_height as int) <= u64::MAX) by (nonlinear_arith)
            requires
                max_width <= u32::MAX,
                max_height <= u32::MAX,
                w <= u32::MAX,
                h <= u32::MAX,
                0 <= w,
                0 <= h,
                0 <= max_width,
                0 <= max_height,
        ;
    }
    let lhs: u64 = (max_width as u64) * (h as u64);
    let rhs: u64 = (max_height as u64) * (w as u64);
    if lhs <= rhs {
        let new_h: u64 = (h as u64) * (max_width as u64) / (w as u64);
        proof {
            assert((h as int) * (max_width as int) / (w as int) <= max_height as int)
                by (nonlinear_arith)
                requires
                    (max_width as int) * (h as int) <= (max_height as int) * (w as int),
                    w > 0,
                    max_height >= 0,
            ;
        }
        resize_raw(img, max_width, new_h as u32)
    } else {
        let new_w: u64 = (w as u64) * (max_height as u64) / (h as u64);
        proof {
            assert((w as int) * (max_height as int) / (h as int) <= max_width as int)
                by (nonlinear_arith)
                requires
                    (max_width as int) * (h as int) > (max_height as int) * (w as int),
                    h > 0,
                    max_width >= 0,
            ;
        }
        resize_raw(img, new_w as u32, max_height)
    }
}

/// What decoding a byte stream to RGBA yields: nothing for a stream no
/// decoder accepts, else the geometry and the four-byte-per-pixel buffer.
/// A function of the bytes alone.
pub uninterp spec fn decoded_rgba(bytes: Seq<u8>) -> Option<(nat, nat, Seq<u8>)>;

/// Relies on image::load_from_memory and DynamicImage::to_rgba8: decoding
/// is a function of the bytes alone, and the RGBA buffer holds four bytes
/// per pixel of the decoded geometry.
#[verifier::external_body]
pub fn decode_image(data: &Vec<u8>) -> (r: Result<TileImage, TileServiceError>)
    ensures
        r is Ok <==> decoded_rgba(data@) is Some,
        r matches Ok(img) ==> img.wf() && decoded_rgba(data@) == Some(
            (img.width as nat, img.height as nat, img.pixels@),
        ),
        r matches Err(e) ==> e matches TileServiceError::ProcessingFailure(_),
{
    match image::load_from_memory(data) {
        Ok(img) => {
            let rgba = img.to_rgba8();
            let (w, h) = (rgba.width(), rgba.height());
            Ok(TileImage { width: w, height: h, pixels: rgba.into_raw() })
        },
        Err(e) => Err(TileServiceError::ProcessingFailure(e.to_string())),
    }
}

/// What container format a byte stream's magic bytes name, if any.
/// A function of the bytes alone.
pub uninterp spec fn sniffed_format(bytes: Seq<u8>) -> Option<ImageKind>;

/// Relies on image::guess_format: the sniffed format is a function of the
/// bytes alone; each recognised container maps to its own kind.
#[verifier::external_body]
pub fn sniff_format(data: &Vec<u8>) -> (r: Option<ImageKind>)
    ensures
        r == sniffed_format(data@),
{
    match image::guess_format(data) {
        Ok(image::ImageFormat::Png) => Some(ImageKind::Png),
        Ok(image::ImageFormat::Jpeg) => Some(ImageKind::Jpeg),
        Ok(image::ImageFormat::Gif) => Some(ImageKind::Gif),
        Ok(image::ImageFormat::WebP) => Some(ImageKind::WebP),
        Ok(image::ImageFormat::Tiff) => Some(ImageKind::Tiff),
        Ok(image::ImageFormat::Bmp) => Some(ImageKind::Bmp),
        Ok(_) => Some(ImageKind::Other),
        Err(_) => None,
    }
}

/// The largest side length accepted for a decoded source image.
pub const MAX_IMAGE_DIMENSION: u32 = 65536;

/// Sniffs, decodes and bounds-checks an uploaded image, returning its
/// geometry and format name.
pub fn validate_image_data(data: &Vec<u8>) -> (r: Result<(u32, u32, String), TileServiceError>)
    ensures
        r is Ok <==> (sniffed_format(data@) is Some && (decoded_rgba(data@) matches Some(d) && 0
            < d.0 <= MAX_IMAGE_DIMENSION && 0 < d.1 <= MAX_IMAGE_DIMENSION)),
        r matches Ok(t) ==> (decoded_rgba(data@) matches Some(d) && t.0 as nat == d.0 && t.1 as nat
            == d.1) && (sniffed_format(data@) matches Some(k) && t.2@ == spec_kind_name(k)),
        sniffed_format(data@) is None ==> (r matches Err(e) && e matches
            TileServiceError::InvalidInput(m) && m@ == sniff_failure_message()),
{
    let kind = match sniff_format(data) {
        Some(k) => k,
        None => {
            return Err(TileServiceError::InvalidInput(sniff_failure_message_exec()));
        },
    };
    let img = match decode_image(data) {
        Ok(img) => img,
        Err(e) => {
            return Err(e);
        },
    };
    if img.width > MAX_IMAGE_DIMENSION || img.height > MAX_IMAGE_DIMENSION {
        return Err(TileServiceError::InvalidInput(String::from_str("image dimensions too large")));
    }
    if img.width == 0 || img.height == 0 {
        return Err(TileServiceError::InvalidInput(String::from_str("image has zero dimensions")));
    }
    Ok((img.width, img.height, kind.name()))
}

/// The message reported when no decoder recognises the input.
pub open spec fn sniff_failure_message() -> Seq<char> {
    "invalid image format"@
}

fn sniff_failure_message_exec() -> (r: String)
    ensures
        r@ == sniff_failure_message(),
{
    String::from_str("invalid image format")
}

/// What the standard library's default hasher yields over a byte string.
/// A function of the bytes alone within one build of the library.
pub uninterp spec fn content_hash_of(bytes: Seq<u8>) -> u64;

/// Relies on std::collections::hash_map::DefaultHasher: hashers built by
/// `DefaultHasher::new` hash equal byte strings to equal values, with no
/// per-process seeding.
#[verifier::external_body]
pub fn default_hash(data: &Vec<u8>) -> (r: u64)
    ensures
        r == content_hash_of(data@),
{
    let mut hasher = DefaultHasher::new();
    data.hash(&mut hasher);
    hasher.finish()
}

/// A content hash rendered as lower-case hex, for metadata rows and ETags.
pub fn calculate_image_hash(data: &Vec<u8>) -> (r: String)
    ensures
        r@ == hex_digits(content_hash_of(data@) as nat),
{
    let h = default_hash(data);
    u64_hex_str(h)
}

/// The geometries at which each format's encoder succeeds, per its source:
/// the PNG encoder rejects only zero dimensions (stated here conservatively
/// up to the signed 32-bit range), the JPEG encoder any side above 65535,
/// and the lossless WebP encoder any side above 16384.
pub open spec fn spec_encode_ok_dims(f: TileFormat, w: u32, h: u32) -> bool {
    match f {
        TileFormat::PNG => 1 <= w <= 0x7fffffff && 1 <= h <= 0x7fffffff,
        TileFormat::JPEG => 1 <= w <= 65535 && 1 <= h <= 65535,
        TileFormat::WEBP => 1 <= w <= 16384 && 1 <= h <= 16384,
    }
}

/// What PNG encoding of an RGBA buffer yields.  A function of the pixels
/// and geometry alone.
pub uninterp spec fn png_encoding(w: nat, h: nat, pixels: Seq<u8>) -> Seq<u8>;

/// Relies on ImageBuffer::write_to with the PNG format: the encoding is a
/// function of the pixels and geometry alone, a PNG stream opens with an
/// eight-byte signature, so it is never empty, and the encoder writing to a
/// byte vector rejects only zero dimensions, so it succeeds for every
/// non-degenerate RGBA geometry.  PNG is lossless: decoding the produced
/// stream returns exactly the geometry and pixels that went in.
#[verifier::external_body]
pub fn encode_png(img: &TileImage) -> (r: Result<Vec<u8>, TileServiceError>)
    requires
        img.wf(),
    ensures
        r matches Ok(v) ==> v@ == png_encoding(img.width as nat, img.height as nat, img.pixels@)
            && v@.len() > 0,
        r matches Ok(v) ==> decoded_rgba(v@) == Some(
            (img.width as nat, img.height as nat, img.pixels@),
        ),
        r matches Err(e) ==> e matches TileServiceError::ProcessingFailure(_),
        spec_encode_ok_dims(TileFormat::PNG, img.width, img.height) ==> r is Ok,
{
    let buf = image::RgbaImage::from_raw(img.width, img.height, img.pixels.clone())
        .expect("pixel buffer matches dimensions");
    let mut out: Vec<u8> = Vec::new();
    match buf.write_to(&mut std::io::Cursor::new(&mut out), image::ImageFormat::Png) {
        Ok(()) => Ok(out),
        Err(e) => Err(TileServiceError::ProcessingFailure(e.to_string())),
    }
}

/// What JPEG encoding of an RGBA buffer at a quality yields, after the
/// alpha channel is flattened away.  A function of the arguments alone.
pub uninterp spec fn jpeg_encoding(w: nat, h: nat, pixels: Seq<u8>, quality: u8) -> Seq<u8>;

/// Relies on JpegEncoder::new_with_quality and DynamicImage::to_rgb8: the
/// alpha channel is dropped before encoding, the quality scale runs 1-100,
/// and the encoding is a function of the arguments alone.  A JPEG stream
/// opens with a two-byte marker, so it is never empty, and the encoder
/// writing to a byte vector rejects exactly the dimensions outside 1..=65535.
/// JPEG is lossy but keeps the geometry, and it carries no alpha channel,
/// so the decoded stream comes back at the same geometry and fully opaque.
#[verifier::external_body]
pub fn encode_jpeg(img: &TileImage, quality: u8) -> (r: Result<Vec<u8>, TileServiceError>)
    requires
        img.wf(),
        1 <= quality <= 100,
    ensures
        r matches Ok(v) ==> v@ == jpeg_encoding(
            img.width as nat,
            img.height as nat,
            img.pixels@,
            quality,
        ) && v@.len() > 0,
        r matches Ok(v) ==> (decoded_rgba(v@) matches Some(d) && d.0 == img.width as nat && d.1
            == img.height as nat && d.2.len() == 4 * (img.width as nat) * (img.height as nat)
            && forall|k: int| 0 <= k < d.2.len() && k % 4 == 3 ==> d.2[k] == 255),
        r matches Err(e) ==> e matches TileServiceError::ProcessingFailure(_),
        spec_encode_ok_dims(TileFormat::JPEG, img.width, img.height) ==> r is Ok,
{
    let buf = image::RgbaImage::from_raw(img.width, img.height, img.pixels.clone())
        .expect("pixel buffer matches dimensions");
    let rgb = image::DynamicImage::ImageRgba8(buf).to_rgb8();
    let mut out: Vec<u8> = Vec::new();
    let encoder = image::codecs::jpeg::JpegEncoder::new_with_quality(&mut out, quality);
    match rgb.write_with_encoder(encoder) {
        Ok(()) => Ok(out),
        Err(e) => Err(TileServiceError::ProcessingFailure(e.to_string())),
    }
}

/// What lossless WebP encoding of an RGBA buffer yields.  A function of the
/// pixels and geometry alone.
pub uninterp spec fn webp_encoding(w: nat, h: nat, pixels: Seq<u8>) -> Seq<u8>;

/// Relies on WebPEncoder::new_lossless: the encoding is a function of the
/// pixels and geometry alone, and a WebP stream opens with a RIFF header,
/// so it is never empty.  The encoder accepts exactly four bytes per pixel
/// and, writing to a byte vector, rejects exactly the dimensions outside
/// 1..=16384.  Lossless WebP decodes back to exactly the geometry and
/// pixels that went in.
#[verifier::external_body]
pub fn encode_webp(img: &TileImage) -> (r: Result<Vec<u8>, TileServiceError>)
    requires
        img.wf(),
    ensures
        r matches Ok(v) ==> v@ == webp_encoding(img.width as nat, img.height as nat, img.pixels@)
            && v@.len() > 0,
        r matches Ok(v) ==> decoded_rgba(v@) == Some(
            (img.width as nat, img.height as nat, img.pixels@),
        ),
        r matches Err(e) ==> e matches TileServiceError::ProcessingFailure(_),
        spec_encode_ok_dims(TileFormat::WEBP, img.width, img.height) ==> r is Ok,
{
    let mut out: Vec<u8> = Vec::new();
    let encoder = image::codecs::webp::WebPEncoder::new_lossless(&mut out);
    match encoder.encode(&img.pixels, img.width, img.height, image::ExtendedColorType::Rgba8) {
        Ok(()) => Ok(out),
        Err(e) => Err(TileServiceError::ProcessingFailure(e.to_string())),
    }
}

/// Flattens an RGBA image to a three-byte-per-pixel RGB buffer by dropping
/// the alpha channel.
pub fn ensure_rgb8(img: &TileImage) -> (r: Vec<u8>)
    requires
        img.wf(),
    ensures
        r@.len() == 3 * (img.width as int) * (img.height as int),
        forall|k: int|
            0 <= k < r@.len() ==> r@[k] == img.pixels@[4 * (k / 3) + (k % 3)],
{
    let n = img.pixels.len();
    let mut out: Vec<u8> = Vec::new();
    let mut j: usize = 0;
    proof {
        assert(4 * (img.width as int) * (img.height as int) == 4 * ((img.width as int) * (
        img.height as int))) by (nonlinear_arith);
    }
    let total: usize = n / 4;
    while j < total
        invariant
            img.wf(),
            n == img.pixels@.len(),
            total == n / 4,
            n == 4 * total,
            j <= total,
            out@.len() == 3 * j,
            forall|k: int| 0 <= k < out@.len() ==> out@[k] == img.pixels@[4 * (k / 3) + (k % 3)],
        decreases total - j,
    {
        let r = img.pixels[4 * j];
        let g = img.pixels[4 * j + 1];
        let b = img.pixels[4 * j + 2];
        let ghost pre = out@;
        out.push(r);
        out.push(g);
        out.push(b);
        proof {
            assert forall|k: int| 0 <= k < out@.len() implies out@[k] == img.pixels@[4 * (k / 3) + (
            k % 3)] by {
                if k < pre.len() {
                } else {
                    vstd::arithmetic::div_mod::lemma_fundamental_div_mod_converse(
                        k,
                        3,
                        j as int,
                        k - 3 * (j as int),
                    );
                }
            }
        }
        j = j + 1;
    }
    proof {
        assert(3 * ((n as int) / 4) == 3 * (img.width as int) * (img.height as int))
            by (nonlinear_arith)
            requires
                n == 4 * (img.width as int) * (img.height as int),
        ;
    }
    out
}

/// Expands a three-byte-per-pixel RGB buffer to an RGBA image with a fully
/// opaque alpha channel.
pub fn ensure_rgba8(width: u32, height: u32, rgb: &Vec<u8>) -> (r: TileImage)
    requires
        rgb@.len() == 3 * (width as int) * (height as int),
    ensures
        r.wf(),
        r.width == width,
        r.height == height,
        forall|k: int|
            0 <= k < r.pixels@.len() ==> r.pixels@[k] == (if k % 4 == 3 {
                255u8
            } else {
                rgb@[3 * (k / 4) + (k % 4)]
            }),
{
    let n = rgb.len();
    let mut out: Vec<u8> = Vec::new();
    let mut j: usize = 0;
    proof {
        assert(3 * (width as int) * (height as int) == 3 * ((width as int) * (height as int)))
            by (nonlinear_arith);
    }
    let total: usize = n / 3;
    while j < total
        invariant
            n == rgb@.len(),
            total == n / 3,
            n == 3 * total,
            j <= total,
            out@.len() == 4 * j,
            forall|k: int|
                0 <= k < out@.len() ==> out@[k] == (if k % 4 == 3 {
                    255u8
                } else {
                    rgb@[3 * (k / 4) + (k % 4)]
                }),
        decreases total - j,
    {
        let r = rgb[3 * j];
        let g = rgb[3 * j + 1];
        let b = rgb[3 * j + 2];
        let ghost pre = out@;
        out.push(r);
        out.push(g);
        out.push(b);
        out.push(255);
        proof {
            assert forall|k: int|
                0 <= k < out@.len() implies out@[k] == (if k % 4 == 3 {
                255u8
            } else {
                rgb@[3 * (k / 4) + (k % 4)]
            }) by {
                if k < pre.len() {
                } else {
                    vstd::arithmetic::div_mod::lemma_fundamental_div_mod_converse(
                        k,
                        4,
                        j as int,
                        k - 4 * (j as int),
                    );
                }
            }
        }
        j = j + 1;
    }
    proof {
        assert(4 * ((n as int) / 3) == 4 * (width as int) * (height as int)) by (nonlinear_arith)
            requires
                n == 3 * (width as int) * (height as int),
        ;
    }
    TileImage { width, height, pixels: out }
}

} // verus!
