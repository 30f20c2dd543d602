//! The per-tile image pipeline: resizing to the configured tile size,
//! encoding to the requested format, and marker compositing.

use vstd::prelude::*;
use vstd::string::StringExecFns;
use crate::errors::TileServiceError;
use crate::image_model::{
    blend_pixel,
    composite_overlay,
    image_from_fn,
    lemma_image_from_fn_pixel,
    lemma_pixel_after_overlays_push,
    lemma_pixels_determine,
    solid_tile,
    spec_blend,
    spec_overlay_pixel,
    spec_pixel_after_overlays,
    Pixel,
    SpecImage,
    TileImage,
};
use crate::imaging::{
    decoded_rgba,
    encode_jpeg,
    encode_png,
    encode_webp,
    jpeg_encoding,
    png_encoding,
    resampled,
    resize_exact,
    spec_encode_ok_dims,
    webp_encoding,
};
use crate::models::{spec_format_from_str, TileFormat};

verus! {

/// The JPEG quality used when a caller names no quality of its own.
pub const DEFAULT_JPEG_QUALITY: u8 = 75;

/// Prepares tile images: resizes them to one configured square size,
/// composites overlays, and encodes.
pub struct ImageProcessor {
    pub tile_size: u32,
}

/// The spec-level view of a positioned overlay list.
pub open spec fn spec_overlays_view(ovs: Seq<(TileImage, u32, u32)>) -> Seq<(SpecImage, int, int)> {
    ovs.map_values(|t: (TileImage, u32, u32)| (t.0@, t.1 as int, t.2 as int))
}

impl ImageProcessor {
    pub fn new(tile_size: u32) -> (r: Self)
        ensures
            r.tile_size == tile_size,
    {
        ImageProcessor { tile_size }
    }

    /// Resamples an image to the configured square tile size.
    pub fn resize_to_tile(&self, image: &TileImage) -> (r: TileImage)
        requires
            image.wf(),
        ensures
            r.wf(),
            r.width == self.tile_size,
            r.height == self.tile_size,
            r.pixels@ == resampled(
                image.pixels@,
                image.width as nat,
                image.height as nat,
                self.tile_size as nat,
                self.tile_size as nat,
            ),
    {
        resize_exact(image, self.tile_size, self.tile_size)
    }

    /// Encodes an image to the format a string names.  A string outside the
    /// closed format set is rejected before any encoding; JPEG flattens the
    /// alpha channel and uses the default quality, and WEBP is lossless.
    /// For a recognised format the call succeeds whenever the image's
    /// geometry is within the format's encodable range.
    pub fn encode_image(&self, image: &TileImage, format: &str) -> (r: Result<
        Vec<u8>,
        TileServiceError,
    >)
        requires
            image.wf(),
        ensures
            spec_format_from_str(format@) is None ==> (r matches Err(e) && e matches
                TileServiceError::UnsupportedFormat(m) && m@ == format@),
            spec_format_from_str(format@) matches Some(f) ==> match f {
                TileFormat::PNG => (r matches Ok(v) ==> v@ == png_encoding(
                    image.width as nat,
                    image.height as nat,
                    image.pixels@,
                ) && v@.len() > 0),
                TileFormat::JPEG => (r matches Ok(v) ==> v@ == jpeg_encoding(
                    image.width as nat,
                    image.height as nat,
                    image.pixels@,
                    DEFAULT_JPEG_QUALITY,
                ) && v@.len() > 0),
                TileFormat::WEBP => (r matches Ok(v) ==> v@ == webp_encoding(
                    image.width as nat,
                    image.height as nat,
                    image.pixels@,
                ) && v@.len() > 0),
            },
            spec_format_from_str(format@) matches Some(f) && spec_encode_ok_dims(
                f,
                image.width,
                image.height,
            ) ==> r is Ok,
            r matches Ok(v) ==> (decoded_rgba(v@) matches Some(d) && d.0 == image.width as nat
                && d.1 == image.height as nat),
            spec_format_from_str(format@) is Some && r is Err ==> (r matches Err(e) && e matches
                TileServiceError::ProcessingFailure(_)),
    {
        match TileFormat::from_str(format) {
            Some(TileFormat::PNG) => encode_png(image),
            Some(TileFormat::JPEG) => encode_jpeg(image, DEFAULT_JPEG_QUALITY),
            Some(TileFormat::WEBP) => self.encode_webp(image),
            None => Err(TileServiceError::UnsupportedFormat(String::from_str(format))),
        }
    }

    /// Encodes a tile as lossless WebP.
    pub fn encode_webp(&self, image: &TileImage) -> (r: Result<Vec<u8>, TileServiceError>)
        requires
            image.wf(),
        ensures
            r matches Ok(v) ==> v@ == webp_encoding(
                image.width as nat,
                image.height as nat,
                image.pixels@,
            ) && v@.len() > 0,
            r matches Ok(v) ==> decoded_rgba(v@) == Some(
                (image.width as nat, image.height as nat, image.pixels@),
            ),
            r matches Err(e) ==> e matches TileServiceError::ProcessingFailure(_),
            spec_encode_ok_dims(TileFormat::WEBP, image.width, image.height) ==> r is Ok,
    {
        encode_webp(image)
    }

    /// Blends one overlay pixel onto one base pixel.
    pub fn alpha_blend(&self, base: Pixel, overlay: Pixel) -> (p: Pixel)
        ensures
            p == spec_blend(base, overlay),
    {
        blend_pixel(base, overlay)
    }

    /// Blends one overlay image onto a base image at an offset.
    pub fn blend_images(&self, base: &TileImage, overlay: &TileImage, x: u32, y: u32) -> (r:
        TileImage)
        requires
            base.wf(),
            overlay.wf(),
        ensures
            r.wf(),
            r.width == base.width,
            r.height == base.height,
            forall|px: int, py: int|
                0 <= px < base.width && 0 <= py < base.height ==> #[trigger] r@.pixel(px, py)
                    == spec_overlay_pixel(
                    base@.pixel(px, py),
                    overlay@,
                    x as int,
                    y as int,
                    px,
                    py,
                ),
    {
        composite_overlay(base, overlay, x, y)
    }

    /// Blends a list of positioned overlays onto a base image, in order.
    pub fn composite_images(&self, base: &TileImage, overlays: Vec<(TileImage, u32, u32)>) -> (r:
        TileImage)
        requires
            base.wf(),
            forall|i: int| 0 <= i < overlays@.len() ==> (#[trigger] overlays@[i]).0.wf(),
        ensures
            r.wf(),
            r.width == base.width,
            r.height == base.height,
            forall|px: int, py: int|
                0 <= px < base.width && 0 <= py < base.height ==> #[trigger] r@.pixel(px, py)
                    == spec_pixel_after_overlays(
                    base@.pixel(px, py),
                    spec_overlays_view(overlays@),
                    px,
                    py,
                ),
    {
        let ghost ovs = spec_overlays_view(overlays@);
        let mut result = TileImage {
            width: base.width,
            height: base.height,
            pixels: self.copy_pixels(base),
        };
        let mut k: usize = 0;
        proof {
            assert(ovs.take(0) =~= Seq::<(SpecImage, int, int)>::empty());
        }
        while k < overlays.len()
            invariant
                base.wf(),
                forall|i: int| 0 <= i < overlays@.len() ==> (#[trigger] overlays@[i]).0.wf(),
                ovs == spec_overlays_view(overlays@),
                k <= overlays@.len(),
                result.wf(),
                result.width == base.width,
                result.height == base.height,
                forall|px: int, py: int|
                    0 <= px < base.width && 0 <= py < base.height ==> #[trigger] result@.pixel(
                        px,
                        py,
                    ) == spec_pixel_after_overlays(base@.pixel(px, py), ovs.take(k as int), px, py),
            decreases overlays@.len() - k,
        {
            let next = composite_overlay(&result, &overlays[k].0, overlays[k].1, overlays[k].2);
            proof {
                assert(ovs.take(k as int + 1) =~= ovs.take(k as int).push(ovs[k as int]));
                assert forall|px: int, py: int|
                    0 <= px < base.width && 0 <= py < base.height implies #[trigger] next@.pixel(
                    px,
                    py,
                ) == spec_pixel_after_overlays(
                    base@.pixel(px, py),
                    ovs.take(k as int + 1),
                    px,
                    py,
                ) by {
                    lemma_pixel_after_overlays_push(
                        base@.pixel(px, py),
                        ovs.take(k as int),
                        ovs[k as int],
                        px,
                        py,
                    );
                }
            }
            result = next;
            k = k + 1;
        }
        proof {
            assert(ovs.take(overlays@.len() as int) =~= ovs);
        }
        result
    }

    /// Copies an image's pixel buffer.
    fn copy_pixels(&self, img: &TileImage) -> (r: Vec<u8>)
        ensures
            r@ == img.pixels@,
    {
        let mut out: Vec<u8> = Vec::new();
        let mut i: usize = 0;
        let n = img.pixels.len();
        while i < n
            invariant
                n == img.pixels@.len(),
                i <= n,
                out@ == img.pixels@.take(i as int),
            decreases n - i,
        {
            out.push(img.pixels[i]);
            proof {
                assert(out@ =~= img.pixels@.take(i as int + 1));
            }
            i = i + 1;
        }
        proof {
            assert(img.pixels@.take(n as int) =~= img.pixels@);
        }
        out
    }
}

/// A fully transparent square image.
pub open spec fn spec_transparent_tile(size: u32) -> SpecImage {
    image_from_fn(size as int, size as int, |x: int, y: int| Pixel { r: 0, g: 0, b: 0, a: 0 })
}

/// A fully transparent tile of the given side length, encoded to the
/// requested format; JPEG, which carries no alpha, uses the default
/// quality and WEBP is lossless.  Succeeds whenever the side length is
/// within the format's encodable range.
pub fn blank_tile(size: u32, format: &TileFormat) -> (r: Result<Vec<u8>, TileServiceError>)
    requires
        4 * (size as int) * (size as int) <= usize::MAX,
    ensures
        spec_encode_ok_dims(*format, size, size) ==> r is Ok,
        r matches Ok(v) ==> v@ == (match *format {
            TileFormat::PNG => png_encoding(
                size as nat,
                size as nat,
                spec_transparent_tile(size).pixels,
            ),
            TileFormat::JPEG => jpeg_encoding(
                size as nat,
                size as nat,
                spec_transparent_tile(size).pixels,
                DEFAULT_JPEG_QUALITY,
            ),
            TileFormat::WEBP => webp_encoding(
                size as nat,
                size as nat,
                spec_transparent_tile(size).pixels,
            ),
        }) && v@.len() > 0,
        r matches Err(e) ==> e matches TileServiceError::ProcessingFailure(_),
{
    let img = solid_tile(size, Pixel { r: 0, g: 0, b: 0, a: 0 });
    proof {
        let target = spec_transparent_tile(size);
        assert forall|x: int, y: int|
            0 <= x < size && 0 <= y < size implies #[trigger] img@.pixel(x, y) == target.pixel(
            x,
            y,
        ) by {
            lemma_image_from_fn_pixel(
                size as int,
                size as int,
                |a: int, b: int| Pixel { r: 0, g: 0, b: 0, a: 0 },
                x,
                y,
            );
        }
        if size > 0 {
            lemma_image_from_fn_pixel(
                size as int,
                size as int,
                |a: int, b: int| Pixel { r: 0, g: 0, b: 0, a: 0 },
                0,
                0,
            );
        } else {
            assert(4 * (size as int) * (size as int) == 0) by (nonlinear_arith)
                requires
                    size as int == 0,
            ;
        }
        lemma_pixels_determine(img@, target);
        assert(img@ =~= target);
    }
    match format {
        TileFormat::PNG => encode_png(&img),
        TileFormat::JPEG => encode_jpeg(&img, DEFAULT_JPEG_QUALITY),
        TileFormat::WEBP => encode_webp(&img),
    }
}

} // verus!
