//! The marker-path tile generator: synthesises a tile from a base image and
//! the markers inside its bounds, and orchestrates the cache, the origin
//! store and the metadata rows around a request.
//!
//! Fetching base-map bytes, querying marker rows and projecting geographic
//! bounds are a deployment's work; they arrive here as plain values.

use vstd::prelude::*;
use vstd::string::StringExecFns;
use crate::cache::{spec_etag_key, spec_live, spec_set, TileCache};
use crate::errors::TileServiceError;
use crate::image_model::{
    image_from_fn,
    lemma_image_from_fn_pixel,
    lemma_pixel_after_overlays_push,
    lemma_pixels_determine,
    spec_pixel_after_overlays,
    Pixel,
    SpecImage,
    TileImage,
};
use crate::imaging::{
    content_hash_of,
    decode_image,
    decoded_rgba,
    default_hash,
    jpeg_encoding,
    png_encoding,
    resampled,
    spec_encode_ok_dims,
    webp_encoding,
};
use crate::models::{spec_format_from_str, TileFormat};
use crate::processor::{ImageProcessor, DEFAULT_JPEG_QUALITY};
use crate::game::Game;
use crate::store::{record_key, record_view, OriginStore};
use crate::strutil::{
    dec_digits,
    eq_ignore_ascii_case,
    hex_digits,
    str_eq,
    str_eq_ignore_case,
    u64_dec_str,
    u64_hex_str,
};
use crate::tile::{
    spec_cache_key,
    spec_request_valid,
    TileBounds,
    TileMetadata,
    TileRequest,
    TileResponse,
};
use crate::wkt::{parse_point, spec_parse_point};

verus! {

/// A geographic position in microdegrees.
#[derive(Clone, Copy, Debug, PartialEq, Eq, Structural)]
pub struct LatLng {
    pub lat_udeg: i64,
    pub lng_udeg: i64,
}

/// One marker row as the spatial store hands it over; the position is WKT
/// `POINT(lng lat)` text and the extra attributes ride along as raw JSON
/// text.
#[derive(Clone, Debug)]
pub struct MarkerData {
    pub id: String,
    pub position: String,
    pub marker_type: String,
    pub title: String,
    pub metadata: String,
}

impl MarkerData {
    /// The marker's position, if its WKT text is well formed.
    pub fn get_position(&self) -> (r: Option<LatLng>)
        ensures
            r == (match spec_parse_point(self.position@) {
                Some(p) => Some(LatLng { lat_udeg: p.1, lng_udeg: p.0 }),
                None => None::<LatLng>,
            }),
    {
        match parse_point(self.position.as_str()) {
            Some((lng, lat)) => Some(LatLng { lat_udeg: lat, lng_udeg: lng }),
            None => None,
        }
    }
}

/// Usable tile bounds: strictly ordered on both axes.
pub open spec fn bounds_usable(b: TileBounds) -> bool {
    b.west_udeg < b.east_udeg && b.south_udeg < b.north_udeg
}

/// A nonnegative offset scaled into tile pixels and clamped to the pixel
/// range, as casting the real-valued projection to `u32` would clamp it.
pub open spec fn spec_proj(delta: int, ts: int, span: int) -> u32 {
    if delta <= 0 {
        0
    } else {
        let q = delta * ts / span;
        if q > u32::MAX {
            u32::MAX
        } else {
            q as u32
        }
    }
}

/// The horizontal pixel of a longitude inside bounds.
pub open spec fn spec_px(lng: i64, b: TileBounds, ts: u32) -> u32 {
    spec_proj(lng - b.west_udeg, ts as int, b.east_udeg - b.west_udeg)
}

/// The vertical pixel of a latitude inside bounds.
pub open spec fn spec_py(lat: i64, b: TileBounds, ts: u32) -> u32 {
    spec_proj(b.north_udeg - lat, ts as int, b.north_udeg - b.south_udeg)
}

fn proj(delta: i128, ts: u32, span: i128) -> (r: u32)
    requires
        span > 0,
        delta <= 0x20000000000000000,
    ensures
        r == spec_proj(delta as int, ts as int, span as int),
{
    if delta <= 0 {
        return 0;
    }
    proof {
        assert((delta as int) * (ts as int) <= 0x20000000000000000 * 0x100000000)
            by (nonlinear_arith)
            requires
                0 <= delta as int <= 0x20000000000000000,
                0 <= ts as int <= 0x100000000,
        ;
    }
    let q: u128 = (delta as u128) * (ts as u128) / (span as u128);
    if q > 0xffffffff {
        u32::MAX
    } else {
        q as u32
    }
}

/// The grey, fully opaque base pixel used when no base map is available.
pub open spec fn spec_blank_pixel() -> Pixel {
    Pixel { r: 240, g: 240, b: 240, a: 255 }
}

/// The blank base tile: a uniform grey square.
pub open spec fn spec_blank_base(ts: u32) -> SpecImage {
    image_from_fn(ts as int, ts as int, |x: int, y: int| spec_blank_pixel())
}

/// The colour a marker type draws in.
pub open spec fn spec_marker_color(t: Seq<char>) -> Pixel {
    if t == "treasure"@ {
        Pixel { r: 255, g: 215, b: 0, a: 255 }
    } else if t == "enemy"@ {
        Pixel { r: 255, g: 0, b: 0, a: 255 }
    } else if t == "npc"@ {
        Pixel { r: 0, g: 255, b: 0, a: 255 }
    } else if t == "poi"@ {
        Pixel { r: 0, g: 0, b: 255, a: 255 }
    } else {
        Pixel { r: 128, g: 128, b: 128, a: 255 }
    }
}

/// One pixel of a marker icon: the type's colour inside the centred disc of
/// radius six, transparent outside it.
pub open spec fn spec_icon_pixel(t: Seq<char>, x: int, y: int) -> Pixel {
    if (x - 8) * (x - 8) + (y - 8) * (y - 8) <= 36 {
        spec_marker_color(t)
    } else {
        Pixel { r: 0, g: 0, b: 0, a: 0 }
    }
}

/// A marker type's icon.
pub open spec fn spec_icon_image(t: Seq<char>) -> SpecImage {
    image_from_fn(16, 16, |x: int, y: int| spec_icon_pixel(t, x, y))
}

/// The positioned icon overlays of a marker list: one per marker whose
/// position parses, in order, at its projected pixel.
pub open spec fn spec_marker_overlays(ms: Seq<MarkerData>, b: TileBounds, ts: u32) -> Seq<
    (SpecImage, int, int),
>
    decreases ms.len(),
{
    if ms.len() == 0 {
        Seq::empty()
    } else {
        let rest = spec_marker_overlays(ms.drop_first(), b, ts);
        match spec_parse_point(ms[0].position@) {
            Some(p) => seq![
                (
                    spec_icon_image(ms[0].marker_type@),
                    spec_px(p.0, b, ts) as int,
                    spec_py(p.1, b, ts) as int,
                ),
            ] + rest,
            None => rest,
        }
    }
}

proof fn lemma_marker_overlays_push(ms: Seq<MarkerData>, m: MarkerData, b: TileBounds, ts: u32)
    ensures
        spec_marker_overlays(ms.push(m), b, ts) == (match spec_parse_point(m.position@) {
            Some(p) => spec_marker_overlays(ms, b, ts).push(
                (
                    spec_icon_image(m.marker_type@),
                    spec_px(p.0, b, ts) as int,
                    spec_py(p.1, b, ts) as int,
                ),
            ),
            None => spec_marker_overlays(ms, b, ts),
        }),
    decreases ms.len(),
{
    if ms.len() == 0 {
        assert(ms.push(m)[0] == m);
        assert(ms.push(m).drop_first() =~= Seq::<MarkerData>::empty());
        assert(spec_marker_overlays(Seq::<MarkerData>::empty(), b, ts) =~= Seq::<
            (SpecImage, int, int),
        >::empty());
        assert(spec_marker_overlays(ms, b, ts) =~= Seq::<(SpecImage, int, int)>::empty());
        match spec_parse_point(m.position@) {
            Some(p) => {
                let item = (
                    spec_icon_image(m.marker_type@),
                    spec_px(p.0, b, ts) as int,
                    spec_py(p.1, b, ts) as int,
                );
                assert(spec_marker_overlays(ms.push(m), b, ts) =~= seq![item] + Seq::<
                    (SpecImage, int, int),
                >::empty());
                assert(seq![item] + Seq::<(SpecImage, int, int)>::empty() =~= spec_marker_overlays(
                    ms,
                    b,
                    ts,
                ).push(item));
            },
            None => {
                assert(spec_marker_overlays(ms.push(m), b, ts) =~= spec_marker_overlays(
                    ms,
                    b,
                    ts,
                ));
            },
        }
    } else {
        assert(ms.push(m)[0] == ms[0]);
        assert(ms.push(m).drop_first() =~= ms.drop_first().push(m));
        lemma_marker_overlays_push(ms.drop_first(), m, b, ts);
        match spec_parse_point(ms[0].position@) {
            Some(p0) => {
                match spec_parse_point(m.position@) {
                    Some(p) => {
                        assert(seq![
                            (
                                spec_icon_image(ms[0].marker_type@),
                                spec_px(p0.0, b, ts) as int,
                                spec_py(p0.1, b, ts) as int,
                            ),
                        ] + spec_marker_overlays(ms.drop_first(), b, ts).push(
                            (
                                spec_icon_image(m.marker_type@),
                                spec_px(p.0, b, ts) as int,
                                spec_py(p.1, b, ts) as int,
                            ),
                        ) =~= (seq![
                            (
                                spec_icon_image(ms[0].marker_type@),
                                spec_px(p0.0, b, ts) as int,
                                spec_py(p0.1, b, ts) as int,
                            ),
                        ] + spec_marker_overlays(ms.drop_first(), b, ts)).push(
                            (
                                spec_icon_image(m.marker_type@),
                                spec_px(p.0, b, ts) as int,
                                spec_py(p.1, b, ts) as int,
                            ),
                        ));
                    },
                    None => {
                    },
                }
            },
            None => {
            },
        }
    }
}

/// The base image a tile starts from: the decoded base-map bytes when a
/// base-map URL is registered, they arrived, and they decode; the blank
/// grey tile otherwise.
pub open spec fn spec_base_image(
    has_url: bool,
    base_bytes: Option<Seq<u8>>,
    ts: u32,
) -> SpecImage {
    if has_url {
        match base_bytes {
            Some(b) => match decoded_rgba(b) {
                Some(d) => SpecImage { width: d.0 as int, height: d.1 as int, pixels: d.2 },
                None => spec_blank_base(ts),
            },
            None => spec_blank_base(ts),
        }
    } else {
        spec_blank_base(ts)
    }
}

/// The synthesised image after marker rendering, before the final resize.
pub open spec fn spec_rendered_image(
    base: SpecImage,
    ms: Seq<MarkerData>,
    b: TileBounds,
    ts: u32,
) -> SpecImage {
    if ms.len() > 0 {
        image_from_fn(
            base.width,
            base.height,
            |x: int, y: int|
                spec_pixel_after_overlays(base.pixel(x, y), spec_marker_overlays(ms, b, ts), x, y),
        )
    } else {
        base
    }
}

/// The pixel buffer of a synthesised tile: the rendered image resampled to
/// the square tile size.
pub open spec fn spec_synth_pixels(
    has_url: bool,
    base_bytes: Option<Seq<u8>>,
    ms: Seq<MarkerData>,
    b: TileBounds,
    ts: u32,
) -> Seq<u8> {
    let rendered = spec_rendered_image(spec_base_image(has_url, base_bytes, ts), ms, b, ts);
    resampled(rendered.pixels, rendered.width as nat, rendered.height as nat, ts as nat, ts as nat)
}

/// What a synthesised tile encodes to, if its format string is accepted.
pub open spec fn spec_synth_bytes(
    format: Seq<char>,
    has_url: bool,
    base_bytes: Option<Seq<u8>>,
    ms: Seq<MarkerData>,
    b: TileBounds,
    ts: u32,
) -> Option<Seq<u8>> {
    let px = spec_synth_pixels(has_url, base_bytes, ms, b, ts);
    match spec_format_from_str(format) {
        Some(TileFormat::PNG) => Some(png_encoding(ts as nat, ts as nat, px)),
        Some(TileFormat::JPEG) => Some(
            jpeg_encoding(ts as nat, ts as nat, px, DEFAULT_JPEG_QUALITY),
        ),
        Some(TileFormat::WEBP) => Some(webp_encoding(ts as nat, ts as nat, px)),
        None => None,
    }
}

/// The content type a format string is served with; an unrecognised string
/// falls back to a byte-stream type.
pub open spec fn spec_content_type(format: Seq<char>) -> Seq<char> {
    if eq_ignore_ascii_case(format, "png"@) {
        "image/png"@
    } else if eq_ignore_ascii_case(format, "jpg"@) || eq_ignore_ascii_case(format, "jpeg"@) {
        "image/jpeg"@
    } else if eq_ignore_ascii_case(format, "webp"@) {
        "image/webp"@
    } else {
        "application/octet-stream"@
    }
}

/// The quoted ETag of a payload.
pub open spec fn spec_etag_of(data: Seq<u8>) -> Seq<char> {
    seq!['"'] + dec_digits(content_hash_of(data) as nat) + seq!['"']
}

/// Relies on uuid::Uuid::new_v4: the identifier is random, and its
/// hyphenated text form is 36 characters.
#[verifier::external_body]
fn new_uuid_string() -> (r: String)
    ensures
        r@.len() == 36,
{
    uuid::Uuid::new_v4().to_string()
}

/// Relies on chrono::Utc::now: a wall-clock reading admits no functional
/// specification.
#[verifier::external_body]
fn now_timestamp() -> (r: i64)
{
    chrono::Utc::now().timestamp()
}

/// Synthesises marker tiles and orchestrates their caching and persistence.
pub struct TileGenerator {
    pub image_processor: ImageProcessor,
    pub min_zoom: u8,
    pub max_zoom: u8,
}

impl TileGenerator {
    /// A usable generator: a positive tile size whose square buffer fits in
    /// memory, and an ordered zoom range.
    pub open spec fn wf(self) -> bool {
        &&& 1 <= self.image_processor.tile_size
        &&& 4 * (self.image_processor.tile_size as int) * (self.image_processor.tile_size as int)
            <= usize::MAX
        &&& self.min_zoom <= self.max_zoom
    }

    pub fn new(image_processor: ImageProcessor, min_zoom: u8, max_zoom: u8) -> (r: TileGenerator)
        ensures
            r.image_processor == image_processor,
            r.min_zoom == min_zoom,
            r.max_zoom == max_zoom,
    {
        TileGenerator { image_processor, min_zoom, max_zoom }
    }

    /// The MIME type a format string is served with.
    pub fn get_content_type(&self, format: &str) -> (r: String)
        ensures
            r@ == spec_content_type(format@),
    {
        if str_eq_ignore_case(format, "png") {
            String::from_str("image/png")
        } else if str_eq_ignore_case(format, "jpg") || str_eq_ignore_case(format, "jpeg") {
            String::from_str("image/jpeg")
        } else if str_eq_ignore_case(format, "webp") {
            String::from_str("image/webp")
        } else {
            String::from_str("application/octet-stream")
        }
    }

    /// The quoted ETag of a payload: equal bytes always carry equal ETags.
    pub fn generate_etag(&self, data: &Vec<u8>) -> (r: String)
        ensures
            r@ == spec_etag_of(data@),
    {
        let h = default_hash(data);
        let mut s = String::from_str("\u{22}");
        let ds = u64_dec_str(h);
        s.append(ds.as_str());
        s.append("\u{22}");
        proof {
            reveal_strlit("\u{22}");
            assert("\u{22}"@ =~= seq!['"']);
            assert(s@ =~= spec_etag_of(data@));
        }
        s
    }

    /// The content hash recorded in metadata rows.
    pub fn calculate_hash(&self, data: &Vec<u8>) -> (r: String)
        ensures
            r@ == hex_digits(content_hash_of(data@) as nat),
    {
        let h = default_hash(data);
        u64_hex_str(h)
    }

    /// Projects a position to its pixel inside a tile's bounds, clamped to
    /// the pixel range.
    pub fn lat_lng_to_pixel(&self, position: &LatLng, bounds: &TileBounds, tile_size: u32) -> (r: (
        u32,
        u32,
    ))
        requires
            bounds_usable(*bounds),
        ensures
            r.0 == spec_px(position.lng_udeg, *bounds, tile_size),
            r.1 == spec_py(position.lat_udeg, *bounds, tile_size),
    {
        let dx: i128 = (position.lng_udeg as i128) - (bounds.west_udeg as i128);
        let dy: i128 = (bounds.north_udeg as i128) - (position.lat_udeg as i128);
        let px = proj(dx, tile_size, (bounds.east_udeg as i128) - (bounds.west_udeg as i128));
        let py = proj(dy, tile_size, (bounds.north_udeg as i128) - (bounds.south_udeg as i128));
        (px, py)
    }

    /// The blank grey base tile.
    pub fn create_blank_base_tile(&self) -> (r: TileImage)
        requires
            self.wf(),
        ensures
            r.wf(),
            r@ == spec_blank_base(self.image_processor.tile_size),
    {
        let ts = self.image_processor.tile_size;
        let img = crate::image_model::solid_tile(ts, Pixel { r: 240, g: 240, b: 240, a: 255 });
        proof {
            assert forall|x: int, y: int|
                0 <= x < ts && 0 <= y < ts implies #[trigger] img@.pixel(x, y) == spec_blank_base(
                ts,
            ).pixel(x, y) by {
                lemma_image_from_fn_pixel(
                    ts as int,
                    ts as int,
                    |x: int, y: int| spec_blank_pixel(),
                    x,
                    y,
                );
            }
            if ts > 0 {
                lemma_image_from_fn_pixel(
                    ts as int,
                    ts as int,
                    |x: int, y: int| spec_blank_pixel(),
                    0,
                    0,
                );
            }
            lemma_pixels_determine(img@, spec_blank_base(ts));
            assert(img@ =~= spec_blank_base(ts));
        }
        img
    }

    /// Draws a marker type's icon: its colour inside the centred disc,
    /// transparent outside.
    pub fn get_marker_icon(&self, marker_type: &str) -> (r: Result<TileImage, TileServiceError>)
        ensures
            r is Ok,
            r matches Ok(img) ==> img.wf() && img@ == spec_icon_image(marker_type@),
    {
        let color = if str_eq(marker_type, "treasure") {
            Pixel { r: 255, g: 215, b: 0, a: 255 }
        } else if str_eq(marker_type, "enemy") {
            Pixel { r: 255, g: 0, b: 0, a: 255 }
        } else if str_eq(marker_type, "npc") {
            Pixel { r: 0, g: 255, b: 0, a: 255 }
        } else if str_eq(marker_type, "poi") {
            Pixel { r: 0, g: 0, b: 255, a: 255 }
        } else {
            Pixel { r: 128, g: 128, b: 128, a: 255 }
        };
        proof {
            assert(color == spec_marker_color(marker_type@));
        }
        let mut out: Vec<u8> = Vec::new();
        let ghost target = spec_icon_image(marker_type@);
        let mut y: u32 = 0;
        while y < 16
            invariant
                color == spec_marker_color(marker_type@),
                y <= 16,
                out@.len() == 4 * (y as int) * 16,
                forall|qx: int, qy: int|
                    0 <= qx < 16 && 0 <= qy < y ==> #[trigger] (SpecImage {
                        width: 16,
                        height: 16,
                        pixels: out@,
                    }).pixel(qx, qy) == spec_icon_pixel(marker_type@, qx, qy),
            decreases 16 - y,
        {
            let mut x: u32 = 0;
            while x < 16
                invariant
                    color == spec_marker_color(marker_type@),
                    y < 16,
                    x <= 16,
                    out@.len() == 4 * ((y as int) * 16 + x as int),
                    forall|qx: int, qy: int|
                        (0 <= qx < 16 && 0 <= qy < y) || (0 <= qx < x && qy == y)
                            ==> #[trigger] (SpecImage {
                            width: 16,
                            height: 16,
                            pixels: out@,
                        }).pixel(qx, qy) == spec_icon_pixel(marker_type@, qx, qy),
                decreases 16 - x,
            {
                let dx: i64 = (x as i64) - 8;
                let dy: i64 = (y as i64) - 8;
                proof {
                    assert(dx * dx + dy * dy <= 200 && dx * dx >= 0 && dy * dy >= 0)
                        by (nonlinear_arith)
                        requires
                            -8 <= dx <= 8,
                            -8 <= dy <= 8,
                    ;
                }
                let p = if dx * dx + dy * dy <= 36 {
                    color
                } else {
                    Pixel { r: 0, g: 0, b: 0, a: 0 }
                };
                let ghost pre = out@;
                proof {
                    assert(p == spec_icon_pixel(marker_type@, x as int, y as int));
                }
                crate::image_model::push_pixel(&mut out, p);
                proof {
                    crate::image_model::lemma_pixel_push(
                        pre,
                        out@,
                        p,
                        16,
                        16,
                        x as int,
                        y as int,
                    );
                }
                x = x + 1;
            }
            y = y + 1;
        }
        let img = TileImage { width: 16, height: 16, pixels: out };
        proof {
            assert forall|qx: int, qy: int|
                0 <= qx < 16 && 0 <= qy < 16 implies #[trigger] img@.pixel(qx, qy) == target.pixel(
                qx,
                qy,
            ) by {
                lemma_image_from_fn_pixel(
                    16,
                    16,
                    |a: int, b: int| spec_icon_pixel(marker_type@, a, b),
                    qx,
                    qy,
                );
            }
            lemma_image_from_fn_pixel(
                16,
                16,
                |a: int, b: int| spec_icon_pixel(marker_type@, a, b),
                0,
                0,
            );
            lemma_pixels_determine(img@, target);
            assert(img@ =~= target);
        }
        Ok(img)
    }
}

/// The outcome of a tile request that did not fail: a conditional-request
/// short circuit, or a tile to serve.
#[derive(Debug)]
pub enum TileOutcome {
    NotModified,
    Fresh(TileResponse),
}

/// Everything one batch tile needs, assembled by the caller: the request,
/// the tile's projected bounds, optional fetched base-map bytes, and the
/// markers inside the bounds.
pub struct TileJob {
    pub game: Game,
    pub request: TileRequest,
    pub bounds: TileBounds,
    pub base_bytes: Option<Vec<u8>>,
    pub markers: Vec<MarkerData>,
}

/// The spec-level view of optional base bytes.
pub open spec fn spec_bytes_view(b: Option<&Vec<u8>>) -> Option<Seq<u8>> {
    match b {
        Some(v) => Some(v@),
        None => None,
    }
}

impl TileGenerator {
    /// Blends every positioned marker's icon onto a base image at its
    /// projected pixel, in order; markers whose position text is malformed
    /// are skipped.
    pub fn render_markers_on_tile(
        &self,
        base_image: TileImage,
        markers: &Vec<MarkerData>,
        bounds: &TileBounds,
    ) -> (r: Result<TileImage, TileServiceError>)
        requires
            base_image.wf(),
            bounds_usable(*bounds),
        ensures
            r matches Ok(img) ==> img.wf() && img@ == spec_rendered_image(
                base_image@,
                markers@,
                *bounds,
                self.image_processor.tile_size,
            ),
            r is Ok,
    {
        let ts = self.image_processor.tile_size;
        let ghost gbase = base_image@;
        let ghost gmarkers = markers@;
        let ghost govs = spec_marker_overlays(gmarkers, *bounds, ts);
        if markers.len() == 0 {
            return Ok(base_image);
        }
        let mut cur = base_image;
        let mut i: usize = 0;
        let n = markers.len();
        proof {
            assert(gmarkers.take(0) =~= Seq::<MarkerData>::empty());
            assert(spec_marker_overlays(Seq::<MarkerData>::empty(), *bounds, ts) =~= Seq::<
                (SpecImage, int, int),
            >::empty());
        }
        while i < n
            invariant
                n == markers@.len(),
                gmarkers == markers@,
                bounds_usable(*bounds),
                ts == self.image_processor.tile_size,
                i <= n,
                cur.wf(),
                cur.width as int == gbase.width,
                cur.height as int == gbase.height,
                forall|x: int, y: int|
                    0 <= x < gbase.width && 0 <= y < gbase.height ==> #[trigger] cur@.pixel(x, y)
                        == spec_pixel_after_overlays(
                        gbase.pixel(x, y),
                        spec_marker_overlays(gmarkers.take(i as int), *bounds, ts),
                        x,
                        y,
                    ),
            decreases n - i,
        {
            let marker = &markers[i];
            proof {
                assert(gmarkers.take(i as int + 1) =~= gmarkers.take(i as int).push(
                    gmarkers[i as int],
                ));
                lemma_marker_overlays_push(
                    gmarkers.take(i as int),
                    gmarkers[i as int],
                    *bounds,
                    ts,
                );
            }
            match marker.get_position() {
                Some(position) => {
                    let (px, py) = self.lat_lng_to_pixel(&position, bounds, ts);
                    let icon = match self.get_marker_icon(marker.marker_type.as_str()) {
                        Ok(ic) => ic,
                        Err(e) => {
                            return Err(e);
                        },
                    };
                    let next = self.image_processor.blend_images(&cur, &icon, px, py);
                    proof {
                        let ghost item = (
                            spec_icon_image(gmarkers[i as int].marker_type@),
                            px as int,
                            py as int,
                        );
                        assert forall|x: int, y: int|
                            0 <= x < gbase.width && 0 <= y < gbase.height implies #[trigger] next@.pixel(
                            x,
                            y,
                        ) == spec_pixel_after_overlays(
                            gbase.pixel(x, y),
                            spec_marker_overlays(gmarkers.take(i as int + 1), *bounds, ts),
                            x,
                            y,
                        ) by {
                            lemma_pixel_after_overlays_push(
                                gbase.pixel(x, y),
                                spec_marker_overlays(gmarkers.take(i as int), *bounds, ts),
                                item,
                                x,
                                y,
                            );
                        }
                    }
                    cur = next;
                },
                None => {
                },
            }
            i = i + 1;
        }
        proof {
            assert(gmarkers.take(n as int) =~= gmarkers);
            let target = spec_rendered_image(gbase, gmarkers, *bounds, ts);
            assert forall|x: int, y: int|
                0 <= x < gbase.width && 0 <= y < gbase.height implies #[trigger] cur@.pixel(x, y)
                == target.pixel(x, y) by {
                lemma_image_from_fn_pixel(
                    gbase.width,
                    gbase.height,
                    |a: int, b: int|
                        spec_pixel_after_overlays(gbase.pixel(a, b), govs, a, b),
                    x,
                    y,
                );
            }
            if gbase.width > 0 && gbase.height > 0 {
                lemma_image_from_fn_pixel(
                    gbase.width,
                    gbase.height,
                    |a: int, b: int|
                        spec_pixel_after_overlays(gbase.pixel(a, b), govs, a, b),
                    0,
                    0,
                );
            } else {
                assert(4 * gbase.width * gbase.height == 0) by (nonlinear_arith)
                    requires
                        0 <= gbase.width,
                        0 <= gbase.height,
                        gbase.width <= 0 || gbase.height <= 0,
                ;
            }
            lemma_pixels_determine(cur@, target);
            assert(cur@ =~= target);
        }
        Ok(cur)
    }

    /// Synthesises one tile's bytes: the base image (fetched or blank),
    /// markers composited at their projected pixels, resized to the tile
    /// size, and encoded to the requested format.
    pub fn create_tile(
        &self,
        game: &Game,
        request: &TileRequest,
        bounds: &TileBounds,
        base_bytes: Option<&Vec<u8>>,
        markers: &Vec<MarkerData>,
    ) -> (r: Result<Vec<u8>, TileServiceError>)
        requires
            self.wf(),
            bounds_usable(*bounds),
        ensures
            spec_format_from_str(request.format@) is None ==> (r matches Err(e) && e matches
                TileServiceError::UnsupportedFormat(m) && m@ == request.format@),
            r matches Ok(v) ==> Some(v@) == spec_synth_bytes(
                request.format@,
                game.base_map_url is Some,
                spec_bytes_view(base_bytes),
                markers@,
                *bounds,
                self.image_processor.tile_size,
            ) && v@.len() > 0,
            spec_format_from_str(request.format@) matches Some(f) && spec_encode_ok_dims(
                f,
                self.image_processor.tile_size,
                self.image_processor.tile_size,
            ) ==> r is Ok,
            r matches Ok(v) ==> (decoded_rgba(v@) matches Some(d) && d.0
                == self.image_processor.tile_size as nat && d.1
                == self.image_processor.tile_size as nat),
            spec_format_from_str(request.format@) is Some && r is Err ==> (r matches Err(e)
                && e matches TileServiceError::ProcessingFailure(_)),
    {
        let ts = self.image_processor.tile_size;
        let ghost gbase = spec_base_image(
            game.base_map_url is Some,
            spec_bytes_view(base_bytes),
            ts,
        );
        let base_image: TileImage = match (&game.base_map_url, base_bytes) {
            (Some(_), Some(bytes)) => match decode_image(bytes) {
                Ok(img) => img,
                Err(_) => self.create_blank_base_tile(),
            },
            _ => self.create_blank_base_tile(),
        };
        proof {
            assert(base_image@ == gbase);
        }
        let rendered = if markers.len() > 0 {
            match self.render_markers_on_tile(base_image, markers, bounds) {
                Ok(img) => img,
                Err(e) => {
                    return Err(e);
                },
            }
        } else {
            base_image
        };
        proof {
            assert(rendered@ == spec_rendered_image(gbase, markers@, *bounds, ts));
        }
        let resized = self.image_processor.resize_to_tile(&rendered);
        self.image_processor.encode_image(&resized, request.format.as_str())
    }

    /// Resolves one tile request without touching storage: validates it,
    /// synthesises the tile, and wraps it with its content type, cache key
    /// and ETag.
    pub fn generate_tile(
        &self,
        request: &TileRequest,
        game: &Game,
        bounds: &TileBounds,
        base_bytes: Option<&Vec<u8>>,
        markers: &Vec<MarkerData>,
    ) -> (r: Result<TileResponse, TileServiceError>)
        requires
            self.wf(),
            bounds_usable(*bounds),
        ensures
            !(self.min_zoom <= request.z <= self.max_zoom) ==> r == Result::<
                TileResponse,
                TileServiceError,
            >::Err(TileServiceError::InvalidZoomLevel(request.z, self.min_zoom, self.max_zoom)),
            !spec_request_valid(*request, self.min_zoom, self.max_zoom) ==> (r is Err
                && final_invalid(r, *request, self.min_zoom, self.max_zoom)),
            spec_request_valid(*request, self.min_zoom, self.max_zoom)
                && spec_format_from_str(request.format@) is None ==> (r matches Err(e)
                && e matches TileServiceError::UnsupportedFormat(m) && m@ == request.format@),
            spec_request_valid(*request, self.min_zoom, self.max_zoom) && (spec_format_from_str(
                request.format@,
            ) matches Some(f) && spec_encode_ok_dims(
                f,
                self.image_processor.tile_size,
                self.image_processor.tile_size,
            )) ==> r is Ok,
            r matches Ok(resp) ==> spec_request_valid(*request, self.min_zoom, self.max_zoom)
                && Some(resp.data@) == spec_synth_bytes(
                request.format@,
                game.base_map_url is Some,
                spec_bytes_view(base_bytes),
                markers@,
                *bounds,
                self.image_processor.tile_size,
            ) && resp.content_type@ == spec_content_type(request.format@) && resp.cache_key@
                == spec_cache_key(
                request.game_id@,
                request.z,
                request.x,
                request.y,
                request.format@,
            ) && resp.etag@ == spec_etag_of(resp.data@) && resp.data@.len() > 0 && (decoded_rgba(
                resp.data@,
            ) matches Some(d) && d.0 == self.image_processor.tile_size as nat && d.1
                == self.image_processor.tile_size as nat),
    {
        match request.validate(self.min_zoom, self.max_zoom) {
            Ok(()) => {
            },
            Err(e) => {
                return Err(e);
            },
        }
        let data = match self.create_tile(game, request, bounds, base_bytes, markers) {
            Ok(d) => d,
            Err(e) => {
                return Err(e);
            },
        };
        let cache_key = request.to_cache_key();
        let etag = self.generate_etag(&data);
        let content_type = self.get_content_type(request.format.as_str());
        Ok(TileResponse { data, content_type, cache_key, etag })
    }
}


impl TileGenerator {
    /// Synthesises one tile, persists its bytes to the origin store under
    /// its object key, and upserts its metadata row; re-running it for the
    /// same address overwrites rather than duplicates.
    pub fn generate_and_store_tile(
        &self,
        store: &mut OriginStore,
        game: &Game,
        request: &TileRequest,
        bounds: &TileBounds,
        base_bytes: Option<&Vec<u8>>,
        markers: &Vec<MarkerData>,
    ) -> (r: Result<TileMetadata, TileServiceError>)
        requires
            self.wf(),
            bounds_usable(*bounds),
            old(store).wf(),
            request.x <= 0x7fffffff,
            request.y <= 0x7fffffff,
            request.z <= 0x7f,
        ensures
            final(store).wf(),
            final(store).pyramids_view() == old(store).pyramids_view(),
            r is Err ==> final(store).objects_view() == old(store).objects_view() && final(store).records_view() == old(store).records_view(),
            spec_format_from_str(request.format@) is None ==> r is Err,
            spec_format_from_str(request.format@) matches Some(f) && spec_encode_ok_dims(
                f,
                self.image_processor.tile_size,
                self.image_processor.tile_size,
            ) ==> r is Ok,
            r matches Ok(m) ==> ({
                let synth = spec_synth_bytes(
                    request.format@,
                    game.base_map_url is Some,
                    spec_bytes_view(base_bytes),
                    markers@,
                    *bounds,
                    self.image_processor.tile_size,
                );
                &&& synth matches Some(d)
                &&& m.game_id@ == game.id@
                &&& m.zoom_level == request.z as i32
                &&& m.tile_x == request.x as i32
                &&& m.tile_y == request.y as i32
                &&& m.format@ == request.format@
                &&& m.file_size == synth.unwrap().len() as i64
                &&& m.content_hash@ == hex_digits(
                    content_hash_of(synth.unwrap()) as nat,
                )
                &&& m.last_accessed is None
                &&& m.id@.len() == 36
                &&& final(store).objects_view() == old(store).objects_view().insert(
                    crate::service::spec_storage_key(
                        request.game_id@,
                        request.z,
                        request.x,
                        request.y,
                        request.format@,
                    ),
                    synth.unwrap(),
                )
                &&& final(store).records_view() == old(store).records_view().insert(
                    record_key(m),
                    record_view(m),
                )
            }),
    {
        let data = match self.create_tile(game, request, bounds, base_bytes, markers) {
            Ok(d) => d,
            Err(e) => {
                return Err(e);
            },
        };
        let content_hash = self.calculate_hash(&data);
        let id = new_uuid_string();
        let created_at = now_timestamp();
        let key = crate::service::build_storage_key(
            request.game_id.as_str(),
            request.z,
            request.x,
            request.y,
            request.format.as_str(),
        );
        store.put(key.as_str(), &data);
        let metadata = TileMetadata {
            id: id.clone(),
            game_id: game.id.clone(),
            zoom_level: request.z as i32,
            tile_x: request.x as i32,
            tile_y: request.y as i32,
            format: request.format.clone(),
            file_size: data.len() as i64,
            content_hash: content_hash.clone(),
            created_at,
            last_accessed: None,
        };
        let row = TileMetadata {
            id,
            game_id: game.id.clone(),
            zoom_level: request.z as i32,
            tile_x: request.x as i32,
            tile_y: request.y as i32,
            format: request.format.clone(),
            file_size: data.len() as i64,
            content_hash,
            created_at,
            last_accessed: None,
        };
        proof {
            assert(record_key(row) == record_key(metadata));
            assert(record_view(row) == record_view(metadata));
        }
        store.upsert_metadata(row);
        Ok(metadata)
    }

    /// Generates and persists a prepared batch of tiles, continuing past
    /// per-tile failures: the result reports the tiles that succeeded, in
    /// order, and failed tiles leave no trace.
    pub fn generate_tiles_batch(&self, store: &mut OriginStore, jobs: &Vec<TileJob>) -> (r: Vec<
        TileMetadata,
    >)
        requires
            self.wf(),
            old(store).wf(),
            forall|i: int|
                0 <= i < jobs@.len() ==> bounds_usable((#[trigger] jobs@[i]).bounds)
                    && jobs@[i].request.x <= 0x7fffffff && jobs@[i].request.y <= 0x7fffffff
                    && jobs@[i].request.z <= 0x7f,
        ensures
            final(store).wf(),
            final(store).pyramids_view() == old(store).pyramids_view(),
            r@.len() <= jobs@.len(),
            forall|i: int|
                0 <= i < r@.len() ==> (#[trigger] r@[i]).last_accessed is None
                    && r@[i].id@.len() == 36,
            forall|i: int|
                0 <= i < r@.len() ==> final(store).records_view().contains_key(
                    record_key(#[trigger] r@[i]),
                ),
            (forall|i: int|
                0 <= i < jobs@.len() ==> spec_job_determinate(
                    #[trigger] jobs@[i],
                    self.image_processor.tile_size,
                )) ==> ({
                let kept = spec_kept_jobs(jobs@, self.image_processor.tile_size);
                &&& r@.len() == kept.len()
                &&& forall|k: int|
                    0 <= k < kept.len() ==> (#[trigger] r@[k]).game_id@ == kept[k].game.id@
                        && r@[k].zoom_level == kept[k].request.z as i32 && r@[k].tile_x
                        == kept[k].request.x as i32 && r@[k].tile_y == kept[k].request.y as i32
                        && r@[k].format@ == kept[k].request.format@
            }),
    {
        let mut generated: Vec<TileMetadata> = Vec::new();
        let mut i: usize = 0;
        let n = jobs.len();
        while i < n
            invariant
                self.wf(),
                n == jobs@.len(),
                i <= n,
                store.wf(),
                store.pyramids_view() == old(store).pyramids_view(),
                forall|k: int|
                    0 <= k < jobs@.len() ==> bounds_usable((#[trigger] jobs@[k]).bounds)
                        && jobs@[k].request.x <= 0x7fffffff && jobs@[k].request.y <= 0x7fffffff
                        && jobs@[k].request.z <= 0x7f,
                generated@.len() <= i,
                forall|k: int|
                    0 <= k < generated@.len() ==> (#[trigger] generated@[k]).last_accessed is None
                        && generated@[k].id@.len() == 36,
                forall|k: int|
                    0 <= k < generated@.len() ==> store.records_view().contains_key(
                        record_key(#[trigger] generated@[k]),
                    ),
                (forall|k: int|
                    0 <= k < jobs@.len() ==> spec_job_determinate(
                        #[trigger] jobs@[k],
                        self.image_processor.tile_size,
                    )) ==> ({
                    let kept = spec_kept_jobs(
                        jobs@.take(i as int),
                        self.image_processor.tile_size,
                    );
                    &&& generated@.len() == kept.len()
                    &&& forall|k: int|
                        0 <= k < kept.len() ==> (#[trigger] generated@[k]).game_id@
                            == kept[k].game.id@ && generated@[k].zoom_level
                            == kept[k].request.z as i32 && generated@[k].tile_x
                            == kept[k].request.x as i32 && generated@[k].tile_y
                            == kept[k].request.y as i32 && generated@[k].format@
                            == kept[k].request.format@
                }),
            decreases n - i,
        {
            let job = &jobs[i];
            proof {
                assert(jobs@.take(i as int + 1) =~= jobs@.take(i as int).push(jobs@[i as int]));
                lemma_kept_jobs_push(
                    jobs@.take(i as int),
                    jobs@[i as int],
                    self.image_processor.tile_size,
                );
            }
            match self.generate_and_store_tile(
                store,
                &job.game,
                &job.request,
                &job.bounds,
                match &job.base_bytes {
                    Some(b) => Some(b),
                    None => None,
                },
                &job.markers,
            ) {
                Ok(metadata) => {
                    generated.push(metadata);
                },
                Err(_) => {
                },
            }
            i = i + 1;
        }
        proof {
            assert(jobs@.take(n as int) =~= jobs@);
        }
        generated
    }
}


impl TileGenerator {
    /// Resolves one inbound tile request end to end against the cache and
    /// the origin store: rejected input touches nothing; a matching
    /// conditional request short-circuits; a live cached tile is served and
    /// slides its lifetime; a stored tile repopulates the cache; and a
    /// freshly synthesised tile is persisted with a metadata row and cached
    /// before it is served.
    pub fn handle_tile_request(
        &self,
        cache: &mut TileCache,
        store: &mut OriginStore,
        request: &TileRequest,
        if_none_match: Option<&String>,
        game: &Game,
        bounds: &TileBounds,
        base_bytes: Option<&Vec<u8>>,
        markers: &Vec<MarkerData>,
        now: u64,
    ) -> (r: Result<TileOutcome, TileServiceError>)
        requires
            self.wf(),
            bounds_usable(*bounds),
            old(cache).wf(),
            old(store).wf(),
            request.x <= 0x7fffffff,
            request.y <= 0x7fffffff,
            request.z <= 0x7f,
        ensures
            final(cache).wf(),
            final(store).wf(),
            final(cache).default_ttl == old(cache).default_ttl,
            final(store).pyramids_view() == old(store).pyramids_view(),
            ({
                let ck = spec_cache_key(
                    request.game_id@,
                    request.z,
                    request.x,
                    request.y,
                    request.format@,
                );
                let sk = crate::service::spec_storage_key(
                    request.game_id@,
                    request.z,
                    request.x,
                    request.y,
                    request.format@,
                );
                let valid = spec_request_valid(*request, self.min_zoom, self.max_zoom);
                let cond304 = match if_none_match {
                    Some(t) => spec_live(old(cache)@, spec_etag_key(ck), now) && t@ == old(cache)@[spec_etag_key(ck)].etag,
                    None => false,
                };
                let cache_hit = spec_live(old(cache)@, ck, now);
                let store_hit = old(store).objects_view().contains_key(sk);
                let synth = spec_synth_bytes(
                    request.format@,
                    game.base_map_url is Some,
                    spec_bytes_view(base_bytes),
                    markers@,
                    *bounds,
                    self.image_processor.tile_size,
                );
                &&& !valid ==> (r matches Err(e) && crate::errors::spec_is_invalid_input(e)
                    && final(cache)@ == old(cache)@ && final(store).objects_view() == old(store).objects_view() && final(store).records_view() == old(store).records_view())
                &&& valid && cond304 ==> (r matches Ok(o) && o is NotModified && final(cache)@
                    == old(cache)@ && final(store).objects_view() == old(store).objects_view()
                    && final(store).records_view() == old(store).records_view())
                &&& valid && !cond304 && cache_hit ==> (r matches Ok(o) && (o matches TileOutcome::Fresh(resp)
                    && resp.data@ == old(cache)@[ck].data && resp.content_type@ == old(cache)@[ck].content_type && resp.etag@ == old(cache)@[ck].etag && resp.cache_key@ == ck)
                    && final(store).objects_view() == old(store).objects_view() && final(store).records_view() == old(store).records_view())
                &&& valid && !cond304 && !cache_hit && store_hit ==> (r matches Ok(o) && (
                o matches TileOutcome::Fresh(resp) && resp.data@ == old(store).objects_view()[sk]
                    && resp.content_type@ == spec_content_type(request.format@) && resp.etag@
                    == spec_etag_of(resp.data@) && resp.cache_key@ == ck && final(cache)@
                    == spec_set(
                    spec_set(
                        old(cache)@,
                        ck,
                        resp.data@,
                        resp.content_type@,
                        resp.etag@,
                        old(cache).default_ttl,
                        now,
                    ),
                    spec_etag_key(ck),
                    Seq::<u8>::empty(),
                    Seq::<char>::empty(),
                    resp.etag@,
                    old(cache).default_ttl,
                    now,
                )) && final(store).objects_view() == old(store).objects_view() && final(store).records_view() == old(store).records_view())
                &&& valid && !cond304 && !cache_hit && !store_hit && spec_format_from_str(
                    request.format@,
                ) is None ==> (r matches Err(e) && e matches TileServiceError::UnsupportedFormat(_)
                    && final(cache)@ == old(cache)@ && final(store).objects_view() == old(store).objects_view() && final(store).records_view() == old(store).records_view())
                &&& valid && !cond304 && !cache_hit && !store_hit && (spec_format_from_str(
                    request.format@,
                ) matches Some(f) && spec_encode_ok_dims(
                    f,
                    self.image_processor.tile_size,
                    self.image_processor.tile_size,
                )) ==> r is Ok
                &&& valid && !cond304 && !cache_hit && !store_hit ==> (r matches Ok(o) ==> (
                o matches TileOutcome::Fresh(resp) && Some(resp.data@) == synth && resp.content_type@
                    == spec_content_type(request.format@) && resp.etag@ == spec_etag_of(resp.data@)
                    && resp.cache_key@ == ck && final(store).objects_view() == old(store).objects_view().insert(sk, resp.data@) && final(cache)@ == spec_set(
                    spec_set(
                        old(cache)@,
                        ck,
                        resp.data@,
                        resp.content_type@,
                        resp.etag@,
                        old(cache).default_ttl,
                        now,
                    ),
                    spec_etag_key(ck),
                    Seq::<u8>::empty(),
                    Seq::<char>::empty(),
                    resp.etag@,
                    old(cache).default_ttl,
                    now,
                )))
            }),
    {
        match request.validate(self.min_zoom, self.max_zoom) {
            Ok(()) => {
            },
            Err(e) => {
                return Err(e);
            },
        }
        let ck = request.to_cache_key();
        match if_none_match {
            Some(tag) => {
                match cache.get_etag(ck.as_str(), now) {
                    Ok(cached) => {
                        if str_eq(tag.as_str(), cached.as_str()) {
                            return Ok(TileOutcome::NotModified);
                        }
                    },
                    Err(_) => {
                    },
                }
            },
            None => {
            },
        }
        if let Some(resp) = cache.get_tile(ck.as_str(), now) {
            return Ok(TileOutcome::Fresh(resp));
        }
        let sk = crate::service::build_storage_key(
            request.game_id.as_str(),
            request.z,
            request.x,
            request.y,
            request.format.as_str(),
        );
        match store.get(sk.as_str()) {
            Ok(data) => {
                let etag = self.generate_etag(&data);
                let content_type = self.get_content_type(request.format.as_str());
                let resp = TileResponse {
                    data,
                    content_type,
                    cache_key: ck.clone(),
                    etag,
                };
                let ttl = cache.default_ttl;
                cache.set_tile(ck.as_str(), &resp, ttl, now);
                return Ok(TileOutcome::Fresh(resp));
            },
            Err(_) => {
            },
        }
        let resp = match self.generate_tile(request, game, bounds, base_bytes, markers) {
            Ok(resp) => resp,
            Err(e) => {
                return Err(e);
            },
        };
        store.put(sk.as_str(), &resp.data);
        let content_hash = self.calculate_hash(&resp.data);
        let row = TileMetadata {
            id: new_uuid_string(),
            game_id: game.id.clone(),
            zoom_level: request.z as i32,
            tile_x: request.x as i32,
            tile_y: request.y as i32,
            format: request.format.clone(),
            file_size: resp.data.len() as i64,
            content_hash,
            created_at: now_timestamp(),
            last_accessed: None,
        };
        store.upsert_metadata(row);
        let ttl = cache.default_ttl;
        cache.set_tile(ck.as_str(), &resp, ttl, now);
        Ok(TileOutcome::Fresh(resp))
    }
}


/// The bounds a batch run uses for one zoom level: the request's explicit
/// bounds when given, else the parent map's registered bounds, else nothing,
/// in which case the level is skipped.
pub fn batch_bounds(game: &Game, requested: Option<TileBounds>) -> (r: Option<TileBounds>)
    ensures
        requested is Some ==> r == requested,
        requested is None ==> r == (match game.map_bounds {
            Some(w) => match crate::wkt::spec_parse_bounds(w@) {
                Some(gb) => Some(
                    TileBounds {
                        north_udeg: gb.north_udeg,
                        south_udeg: gb.south_udeg,
                        east_udeg: gb.east_udeg,
                        west_udeg: gb.west_udeg,
                    },
                ),
                None => None::<TileBounds>,
            },
            None => None::<TileBounds>,
        }),
{
    match requested {
        Some(b) => Some(b),
        None => match game.get_bounds() {
            Some(gb) => Some(
                TileBounds {
                    north_udeg: gb.north_udeg,
                    south_udeg: gb.south_udeg,
                    east_udeg: gb.east_udeg,
                    west_udeg: gb.west_udeg,
                },
            ),
            None => None,
        },
    }
}

/// The health answer a deployment reports: healthy with 200 only when both
/// the database and the cache probes passed, else 503.
pub fn health_status(db_healthy: bool, cache_healthy: bool) -> (r: u16)
    ensures
        r == 200 <==> (db_healthy && cache_healthy),
        r == 200 || r == 503,
{
    if db_healthy && cache_healthy {
        200
    } else {
        503
    }
}


/// A batch job whose synthesis is certain to succeed: a recognised format
/// whose encoder accepts the configured tile size.
pub open spec fn spec_job_ok(j: TileJob, ts: u32) -> bool {
    match spec_format_from_str(j.request.format@) {
        Some(f) => spec_encode_ok_dims(f, ts, ts),
        None => false,
    }
}

/// A batch job whose outcome the contracts decide either way: certain to
/// succeed, or rejected outright for its format string.
pub open spec fn spec_job_determinate(j: TileJob, ts: u32) -> bool {
    spec_job_ok(j, ts) || spec_format_from_str(j.request.format@) is None
}

/// The jobs of a batch that are certain to succeed, in order.
pub open spec fn spec_kept_jobs(jobs: Seq<TileJob>, ts: u32) -> Seq<TileJob>
    decreases jobs.len(),
{
    if jobs.len() == 0 {
        Seq::empty()
    } else if spec_job_ok(jobs[0], ts) {
        seq![jobs[0]] + spec_kept_jobs(jobs.drop_first(), ts)
    } else {
        spec_kept_jobs(jobs.drop_first(), ts)
    }
}

proof fn lemma_kept_jobs_push(jobs: Seq<TileJob>, j: TileJob, ts: u32)
    ensures
        spec_kept_jobs(jobs.push(j), ts) == (if spec_job_ok(j, ts) {
            spec_kept_jobs(jobs, ts).push(j)
        } else {
            spec_kept_jobs(jobs, ts)
        }),
    decreases jobs.len(),
{
    if jobs.len() == 0 {
        assert(jobs.push(j)[0] == j);
        assert(jobs.push(j).drop_first() =~= Seq::<TileJob>::empty());
        assert(spec_kept_jobs(Seq::<TileJob>::empty(), ts) =~= Seq::<TileJob>::empty());
        assert(spec_kept_jobs(jobs, ts) =~= Seq::<TileJob>::empty());
        if spec_job_ok(j, ts) {
            assert(spec_kept_jobs(jobs.push(j), ts) =~= seq![j] + Seq::<TileJob>::empty());
            assert(seq![j] + Seq::<TileJob>::empty() =~= spec_kept_jobs(jobs, ts).push(j));
        } else {
            assert(spec_kept_jobs(jobs.push(j), ts) =~= Seq::<TileJob>::empty());
        }
    } else {
        assert(jobs.push(j)[0] == jobs[0]);
        assert(jobs.push(j).drop_first() =~= jobs.drop_first().push(j));
        lemma_kept_jobs_push(jobs.drop_first(), j, ts);
        if spec_job_ok(jobs[0], ts) {
            if spec_job_ok(j, ts) {
                assert(seq![jobs[0]] + spec_kept_jobs(jobs.drop_first(), ts).push(j)
                    =~= (seq![jobs[0]] + spec_kept_jobs(jobs.drop_first(), ts)).push(j));
            }
        }
    }
}

/// The validation error a request outside the allowed ranges receives.
pub open spec fn final_invalid(
    r: Result<TileResponse, TileServiceError>,
    request: TileRequest,
    min_zoom: u8,
    max_zoom: u8,
) -> bool {
    if !(min_zoom <= request.z <= max_zoom) {
        r == Result::<TileResponse, TileServiceError>::Err(
            TileServiceError::InvalidZoomLevel(request.z, min_zoom, max_zoom),
        )
    } else {
        r == Result::<TileResponse, TileServiceError>::Err(
            TileServiceError::InvalidCoordinates(request.z, request.x, request.y),
        )
    }
}


} // verus!
