//! The blob-oriented tile service: cache-then-store reads, and bulk pyramid
//! generation that slices one source image into every tile of each zoom
//! level.

use vstd::prelude::*;
use vstd::string::StringExecFns;
use vstd::arithmetic::power2::{pow2, lemma_pow2_strictly_increases};
use crate::cache::{spec_live, spec_set, TileCache};
use crate::config::TileConfig;
use crate::errors::TileServiceError;
use crate::image_model::{crop, spec_crop, SpecImage, TileImage};
use crate::imaging::{
    decode_image,
    decoded_rgba,
    encode_jpeg,
    encode_png,
    encode_webp,
    jpeg_encoding,
    png_encoding,
    resampled,
    resize_exact,
    spec_encode_ok_dims,
    webp_encoding,
};
use crate::models::{
    spec_format_from_str,
    spec_format_name,
    world_bounds,
    spec_world_bounds,
    Tile,
    TileFormat,
    TileGenerationRequest,
    TileMetadata,
    ZoomLevel,
};
use crate::spatial::tiles_per_side;
use crate::store::{pyramid_view, OriginStore};
use crate::strutil::{
    dec_digits,
    digits_val,
    lemma_dec_digits_val,
    lemma_digit_sep_split,
    lemma_strip_prefix,
    u64_dec_str,
};
use crate::tile::spec_cache_key;

verus! {

/// The object key of a tile: `{map}/{z}/{x}/{y}.{format}`.
pub open spec fn spec_storage_key(
    map_id: Seq<char>,
    z: u8,
    x: u32,
    y: u32,
    format: Seq<char>,
) -> Seq<char> {
    map_id + "/"@ + dec_digits(z as nat) + "/"@ + dec_digits(x as nat) + "/"@ + dec_digits(
        y as nat,
    ) + "."@ + format
}

/// The object key of a map's pyramid summary: `{map}/metadata.json`.
pub open spec fn spec_metadata_key(map_id: Seq<char>) -> Seq<char> {
    map_id + "/metadata.json"@
}

/// Distinct tile addresses of one map and format give distinct object keys.
pub proof fn lemma_storage_key_injective(
    map_id: Seq<char>,
    z1: u8,
    x1: u32,
    y1: u32,
    z2: u8,
    x2: u32,
    y2: u32,
    format: Seq<char>,
)
    requires
        spec_storage_key(map_id, z1, x1, y1, format) == spec_storage_key(
            map_id,
            z2,
            x2,
            y2,
            format,
        ),
    ensures
        z1 == z2,
        x1 == x2,
        y1 == y2,
{
    reveal_strlit("/");
    reveal_strlit(".");
    assert("/"@ =~= seq!['/']);
    assert("."@ =~= seq!['.']);
    lemma_dec_digits_val(z1 as nat);
    lemma_dec_digits_val(z2 as nat);
    lemma_dec_digits_val(x1 as nat);
    lemma_dec_digits_val(x2 as nat);
    lemma_dec_digits_val(y1 as nat);
    lemma_dec_digits_val(y2 as nat);
    let ty1 = dec_digits(y1 as nat) + seq!['.'] + format;
    let ty2 = dec_digits(y2 as nat) + seq!['.'] + format;
    let tx1 = dec_digits(x1 as nat) + seq!['/'] + ty1;
    let tx2 = dec_digits(x2 as nat) + seq!['/'] + ty2;
    let tz1 = dec_digits(z1 as nat) + seq!['/'] + tx1;
    let tz2 = dec_digits(z2 as nat) + seq!['/'] + tx2;
    let p = map_id + seq!['/'];
    assert(spec_storage_key(map_id, z1, x1, y1, format) =~= p + tz1);
    assert(spec_storage_key(map_id, z2, x2, y2, format) =~= p + tz2);
    lemma_strip_prefix(p, tz1, tz2);
    lemma_digit_sep_split(dec_digits(z1 as nat), tx1, dec_digits(z2 as nat), tx2, '/');
    assert(z1 as nat == digits_val(dec_digits(z1 as nat)));
    lemma_digit_sep_split(dec_digits(x1 as nat), ty1, dec_digits(x2 as nat), ty2, '/');
    lemma_digit_sep_split(dec_digits(y1 as nat), format, dec_digits(y2 as nat), format, '.');
}

/// What one sliced tile's stored bytes are: the requested format's encoding
/// of the `tile_size` square of the resized source at the tile's offset.
pub open spec fn spec_tile_bytes(
    format: TileFormat,
    resized: SpecImage,
    tile_size: nat,
    tx: int,
    ty: int,
    quality: u8,
) -> Seq<u8> {
    let c = spec_crop(
        resized,
        tx * tile_size,
        ty * tile_size,
        tile_size as int,
        tile_size as int,
    );
    match format {
        TileFormat::PNG => png_encoding(tile_size, tile_size, c.pixels),
        TileFormat::JPEG => jpeg_encoding(tile_size, tile_size, c.pixels, quality),
        TileFormat::WEBP => webp_encoding(tile_size, tile_size, c.pixels),
    }
}


/// The decoded source image of a byte stream that some decoder accepts.
pub open spec fn spec_decoded_image(bytes: Seq<u8>) -> SpecImage {
    let d = decoded_rgba(bytes).unwrap();
    SpecImage { width: d.0 as int, height: d.1 as int, pixels: d.2 }
}


/// One sliced tile's stored bytes are non-empty and decode back at the
/// square tile size.
pub open spec fn spec_tile_bytes_decodable(
    format: TileFormat,
    resized: SpecImage,
    tile_size: nat,
    tx: int,
    ty: int,
    quality: u8,
) -> bool {
    let v = spec_tile_bytes(format, resized, tile_size, tx, ty, quality);
    v.len() > 0 && (decoded_rgba(v) matches Some(d) && d.0 == tile_size && d.1 == tile_size)
}

/// The resized source image a zoom level is sliced from.
pub open spec fn spec_zoom_plane(img: SpecImage, zoom: u8, tile_size: nat) -> SpecImage {
    let total = pow2(zoom as nat) * tile_size;
    SpecImage {
        width: total as int,
        height: total as int,
        pixels: resampled(img.pixels, img.width as nat, img.height as nat, total, total),
    }
}

/// Tiles in a pyramid spanning the given zoom range: each level holds
/// `2^z * 2^z`.
pub open spec fn spec_pyramid_total(min_zoom: int, max_zoom: int) -> int
    decreases max_zoom + 1 - min_zoom,
{
    if min_zoom > max_zoom {
        0
    } else {
        pow2(min_zoom as nat) * pow2(min_zoom as nat) + spec_pyramid_total(min_zoom + 1, max_zoom)
    }
}

pub proof fn lemma_pyramid_total_bound(min_zoom: int, max_zoom: int)
    requires
        0 <= min_zoom,
        max_zoom <= 20,
    ensures
        0 <= spec_pyramid_total(min_zoom, max_zoom),
        spec_pyramid_total(min_zoom, max_zoom) <= (if min_zoom > max_zoom {
            0int
        } else {
            (max_zoom - min_zoom + 1) * 0x10000000000
        }),
    decreases max_zoom + 1 - min_zoom,
{
    if min_zoom > max_zoom {
    } else {
        lemma_pyramid_total_bound(min_zoom + 1, max_zoom);
        vstd::arithmetic::power2::lemma2_to64();
        if (min_zoom as nat) < 20 {
            lemma_pow2_strictly_increases(min_zoom as nat, 20);
        }
        assert(pow2(min_zoom as nat) * pow2(min_zoom as nat) <= 0x10000000000)
            by (nonlinear_arith)
            requires
                0 <= pow2(min_zoom as nat) <= 0x100000,
        ;
        let rest = spec_pyramid_total(min_zoom + 1, max_zoom);
        assert(rest <= (max_zoom - min_zoom) * 0x10000000000) by (nonlinear_arith)
            requires
                rest <= (if min_zoom + 1 > max_zoom {
                    0int
                } else {
                    (max_zoom - min_zoom) * 0x10000000000
                }),
                min_zoom <= max_zoom,
        ;
        assert((max_zoom - min_zoom) * 0x10000000000 + 0x10000000000 == (max_zoom - min_zoom
            + 1) * 0x10000000000) by (nonlinear_arith);
    }
}


pub proof fn lemma_pyramid_total_snoc(min_zoom: int, z: int)
    requires
        min_zoom <= z,
    ensures
        spec_pyramid_total(min_zoom, z) == spec_pyramid_total(min_zoom, z - 1) + pow2(z as nat)
            * pow2(z as nat),
    decreases z - min_zoom,
{
    if min_zoom == z {
        assert(spec_pyramid_total(z + 1, z) == 0);
        assert(spec_pyramid_total(min_zoom, z - 1) == 0);
    } else {
        lemma_pyramid_total_snoc(min_zoom + 1, z);
        assert(spec_pyramid_total(min_zoom, z) == pow2(min_zoom as nat) * pow2(min_zoom as nat)
            + spec_pyramid_total(min_zoom + 1, z));
        assert(spec_pyramid_total(min_zoom, z - 1) == pow2(min_zoom as nat) * pow2(
            min_zoom as nat,
        ) + spec_pyramid_total(min_zoom + 1, z - 1));
    }
}

/// Relies on chrono::Utc::now and to_rfc3339: a wall-clock reading admits
/// no functional specification.
#[verifier::external_body]
fn now_rfc3339() -> (r: String)
{
    chrono::Utc::now().to_rfc3339()
}

/// Serves and generates tiles against the cache and the origin store.
pub struct TileService {
    pub cache: TileCache,
    pub storage: OriginStore,
    pub config: TileConfig,
}

impl TileService {
    pub fn new(cache: TileCache, storage: OriginStore, config: TileConfig) -> (r: TileService)
        ensures
            r.cache == cache,
            r.storage == storage,
            r.config == config,
    {
        TileService { cache, storage, config }
    }

    /// The cache key of a tile.
    pub fn get_cache_key(&self, tile: &Tile) -> (r: String)
        ensures
            r@ == spec_cache_key(
                tile.map_id@,
                tile.z,
                tile.x,
                tile.y,
                spec_format_name(tile.format),
            ),
    {
        let mut s = String::from_str("tile:");
        s.append(tile.map_id.as_str());
        s.append(":");
        let zs = u64_dec_str(tile.z as u64);
        s.append(zs.as_str());
        s.append(":");
        let xs = u64_dec_str(tile.x as u64);
        s.append(xs.as_str());
        s.append(":");
        let ys = u64_dec_str(tile.y as u64);
        s.append(ys.as_str());
        s.append(":");
        let fs = tile.format.to_string();
        s.append(fs.as_str());
        proof {
            assert(s@ =~= spec_cache_key(
                tile.map_id@,
                tile.z,
                tile.x,
                tile.y,
                spec_format_name(tile.format),
            ));
        }
        s
    }

    /// The object key of a tile.
    pub fn get_storage_key(&self, tile: &Tile) -> (r: String)
        ensures
            r@ == spec_storage_key(
                tile.map_id@,
                tile.z,
                tile.x,
                tile.y,
                spec_format_name(tile.format),
            ),
    {
        let fs = tile.format.to_string();
        build_storage_key(tile.map_id.as_str(), tile.z, tile.x, tile.y, fs.as_str())
    }
}


/// Copies a list of zoom summaries.
fn copy_levels(v: &Vec<ZoomLevel>) -> (r: Vec<ZoomLevel>)
    ensures
        r@ == v@,
{
    let mut out: Vec<ZoomLevel> = Vec::new();
    let mut i: usize = 0;
    let n = v.len();
    while i < n
        invariant
            n == v@.len(),
            i <= n,
            out@ == v@.take(i as int),
        decreases n - i,
    {
        out.push(v[i]);
        proof {
            assert(out@ =~= v@.take(i as int + 1));
        }
        i = i + 1;
    }
    proof {
        assert(v@.take(n as int) =~= v@);
    }
    out
}

impl TileService {
    /// Encodes a tile image to one format at a quality; quality touches
    /// JPEG alone, PNG ignores it, and WEBP here is lossless.
    pub fn encode_tile(&self, img: &TileImage, format: &TileFormat, quality: u8) -> (r: Result<
        Vec<u8>,
        TileServiceError,
    >)
        requires
            img.wf(),
            1 <= quality <= 100,
        ensures
            r matches Ok(v) ==> v@ == (match *format {
                TileFormat::PNG => png_encoding(img.width as nat, img.height as nat, img.pixels@),
                TileFormat::JPEG => jpeg_encoding(
                    img.width as nat,
                    img.height as nat,
                    img.pixels@,
                    quality,
                ),
                TileFormat::WEBP => webp_encoding(
                    img.width as nat,
                    img.height as nat,
                    img.pixels@,
                ),
            }) && v@.len() > 0,
            r matches Ok(v) ==> (decoded_rgba(v@) matches Some(d) && d.0 == img.width as nat
                && d.1 == img.height as nat),
            r matches Err(e) ==> e matches TileServiceError::ProcessingFailure(_),
            spec_encode_ok_dims(*format, img.width, img.height) ==> r is Ok,
    {
        match format {
            TileFormat::PNG => encode_png(img),
            TileFormat::JPEG => encode_jpeg(img, quality),
            TileFormat::WEBP => encode_webp(img),
        }
    }

    /// Cuts the `size` square at grid position (x, y) out of a resized
    /// plane.
    pub fn extract_tile(&self, img: &TileImage, x: u32, y: u32, size: u32) -> (r: Result<
        TileImage,
        TileServiceError,
    >)
        requires
            img.wf(),
            (x as int + 1) * size <= u32::MAX,
            (y as int + 1) * size <= u32::MAX,
        ensures
            r is Ok <==> (x as int + 1) * size <= img.width && (y as int + 1) * size
                <= img.height,
            r matches Ok(c) ==> c.wf() && c.width == size && c.height == size && c@ == spec_crop(
                img@,
                x as int * size,
                y as int * size,
                size as int,
                size as int,
            ),
            r matches Err(e) ==> e matches TileServiceError::ProcessingFailure(_),
    {
        proof {
            assert((x as int) * (size as int) + size == (x as int + 1) * (size as int))
                by (nonlinear_arith);
            assert((y as int) * (size as int) + size == (y as int + 1) * (size as int))
                by (nonlinear_arith);
        }
        let x_offset = x * size;
        let y_offset = y * size;
        crop(img, x_offset, y_offset, size, size)
    }

    /// Serves one tile: a live cache entry wins and slides its lifetime; a
    /// cache miss falls back to the origin store, whose bytes repopulate
    /// the cache with the configured lifetime; a tile in neither place is
    /// `NotFound`.  The store is never written by a read.
    pub fn get_tile(&mut self, tile: &Tile, now: u64) -> (r: Result<Vec<u8>, TileServiceError>)
        requires
            old(self).cache.wf(),
            old(self).storage.wf(),
        ensures
            final(self).cache.wf(),
            final(self).storage == old(self).storage,
            final(self).config == old(self).config,
            final(self).cache.default_ttl == old(self).cache.default_ttl,
            ({
                let ck = spec_cache_key(
                    tile.map_id@,
                    tile.z,
                    tile.x,
                    tile.y,
                    spec_format_name(tile.format),
                );
                let sk = spec_storage_key(
                    tile.map_id@,
                    tile.z,
                    tile.x,
                    tile.y,
                    spec_format_name(tile.format),
                );
                &&& (r is Ok <==> (spec_live(old(self).cache@, ck, now) || old(self).storage.objects_view().contains_key(sk)))
                &&& (spec_live(old(self).cache@, ck, now) ==> (r matches Ok(v) && v@ == old(self).cache@[ck].data))
                &&& (!spec_live(old(self).cache@, ck, now) && old(self).storage.objects_view().contains_key(sk) ==> (r matches Ok(v) && v@ == old(self).storage.objects_view()[sk] && final(self).cache@ == spec_set(
                    old(self).cache@,
                    ck,
                    old(self).storage.objects_view()[sk],
                    Seq::<char>::empty(),
                    Seq::<char>::empty(),
                    old(self).config.cache_ttl,
                    now,
                )))
                &&& (!spec_live(old(self).cache@, ck, now) && !old(self).storage.objects_view().contains_key(sk) ==> (r matches Err(e) && e matches
                    TileServiceError::NotFound(_) && final(self).cache@ == old(self).cache@))
            }),
    {
        let cache_key = self.get_cache_key(tile);
        if let Some(data) = self.cache.get(cache_key.as_str(), now) {
            return Ok(data);
        }
        let storage_key = self.get_storage_key(tile);
        let data = match self.storage.get(storage_key.as_str()) {
            Ok(d) => d,
            Err(e) => {
                return Err(e);
            },
        };
        let ttl = self.config.cache_ttl;
        self.cache.set_entry(
            cache_key.as_str(),
            crate::cache::clone_bytes(&data),
            String::new(),
            String::new(),
            ttl,
            now,
        );
        Ok(data)
    }

    /// Invalidates every cached tile of one map in the payload namespace.
    pub fn invalidate_cache(&mut self, map_id: &str) -> (r: Result<(), TileServiceError>)
        requires
            old(self).cache.wf(),
        ensures
            final(self).cache.wf(),
            final(self).storage == old(self).storage,
            final(self).config == old(self).config,
            final(self).cache.default_ttl == old(self).cache.default_ttl,
            r is Ok,
            final(self).cache@ == old(self).cache@.remove_keys(
                crate::cache::pattern_key_set("tile:"@ + map_id@ + ":*"@),
            ),
    {
        let mut pattern = String::from_str("tile:");
        pattern.append(map_id);
        pattern.append(":*");
        proof {
            assert(pattern@ =~= "tile:"@ + map_id@ + ":*"@);
        }
        self.cache.invalidate_pattern(pattern.as_str());
        Ok(())
    }

    /// Fetches a map's stored pyramid summary.
    pub fn get_metadata(&self, map_id: &str) -> (r: Result<&TileMetadata, TileServiceError>)
        requires
            self.storage.wf(),
        ensures
            r is Ok <==> self.storage.pyramids_view().contains_key(spec_metadata_key(map_id@)),
            r matches Ok(m) ==> pyramid_view(*m) == self.storage.pyramids_view()[spec_metadata_key(
                map_id@,
            )],
            r matches Err(e) ==> e matches TileServiceError::NotFound(_),
    {
        let key = build_metadata_key(map_id);
        self.storage.get_pyramid(key.as_str())
    }

    /// Slices one zoom level of a resized source plane into tiles and
    /// persists every one of them: after success the store holds, for each
    /// grid position, exactly the format's encoding of that position's
    /// square of the plane.  A single encode failure abandons the level.
    fn generate_tiles_for_zoom(
        &mut self,
        map_id: &str,
        img: &TileImage,
        zoom: u8,
        format: &TileFormat,
    ) -> (r: Result<ZoomLevel, TileServiceError>)
        requires
            old(self).storage.wf(),
            old(self).cache.wf(),
            img.wf(),
            old(self).config.tile_size >= 1,
            1 <= old(self).config.quality <= 100,
            zoom < 32,
            pow2(zoom as nat) * old(self).config.tile_size <= u32::MAX,
            pow2(zoom as nat) * pow2(zoom as nat) <= u32::MAX,
        ensures
            final(self).storage.wf(),
            final(self).cache == old(self).cache,
            final(self).config == old(self).config,
            final(self).storage.records_view() == old(self).storage.records_view(),
            final(self).storage.pyramids_view() == old(self).storage.pyramids_view(),
            forall|k: Seq<char>|
                old(self).storage.objects_view().contains_key(k) ==> final(self).storage.objects_view().contains_key(k),
            r matches Ok(level) ==> level.zoom == zoom && level.cols == pow2(zoom as nat)
                && level.rows == pow2(zoom as nat) && level.tile_count == pow2(zoom as nat) * pow2(
                zoom as nat,
            ),
            r is Ok ==> forall|tx: u32, ty: u32|
                (tx as nat) < pow2(zoom as nat) && (ty as nat) < pow2(zoom as nat)
                    ==> final(self).storage.objects_view().contains_key(
                    #[trigger] spec_storage_key(
                        map_id@,
                        zoom,
                        tx,
                        ty,
                        spec_format_name(*format),
                    ),
                ) && final(self).storage.objects_view()[spec_storage_key(
                    map_id@,
                    zoom,
                    tx,
                    ty,
                    spec_format_name(*format),
                )] == spec_tile_bytes(
                    *format,
                    spec_zoom_plane(img@, zoom, old(self).config.tile_size as nat),
                    old(self).config.tile_size as nat,
                    tx as int,
                    ty as int,
                    old(self).config.quality,
                ) && spec_tile_bytes_decodable(
                    *format,
                    spec_zoom_plane(img@, zoom, old(self).config.tile_size as nat),
                    old(self).config.tile_size as nat,
                    tx as int,
                    ty as int,
                    old(self).config.quality,
                ),
            forall|k: Seq<char>|
                old(self).storage.objects_view().contains_key(k) && final(self).storage.objects_view()[k] != old(self).storage.objects_view()[k] ==> exists|tx: u32, ty: u32|
                    (tx as nat) < pow2(zoom as nat) && (ty as nat) < pow2(zoom as nat) && k
                        == spec_storage_key(map_id@, zoom, tx, ty, spec_format_name(*format)),
            spec_encode_ok_dims(
                *format,
                old(self).config.tile_size,
                old(self).config.tile_size,
            ) ==> r is Ok,
            r matches Err(e) ==> e matches TileServiceError::ProcessingFailure(_),
    {
        let ts = self.config.tile_size;
        let quality = self.config.quality;
        let tps = tiles_per_side(zoom);
        let total: u32 = tps * ts;
        let resized = resize_exact(img, total, total);
        let ghost plane = spec_zoom_plane(img@, zoom, ts as nat);
        proof {
            assert(resized@ =~= plane);
        }
        let fname = format.to_string();
        let mut tx: u32 = 0;
        while tx < tps
            invariant
                self.storage.wf(),
                self.cache == old(self).cache,
                self.config == old(self).config,
                self.storage.records_view() == old(self).storage.records_view(),
                self.storage.pyramids_view() == old(self).storage.pyramids_view(),
                forall|k: Seq<char>|
                    old(self).storage.objects_view().contains_key(k) ==> self.storage.objects_view(
                    ).contains_key(k),
                forall|k: Seq<char>|
                    old(self).storage.objects_view().contains_key(k)
                        && self.storage.objects_view()[k] != old(self).storage.objects_view()[k]
                        ==> exists|ax: u32, ay: u32|
                        (ax as nat) < pow2(zoom as nat) && (ay as nat) < pow2(zoom as nat) && k
                            == spec_storage_key(map_id@, zoom, ax, ay, spec_format_name(*format)),
                ts == old(self).config.tile_size,
                quality == old(self).config.quality,
                1 <= quality <= 100,
                ts >= 1,
                tps == pow2(zoom as nat),
                tps * ts <= u32::MAX,
                tps * tps <= u32::MAX,
                total == tps * ts,
                resized.wf(),
                resized.width == total,
                resized.height == total,
                resized@ == plane,
                plane == spec_zoom_plane(img@, zoom, ts as nat),
                fname@ == spec_format_name(*format),
                tx <= tps,
                forall|ax: u32, ay: u32|
                    ax < tx && (ay as nat) < pow2(zoom as nat)
                        ==> self.storage.objects_view().contains_key(
                        #[trigger] spec_storage_key(map_id@, zoom, ax, ay, spec_format_name(
                            *format,
                        )),
                    ) && self.storage.objects_view()[spec_storage_key(
                        map_id@,
                        zoom,
                        ax,
                        ay,
                        spec_format_name(*format),
                    )] == spec_tile_bytes(*format, plane, ts as nat, ax as int, ay as int, quality)
                        && spec_tile_bytes_decodable(
                        *format,
                        plane,
                        ts as nat,
                        ax as int,
                        ay as int,
                        quality,
                    ),
            decreases tps - tx,
        {
            let mut ty: u32 = 0;
            while ty < tps
                invariant
                    self.storage.wf(),
                    self.cache == old(self).cache,
                    self.config == old(self).config,
                    self.storage.records_view() == old(self).storage.records_view(),
                    self.storage.pyramids_view() == old(self).storage.pyramids_view(),
                    forall|k: Seq<char>|
                        old(self).storage.objects_view().contains_key(k)
                            ==> self.storage.objects_view().contains_key(k),
                    forall|k: Seq<char>|
                        old(self).storage.objects_view().contains_key(k)
                            && self.storage.objects_view()[k] != old(self).storage.objects_view()[k] ==> exists|ax: u32, ay: u32|
                            (ax as nat) < pow2(zoom as nat) && (ay as nat) < pow2(zoom as nat)
                                && k == spec_storage_key(
                                map_id@,
                                zoom,
                                ax,
                                ay,
                                spec_format_name(*format),
                            ),
                    ts == old(self).config.tile_size,
                    quality == old(self).config.quality,
                    1 <= quality <= 100,
                    ts >= 1,
                    tps == pow2(zoom as nat),
                    tps * ts <= u32::MAX,
                    tps * tps <= u32::MAX,
                    total == tps * ts,
                    resized.wf(),
                    resized.width == total,
                    resized.height == total,
                    resized@ == plane,
                    plane == spec_zoom_plane(img@, zoom, ts as nat),
                    fname@ == spec_format_name(*format),
                    tx < tps,
                    ty <= tps,
                    forall|ax: u32, ay: u32|
                        ((ax < tx && (ay as nat) < pow2(zoom as nat)) || (ax == tx && ay < ty))
                            ==> self.storage.objects_view().contains_key(
                            #[trigger] spec_storage_key(map_id@, zoom, ax, ay, spec_format_name(
                                *format,
                            )),
                        ) && self.storage.objects_view()[spec_storage_key(
                            map_id@,
                            zoom,
                            ax,
                            ay,
                            spec_format_name(*format),
                        )] == spec_tile_bytes(
                            *format,
                            plane,
                            ts as nat,
                            ax as int,
                            ay as int,
                            quality,
                        ) && spec_tile_bytes_decodable(
                            *format,
                            plane,
                            ts as nat,
                            ax as int,
                            ay as int,
                            quality,
                        ),
                decreases tps - ty,
            {
                proof {
                    assert((tx as int + 1) * ts <= tps * ts && (ty as int + 1) * ts <= tps * ts)
                        by (nonlinear_arith)
                        requires
                            tx < tps,
                            ty < tps,
                            ts >= 0,
                    ;
                }
                let tile_img = match self.extract_tile(&resized, tx, ty, ts) {
                    Ok(t) => t,
                    Err(e) => {
                        return Err(e);
                    },
                };
                let data = match self.encode_tile(&tile_img, format, quality) {
                    Ok(d) => d,
                    Err(e) => {
                        return Err(e);
                    },
                };
                let key = build_storage_key(map_id, zoom, tx, ty, fname.as_str());
                let ghost pre = self.storage.objects_view();
                self.storage.put(key.as_str(), &data);
                proof {
                    assert forall|k: Seq<char>|
                        old(self).storage.objects_view().contains_key(k)
                            && self.storage.objects_view()[k] != old(self).storage.objects_view()[k] implies exists|ax: u32, ay: u32|
                        (ax as nat) < pow2(zoom as nat) && (ay as nat) < pow2(zoom as nat) && k
                            == spec_storage_key(
                            map_id@,
                            zoom,
                            ax,
                            ay,
                            spec_format_name(*format),
                        ) by {
                        if k == key@ {
                            assert((tx as nat) < pow2(zoom as nat) && (ty as nat) < pow2(
                                zoom as nat,
                            ) && k == spec_storage_key(
                                map_id@,
                                zoom,
                                tx,
                                ty,
                                spec_format_name(*format),
                            ));
                        } else {
                            assert(self.storage.objects_view()[k] == pre[k]);
                        }
                    }
                    assert(data@ == spec_tile_bytes(
                        *format,
                        plane,
                        ts as nat,
                        tx as int,
                        ty as int,
                        quality,
                    ));
                    assert(spec_tile_bytes_decodable(
                        *format,
                        plane,
                        ts as nat,
                        tx as int,
                        ty as int,
                        quality,
                    ));
                    assert forall|ax: u32, ay: u32|
                        ((ax < tx && (ay as nat) < pow2(zoom as nat)) || (ax == tx && ay < ty + 1))
                            implies self.storage.objects_view().contains_key(
                        #[trigger] spec_storage_key(map_id@, zoom, ax, ay, spec_format_name(
                            *format,
                        )),
                    ) && self.storage.objects_view()[spec_storage_key(
                        map_id@,
                        zoom,
                        ax,
                        ay,
                        spec_format_name(*format),
                    )] == spec_tile_bytes(
                        *format,
                        plane,
                        ts as nat,
                        ax as int,
                        ay as int,
                        quality,
                    ) && spec_tile_bytes_decodable(
                        *format,
                        plane,
                        ts as nat,
                        ax as int,
                        ay as int,
                        quality,
                    ) by {
                        let ak = spec_storage_key(map_id@, zoom, ax, ay, spec_format_name(
                            *format,
                        ));
                        if ax == tx && ay == ty {
                        } else {
                            if ak == key@ {
                                lemma_storage_key_injective(
                                    map_id@,
                                    zoom,
                                    ax,
                                    ay,
                                    zoom,
                                    tx,
                                    ty,
                                    spec_format_name(*format),
                                );
                            }
                            assert(pre.contains_key(ak) && pre[ak] == spec_tile_bytes(
                                *format,
                                plane,
                                ts as nat,
                                ax as int,
                                ay as int,
                                quality,
                            ));
                        }
                    }
                }
                ty = ty + 1;
            }
            tx = tx + 1;
        }
        Ok(ZoomLevel { zoom, tile_count: tps * tps, cols: tps, rows: tps })
    }
}


impl TileService {
    /// Generates a whole pyramid from one uploaded source image: decodes
    /// it, slices every zoom level of the requested range into persisted
    /// tiles, and stores a summary recording whole-world bounds.  A format
    /// outside the closed set or a zoom range outside the configured one is
    /// rejected before any slicing; one tile's encode failure abandons the
    /// run.
    pub fn generate_tiles_from_image(
        &mut self,
        request: &TileGenerationRequest,
        image_data: &Vec<u8>,
    ) -> (r: Result<TileMetadata, TileServiceError>)
        requires
            old(self).cache.wf(),
            old(self).storage.wf(),
            old(self).config.wf(),
        ensures
            final(self).cache == old(self).cache,
            final(self).config == old(self).config,
            final(self).storage.wf(),
            final(self).storage.records_view() == old(self).storage.records_view(),
            forall|k: Seq<char>|
                old(self).storage.objects_view().contains_key(k) ==> final(self).storage.objects_view().contains_key(k),
            spec_format_from_str(request.format@) is None ==> (r matches Err(e) && e matches
                TileServiceError::InvalidInput(_)),
            spec_format_from_str(request.format@) is Some && decoded_rgba(image_data@) is None
                ==> (r matches Err(e) && e matches TileServiceError::ProcessingFailure(_)),
            spec_format_from_str(request.format@) is Some && decoded_rgba(image_data@) is Some
                && !(request.min_zoom <= request.max_zoom && old(self).config.min_zoom
                <= request.min_zoom && request.max_zoom <= old(self).config.max_zoom) ==> (
            r matches Err(e) && e matches TileServiceError::InvalidInput(_)),
            r matches Ok(m) ==> (spec_format_from_str(request.format@) matches Some(f)
                && m.map_id@ == request.map_id@ && m.bounds == spec_world_bounds() && m.format@
                == spec_format_name(f) && request.min_zoom <= request.max_zoom
                && m.zoom_levels@.len() == request.max_zoom - request.min_zoom + 1 && (forall|i: int|
                0 <= i < m.zoom_levels@.len() ==> (#[trigger] m.zoom_levels@[i]).zoom
                    == request.min_zoom + i && m.zoom_levels@[i].cols == pow2(
                    (request.min_zoom + i) as nat,
                ) && m.zoom_levels@[i].rows == pow2((request.min_zoom + i) as nat)
                    && m.zoom_levels@[i].tile_count == pow2((request.min_zoom + i) as nat) * pow2(
                    (request.min_zoom + i) as nat,
                )) && m.total_tiles == spec_pyramid_total(
                request.min_zoom as int,
                request.max_zoom as int,
            ) && final(self).storage.pyramids_view() == old(self).storage.pyramids_view().insert(
                spec_metadata_key(request.map_id@),
                pyramid_view(m),
            ) && (forall|z: u8, tx: u32, ty: u32|
                request.min_zoom <= z <= request.max_zoom && (tx as nat) < pow2(z as nat) && (
                ty as nat) < pow2(z as nat) ==> final(self).storage.objects_view().contains_key(
                    #[trigger] spec_storage_key(
                        request.map_id@,
                        z,
                        tx,
                        ty,
                        spec_format_name(f),
                    ),
                ) && final(self).storage.objects_view()[spec_storage_key(
                    request.map_id@,
                    z,
                    tx,
                    ty,
                    spec_format_name(f),
                )] == spec_tile_bytes(
                    f,
                    spec_zoom_plane(
                        spec_decoded_image(image_data@),
                        z,
                        old(self).config.tile_size as nat,
                    ),
                    old(self).config.tile_size as nat,
                    tx as int,
                    ty as int,
                    old(self).config.quality,
                ) && spec_tile_bytes_decodable(
                    f,
                    spec_zoom_plane(
                        spec_decoded_image(image_data@),
                        z,
                        old(self).config.tile_size as nat,
                    ),
                    old(self).config.tile_size as nat,
                    tx as int,
                    ty as int,
                    old(self).config.quality,
                ))),
            r is Err ==> final(self).storage.pyramids_view() == old(self).storage.pyramids_view(),
            spec_format_from_str(request.format@) is None ==> final(self).storage.objects_view()
                == old(self).storage.objects_view(),
            spec_format_from_str(request.format@) is Some && decoded_rgba(image_data@) is None
                ==> final(self).storage.objects_view() == old(self).storage.objects_view(),
            spec_format_from_str(request.format@) is Some && decoded_rgba(image_data@) is Some
                && !(request.min_zoom <= request.max_zoom && old(self).config.min_zoom
                <= request.min_zoom && request.max_zoom <= old(self).config.max_zoom) ==> final(self).storage.objects_view() == old(self).storage.objects_view(),
            (spec_format_from_str(request.format@) matches Some(f) && decoded_rgba(
                image_data@,
            ) is Some && request.min_zoom <= request.max_zoom && old(self).config.min_zoom
                <= request.min_zoom && request.max_zoom <= old(self).config.max_zoom && pow2(
                request.max_zoom as nat,
            ) * pow2(request.max_zoom as nat) <= u32::MAX && spec_encode_ok_dims(
                f,
                old(self).config.tile_size,
                old(self).config.tile_size,
            )) ==> r is Ok,
    {
        let format = match TileFormat::from_str(request.format.as_str()) {
            Some(f) => f,
            None => {
                return Err(TileServiceError::InvalidInput(String::from_str("Invalid format")));
            },
        };
        let img = match decode_image(image_data) {
            Ok(i) => i,
            Err(e) => {
                return Err(e);
            },
        };
        if !(request.min_zoom <= request.max_zoom) || request.min_zoom < self.config.min_zoom
            || request.max_zoom > self.config.max_zoom {
            return Err(
                TileServiceError::InvalidInput(
                    String::from_str("zoom range outside configured bounds"),
                ),
            );
        }
        proof {
            assert(img@ == spec_decoded_image(image_data@));
        }
        let min_zoom = request.min_zoom;
        let max_zoom = request.max_zoom;
        let mut total_tiles: u64 = 0;
        let mut zoom_levels: Vec<ZoomLevel> = Vec::new();
        let mut zoom: u8 = min_zoom;
        while zoom <= max_zoom
            invariant
                self.cache == old(self).cache,
                self.config == old(self).config,
                self.storage.wf(),
                self.cache.wf(),
                old(self).config.wf(),
                self.storage.records_view() == old(self).storage.records_view(),
                self.storage.pyramids_view() == old(self).storage.pyramids_view(),
                forall|k: Seq<char>|
                    old(self).storage.objects_view().contains_key(k)
                        ==> self.storage.objects_view().contains_key(k),
                img.wf(),
                decoded_rgba(image_data@) is Some,
                min_zoom == request.min_zoom,
                max_zoom == request.max_zoom,
                min_zoom <= max_zoom <= old(self).config.max_zoom,
                old(self).config.min_zoom <= min_zoom,
                spec_format_from_str(request.format@) == Some(format),
                min_zoom <= zoom <= max_zoom + 1,
                zoom_levels@.len() == zoom - min_zoom,
                forall|i: int|
                    0 <= i < zoom_levels@.len() ==> (#[trigger] zoom_levels@[i]).zoom == min_zoom
                        + i && zoom_levels@[i].cols == pow2((min_zoom + i) as nat)
                        && zoom_levels@[i].rows == pow2((min_zoom + i) as nat)
                        && zoom_levels@[i].tile_count == pow2((min_zoom + i) as nat) * pow2(
                        (min_zoom + i) as nat,
                    ),
                total_tiles == spec_pyramid_total(min_zoom as int, zoom as int - 1),
                img@ == spec_decoded_image(image_data@),
                forall|z: u8, tx: u32, ty: u32|
                    min_zoom <= z < zoom && (tx as nat) < pow2(z as nat) && (ty as nat) < pow2(
                        z as nat,
                    ) ==> self.storage.objects_view().contains_key(
                        #[trigger] spec_storage_key(
                            request.map_id@,
                            z,
                            tx,
                            ty,
                            spec_format_name(format),
                        ),
                    ) && self.storage.objects_view()[spec_storage_key(
                        request.map_id@,
                        z,
                        tx,
                        ty,
                        spec_format_name(format),
                    )] == spec_tile_bytes(
                        format,
                        spec_zoom_plane(img@, z, old(self).config.tile_size as nat),
                        old(self).config.tile_size as nat,
                        tx as int,
                        ty as int,
                        old(self).config.quality,
                    ) && spec_tile_bytes_decodable(
                        format,
                        spec_zoom_plane(img@, z, old(self).config.tile_size as nat),
                        old(self).config.tile_size as nat,
                        tx as int,
                        ty as int,
                        old(self).config.quality,
                    ),
            decreases max_zoom + 1 - zoom,
        {
            let tps = tiles_per_side(zoom);
            proof {
                vstd::arithmetic::power2::lemma2_to64();
                if (zoom as nat) < 20 {
                    lemma_pow2_strictly_increases(zoom as nat, 20);
                }
                assert((tps as int) * (tps as int) <= 0x100000 * 0x100000) by (nonlinear_arith)
                    requires
                        0 <= tps as int <= 0x100000,
                ;
            }
            if (tps as u64) * (tps as u64) > 0xffffffff {
                proof {
                    if (zoom as nat) < (max_zoom as nat) {
                        lemma_pow2_strictly_increases(zoom as nat, max_zoom as nat);
                    }
                    assert(pow2(zoom as nat) * pow2(zoom as nat) <= pow2(max_zoom as nat) * pow2(
                        max_zoom as nat,
                    )) by (nonlinear_arith)
                        requires
                            0 <= pow2(zoom as nat) <= pow2(max_zoom as nat),
                    ;
                }
                return Err(
                    TileServiceError::InvalidInput(
                        String::from_str("zoom level too deep for one image"),
                    ),
                );
            }
            proof {
                let ghost mz = old(self).config.max_zoom as nat;
                let ghost tsz = old(self).config.tile_size as int;
                if (zoom as nat) < mz {
                    lemma_pow2_strictly_increases(zoom as nat, mz);
                }
                assert(pow2(zoom as nat) * tsz <= pow2(mz) * tsz) by (nonlinear_arith)
                    requires
                        pow2(zoom as nat) <= pow2(mz),
                        tsz >= 0,
                ;
            }
            let ghost pre_objects = self.storage.objects_view();
            let level = match self.generate_tiles_for_zoom(
                request.map_id.as_str(),
                &img,
                zoom,
                &format,
            ) {
                Ok(l) => l,
                Err(e) => {
                    return Err(e);
                },
            };
            proof {
                lemma_pyramid_total_snoc(min_zoom as int, zoom as int);
                lemma_pyramid_total_bound(min_zoom as int, zoom as int);
                assert forall|z: u8, tx: u32, ty: u32|
                    min_zoom <= z < zoom + 1 && (tx as nat) < pow2(z as nat) && (ty as nat) < pow2(
                        z as nat,
                    ) implies self.storage.objects_view().contains_key(
                    #[trigger] spec_storage_key(
                        request.map_id@,
                        z,
                        tx,
                        ty,
                        spec_format_name(format),
                    ),
                ) && self.storage.objects_view()[spec_storage_key(
                    request.map_id@,
                    z,
                    tx,
                    ty,
                    spec_format_name(format),
                )] == spec_tile_bytes(
                    format,
                    spec_zoom_plane(img@, z, old(self).config.tile_size as nat),
                    old(self).config.tile_size as nat,
                    tx as int,
                    ty as int,
                    old(self).config.quality,
                ) && spec_tile_bytes_decodable(
                    format,
                    spec_zoom_plane(img@, z, old(self).config.tile_size as nat),
                    old(self).config.tile_size as nat,
                    tx as int,
                    ty as int,
                    old(self).config.quality,
                ) by {
                    let k = spec_storage_key(request.map_id@, z, tx, ty, spec_format_name(format));
                    if z < zoom {
                        // an earlier level's tile: this level wrote only its own keys
                        if self.storage.objects_view()[k] != pre_objects[k] {
                            let (ax, ay): (u32, u32) = choose|ax: u32, ay: u32|
                                (ax as nat) < pow2(zoom as nat) && (ay as nat) < pow2(zoom as nat)
                                    && k == spec_storage_key(
                                    request.map_id@,
                                    zoom,
                                    ax,
                                    ay,
                                    spec_format_name(format),
                                );
                            lemma_storage_key_injective(
                                request.map_id@,
                                z,
                                tx,
                                ty,
                                zoom,
                                ax,
                                ay,
                                spec_format_name(format),
                            );
                            assert(false);
                        }
                    }
                }
            }
            total_tiles = total_tiles + (level.tile_count as u64);
            zoom_levels.push(level);
            zoom = zoom + 1;
        }
        let created_at = now_rfc3339();
        let fmt_name = format.to_string();
        let returned = TileMetadata {
            map_id: request.map_id.clone(),
            total_tiles,
            zoom_levels: copy_levels(&zoom_levels),
            bounds: world_bounds(),
            created_at: created_at.clone(),
            format: fmt_name.clone(),
        };
        let stored = TileMetadata {
            map_id: request.map_id.clone(),
            total_tiles,
            zoom_levels,
            bounds: world_bounds(),
            created_at,
            format: fmt_name,
        };
        proof {
            assert(pyramid_view(stored) == pyramid_view(returned));
        }
        let key = build_metadata_key(request.map_id.as_str());
        self.storage.save_pyramid(key.as_str(), stored);
        Ok(returned)
    }
}

/// Builds `{map}/{z}/{x}/{y}.{format}`.
pub fn build_storage_key(map_id: &str, z: u8, x: u32, y: u32, format: &str) -> (r: String)
    ensures
        r@ == spec_storage_key(map_id@, z, x, y, format@),
{
    let mut s = String::from_str(map_id);
    s.append("/");
    let zs = u64_dec_str(z as u64);
    s.append(zs.as_str());
    s.append("/");
    let xs = u64_dec_str(x as u64);
    s.append(xs.as_str());
    s.append("/");
    let ys = u64_dec_str(y as u64);
    s.append(ys.as_str());
    s.append(".");
    s.append(format);
    proof {
        assert(s@ =~= spec_storage_key(map_id@, z, x, y, format@));
    }
    s
}

/// Builds `{map}/metadata.json`.
pub fn build_metadata_key(map_id: &str) -> (r: String)
    ensures
        r@ == spec_metadata_key(map_id@),
{
    let mut s = String::from_str(map_id);
    s.append("/metadata.json");
    s
}

} // verus!
