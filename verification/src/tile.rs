//! Tile request/response models, request validation, and the derived cache
//! and file keys.

use vstd::prelude::*;
use vstd::string::StringExecFns;
use vstd::arithmetic::power2::{pow2, lemma2_to64, lemma_pow2_strictly_increases};
use crate::errors::TileServiceError;
use crate::spatial::tiles_per_side;
use crate::strutil::{dec_digits, u64_dec_str};

verus! {

/// One inbound tile request.
#[derive(Clone, Debug)]
pub struct TileRequest {
    pub game_id: String,
    pub z: u8,
    pub x: u32,
    pub y: u32,
    pub format: String,
}

/// A produced tile ready to serve.
#[derive(Clone, Debug)]
pub struct TileResponse {
    pub data: Vec<u8>,
    pub content_type: String,
    pub cache_key: String,
    pub etag: String,
}

/// A geographic bounding box in microdegrees.
#[derive(Clone, Copy, Debug, PartialEq, Eq, Structural)]
pub struct TileBounds {
    pub north_udeg: i64,
    pub south_udeg: i64,
    pub east_udeg: i64,
    pub west_udeg: i64,
}

/// One stored row of per-tile metadata, unique on
/// (game, zoom, x, y, format).
#[derive(Clone, Debug)]
pub struct TileMetadata {
    pub id: String,
    pub game_id: String,
    pub zoom_level: i32,
    pub tile_x: i32,
    pub tile_y: i32,
    pub format: String,
    pub file_size: i64,
    pub content_hash: String,
    pub created_at: i64,
    pub last_accessed: Option<i64>,
}

/// A request to generate tiles for a parent map over chosen zoom levels.
#[derive(Clone, Debug)]
pub struct TileGenerationRequest {
    pub game_id: String,
    pub zoom_levels: Option<Vec<u8>>,
    pub bounds: Option<TileBounds>,
    pub force_regenerate: Option<bool>,
}

/// A request is valid for a configured zoom range when the zoom lies in the
/// range and both indices lie below `2^z`.
pub open spec fn spec_request_valid(r: TileRequest, min_zoom: u8, max_zoom: u8) -> bool {
    min_zoom <= r.z <= max_zoom && r.x < pow2(r.z as nat) && r.y < pow2(r.z as nat)
}

/// The cache key of a tile: `tile:{game}:{z}:{x}:{y}:{format}`.
pub open spec fn spec_cache_key(
    game_id: Seq<char>,
    z: u8,
    x: u32,
    y: u32,
    format: Seq<char>,
) -> Seq<char> {
    "tile:"@ + game_id + ":"@ + dec_digits(z as nat) + ":"@ + dec_digits(x as nat) + ":"@
        + dec_digits(y as nat) + ":"@ + format
}

/// The file path of a tile under a base directory:
/// `{base}/{game}/{z}/{x}/{y}.{format}`.
pub open spec fn spec_file_path(
    base: Seq<char>,
    game_id: Seq<char>,
    z: u8,
    x: u32,
    y: u32,
    format: Seq<char>,
) -> Seq<char> {
    base + "/"@ + game_id + "/"@ + dec_digits(z as nat) + "/"@ + dec_digits(x as nat) + "/"@
        + dec_digits(y as nat) + "."@ + format
}

impl TileRequest {
    /// Rejects a zoom level outside the configured range, then a tile index
    /// outside `[0, 2^z)`; performs no storage traffic.
    pub fn validate(&self, min_zoom: u8, max_zoom: u8) -> (r: Result<(), TileServiceError>)
        ensures
            r is Ok <==> spec_request_valid(*self, min_zoom, max_zoom),
            !(min_zoom <= self.z <= max_zoom) ==> r == Result::<(), TileServiceError>::Err(
                TileServiceError::InvalidZoomLevel(self.z, min_zoom, max_zoom),
            ),
            min_zoom <= self.z <= max_zoom && !(self.x < pow2(self.z as nat) && self.y < pow2(
                self.z as nat,
            )) ==> r == Result::<(), TileServiceError>::Err(
                TileServiceError::InvalidCoordinates(self.z, self.x, self.y),
            ),
    {
        if self.z < min_zoom || self.z > max_zoom {
            return Err(TileServiceError::InvalidZoomLevel(self.z, min_zoom, max_zoom));
        }
        if self.z >= 32 {
            // Any 32-bit index is below 2^32 <= 2^z.
            proof {
                lemma2_to64();
                if self.z > 32 {
                    lemma_pow2_strictly_increases(32, self.z as nat);
                }
            }
            return Ok(());
        }
        let max_coord = tiles_per_side(self.z);
        if self.x >= max_coord || self.y >= max_coord {
            return Err(TileServiceError::InvalidCoordinates(self.z, self.x, self.y));
        }
        Ok(())
    }

    /// The cache key this request addresses.
    pub fn to_cache_key(&self) -> (r: String)
        ensures
            r@ == spec_cache_key(self.game_id@, self.z, self.x, self.y, self.format@),
    {
        let mut s = String::from_str("tile:");
        s.append(self.game_id.as_str());
        s.append(":");
        let zs = u64_dec_str(self.z as u64);
        s.append(zs.as_str());
        s.append(":");
        let xs = u64_dec_str(self.x as u64);
        s.append(xs.as_str());
        s.append(":");
        let ys = u64_dec_str(self.y as u64);
        s.append(ys.as_str());
        s.append(":");
        s.append(self.format.as_str());
        proof {
            assert(s@ =~= spec_cache_key(self.game_id@, self.z, self.x, self.y, self.format@));
        }
        s
    }

    /// The path of this tile below a base directory.
    pub fn to_file_path(&self, base_path: &str) -> (r: String)
        ensures
            r@ == spec_file_path(
                base_path@,
                self.game_id@,
                self.z,
                self.x,
                self.y,
                self.format@,
            ),
    {
        let mut s = String::from_str(base_path);
        s.append("/");
        s.append(self.game_id.as_str());
        s.append("/");
        let zs = u64_dec_str(self.z as u64);
        s.append(zs.as_str());
        s.append("/");
        let xs = u64_dec_str(self.x as u64);
        s.append(xs.as_str());
        s.append("/");
        let ys = u64_dec_str(self.y as u64);
        s.append(ys.as_str());
        s.append(".");
        s.append(self.format.as_str());
        proof {
            assert(s@ =~= spec_file_path(
                base_path@,
                self.game_id@,
                self.z,
                self.x,
                self.y,
                self.format@,
            ));
        }
        s
    }
}

} // verus!
