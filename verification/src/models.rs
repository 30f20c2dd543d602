//! Tile addressing and pyramid-metadata models.

use vstd::prelude::*;
use vstd::string::StringExecFns;
use crate::strutil::{eq_ignore_ascii_case, str_eq_ignore_case};

verus! {

/// The closed set of encodings a tile can be served in.
#[derive(Clone, Copy, Debug, PartialEq, Eq, Structural)]
pub enum TileFormat {
    PNG,
    JPEG,
    WEBP,
}

/// The format named by a string, compared without regard to ASCII case;
/// both `jpg` and `jpeg` name JPEG.
pub open spec fn spec_format_from_str(s: Seq<char>) -> Option<TileFormat> {
    if eq_ignore_ascii_case(s, "png"@) {
        Some(TileFormat::PNG)
    } else if eq_ignore_ascii_case(s, "jpeg"@) || eq_ignore_ascii_case(s, "jpg"@) {
        Some(TileFormat::JPEG)
    } else if eq_ignore_ascii_case(s, "webp"@) {
        Some(TileFormat::WEBP)
    } else {
        None
    }
}

/// The canonical lower-case name of a format.
pub open spec fn spec_format_name(f: TileFormat) -> Seq<char> {
    match f {
        TileFormat::PNG => "png"@,
        TileFormat::JPEG => "jpeg"@,
        TileFormat::WEBP => "webp"@,
    }
}

/// The MIME type of a format.
pub open spec fn spec_mime_type(f: TileFormat) -> Seq<char> {
    match f {
        TileFormat::PNG => "image/png"@,
        TileFormat::JPEG => "image/jpeg"@,
        TileFormat::WEBP => "image/webp"@,
    }
}

impl TileFormat {
    pub fn from_str(s: &str) -> (r: Option<TileFormat>)
        ensures
            r == spec_format_from_str(s@),
    {
        if str_eq_ignore_case(s, "png") {
            Some(TileFormat::PNG)
        } else if str_eq_ignore_case(s, "jpeg") || str_eq_ignore_case(s, "jpg") {
            Some(TileFormat::JPEG)
        } else if str_eq_ignore_case(s, "webp") {
            Some(TileFormat::WEBP)
        } else {
            None
        }
    }

    pub fn to_string(&self) -> (r: String)
        ensures
            r@ == spec_format_name(*self),
    {
        match self {
            TileFormat::PNG => String::from_str("png"),
            TileFormat::JPEG => String::from_str("jpeg"),
            TileFormat::WEBP => String::from_str("webp"),
        }
    }

    pub fn mime_type(&self) -> (r: &'static str)
        ensures
            r@ == spec_mime_type(*self),
    {
        match self {
            TileFormat::PNG => "image/png",
            TileFormat::JPEG => "image/jpeg",
            TileFormat::WEBP => "image/webp",
        }
    }
}

/// One tile address under a parent map.
#[derive(Clone, Debug)]
pub struct Tile {
    pub map_id: String,
    pub z: u8,
    pub x: u32,
    pub y: u32,
    pub format: TileFormat,
}

/// Per-zoom summary of a generated pyramid.
#[derive(Clone, Copy, Debug, PartialEq, Eq, Structural)]
pub struct ZoomLevel {
    pub zoom: u8,
    pub tile_count: u32,
    pub cols: u32,
    pub rows: u32,
}

/// A geographic bounding box in microdegrees (degrees scaled by 1 000 000).
/// Degrees are kept as scaled integers so the contracts can speak of them
/// exactly.
#[derive(Clone, Copy, Debug, PartialEq, Eq, Structural)]
pub struct Bounds {
    pub north_udeg: i64,
    pub south_udeg: i64,
    pub east_udeg: i64,
    pub west_udeg: i64,
}

/// Microdegrees in one degree.
pub const UDEG_PER_DEG: i64 = 1000000;

/// The whole-world bounding box recorded for single-image pyramids.
pub open spec fn spec_world_bounds() -> Bounds {
    Bounds {
        north_udeg: 90000000i64,
        south_udeg: -90000000i64,
        east_udeg: 180000000i64,
        west_udeg: -180000000i64,
    }
}

pub fn world_bounds() -> (b: Bounds)
    ensures
        b == spec_world_bounds(),
{
    Bounds {
        north_udeg: 90000000,
        south_udeg: -90000000,
        east_udeg: 180000000,
        west_udeg: -180000000,
    }
}

/// Metadata persisted for a whole generated pyramid.
#[derive(Clone, Debug)]
pub struct TileMetadata {
    pub map_id: String,
    pub total_tiles: u64,
    pub zoom_levels: Vec<ZoomLevel>,
    pub bounds: Bounds,
    pub created_at: String,
    pub format: String,
}

/// A request to slice one source image into a pyramid of tiles.
#[derive(Clone, Debug)]
pub struct TileGenerationRequest {
    pub map_id: String,
    pub source_image_url: String,
    pub min_zoom: u8,
    pub max_zoom: u8,
    pub format: String,
}

} // verus!
