//! The parent-map record and its registered bounds.

use vstd::prelude::*;

verus! {

/// A geographic bounding box in microdegrees.
#[derive(Clone, Copy, Debug, PartialEq, Eq, Structural)]
pub struct GameBounds {
    pub north_udeg: i64,
    pub south_udeg: i64,
    pub east_udeg: i64,
    pub west_udeg: i64,
}

/// One registered parent map.  Timestamps are kept as epoch seconds and
/// identifiers as plain strings.
#[derive(Clone, Debug)]
pub struct Game {
    pub id: String,
    pub name: String,
    pub slug: String,
    pub map_bounds: Option<String>,
    pub max_zoom_level: i32,
    pub min_zoom_level: i32,
    pub tile_size: i32,
    pub base_map_url: Option<String>,
    pub created_at: i64,
    pub updated_at: i64,
}

impl Game {
    /// The map's registered bounds, read from its stored WKT polygon;
    /// absent or malformed text means the bounds are unavailable.
    pub fn get_bounds(&self) -> (r: Option<GameBounds>)
        ensures
            r == (match self.map_bounds {
                Some(w) => crate::wkt::spec_parse_bounds(w@),
                None => None::<GameBounds>,
            }),
    {
        match &self.map_bounds {
            Some(wkt) => crate::wkt::parse_bounds_from_wkt(wkt.as_str()),
            None => None,
        }
    }
}

} // verus!
