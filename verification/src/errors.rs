//! The service's error taxonomy.
//!
//! Invalid input is detected before any storage traffic and maps to a
//! 400-class response, missing data to 404, authorisation to 401, and
//! upstream or processing trouble to 500.

use vstd::prelude::*;
use vstd::string::StringExecFns;

verus! {

/// Every failure the tile core can report.
#[derive(Clone, Debug, PartialEq, Eq)]
pub enum TileServiceError {
    /// Zoom level outside the configured range: (requested, min, max).
    InvalidZoomLevel(u8, u8, u8),
    /// Tile index outside `[0, 2^z)`: (z, x, y).
    InvalidCoordinates(u8, u32, u32),
    /// A format string outside the closed set.
    UnsupportedFormat(String),
    /// Any other rejected input.
    InvalidInput(String),
    /// No parent map registered under the given id.
    GameNotFound(String),
    /// No tile stored under the given address: (parent, z, x, y).
    TileNotFound(String, u8, u32, u32),
    /// A key absent from cache or store.
    NotFound(String),
    /// Decode, encode or crop trouble.
    ProcessingFailure(String),
    /// Cache, store or network connectivity trouble.
    UpstreamFailure(String),
    /// The caller may not see the requested data.
    Unauthorized(String),
}

/// The error class is 400 for rejected input, 404 for missing data,
/// 401 for authorisation, and 500 otherwise.
pub open spec fn spec_status_code(e: TileServiceError) -> u16 {
    match e {
        TileServiceError::InvalidZoomLevel(..) => 400,
        TileServiceError::InvalidCoordinates(..) => 400,
        TileServiceError::UnsupportedFormat(..) => 400,
        TileServiceError::InvalidInput(..) => 400,
        TileServiceError::GameNotFound(..) => 404,
        TileServiceError::TileNotFound(..) => 404,
        TileServiceError::NotFound(..) => 404,
        TileServiceError::Unauthorized(..) => 401,
        TileServiceError::ProcessingFailure(..) => 500,
        TileServiceError::UpstreamFailure(..) => 500,
    }
}

/// The short machine-readable code reported with each class.
pub open spec fn spec_error_code(e: TileServiceError) -> Seq<char> {
    match e {
        TileServiceError::InvalidZoomLevel(..) => "INVALID_PARAMETERS"@,
        TileServiceError::InvalidCoordinates(..) => "INVALID_PARAMETERS"@,
        TileServiceError::UnsupportedFormat(..) => "UNSUPPORTED_FORMAT"@,
        TileServiceError::InvalidInput(..) => "INVALID_INPUT"@,
        TileServiceError::GameNotFound(..) => "GAME_NOT_FOUND"@,
        TileServiceError::TileNotFound(..) => "TILE_NOT_FOUND"@,
        TileServiceError::NotFound(..) => "NOT_FOUND"@,
        TileServiceError::Unauthorized(..) => "UNAUTHORIZED"@,
        TileServiceError::ProcessingFailure(..) => "INTERNAL_ERROR"@,
        TileServiceError::UpstreamFailure(..) => "INTERNAL_ERROR"@,
    }
}

/// An error counts as rejected input exactly when its class is 400.
pub open spec fn spec_is_invalid_input(e: TileServiceError) -> bool {
    spec_status_code(e) == 400
}

impl TileServiceError {
    /// The HTTP status class this error surfaces as.
    pub fn status_code(&self) -> (r: u16)
        ensures
            r == spec_status_code(*self),
    {
        match self {
            TileServiceError::InvalidZoomLevel(..) => 400,
            TileServiceError::InvalidCoordinates(..) => 400,
            TileServiceError::UnsupportedFormat(..) => 400,
            TileServiceError::InvalidInput(..) => 400,
            TileServiceError::GameNotFound(..) => 404,
            TileServiceError::TileNotFound(..) => 404,
            TileServiceError::NotFound(..) => 404,
            TileServiceError::Unauthorized(..) => 401,
            TileServiceError::ProcessingFailure(..) => 500,
            TileServiceError::UpstreamFailure(..) => 500,
        }
    }

    /// The machine-readable error code.
    pub fn error_code(&self) -> (r: String)
        ensures
            r@ == spec_error_code(*self),
    {
        match self {
            TileServiceError::InvalidZoomLevel(..) => String::from_str("INVALID_PARAMETERS"),
            TileServiceError::InvalidCoordinates(..) => String::from_str("INVALID_PARAMETERS"),
            TileServiceError::UnsupportedFormat(..) => String::from_str("UNSUPPORTED_FORMAT"),
            TileServiceError::InvalidInput(..) => String::from_str("INVALID_INPUT"),
            TileServiceError::GameNotFound(..) => String::from_str("GAME_NOT_FOUND"),
            TileServiceError::TileNotFound(..) => String::from_str("TILE_NOT_FOUND"),
            TileServiceError::NotFound(..) => String::from_str("NOT_FOUND"),
            TileServiceError::Unauthorized(..) => String::from_str("UNAUTHORIZED"),
            TileServiceError::ProcessingFailure(..) => String::from_str("INTERNAL_ERROR"),
            TileServiceError::UpstreamFailure(..) => String::from_str("INTERNAL_ERROR"),
        }
    }
}

} // verus!
