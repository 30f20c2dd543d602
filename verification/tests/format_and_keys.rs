use map_tile_service::errors::TileServiceError;
use map_tile_service::models::TileFormat;
use map_tile_service::spatial::TileCoordinate;
use map_tile_service::strutil::{parse_u64_dec, u64_dec_str, u64_hex_str};
use map_tile_service::tile::TileRequest;

fn request(z: u8, x: u32, y: u32) -> TileRequest {
    TileRequest {
        game_id: "game1".to_string(),
        z,
        x,
        y,
        format: "png".to_string(),
    }
}

#[test]
fn test_format_from_str_ignores_case() {
    assert_eq!(TileFormat::from_str("png"), Some(TileFormat::PNG));
    assert_eq!(TileFormat::from_str("PNG"), Some(TileFormat::PNG));
    assert_eq!(TileFormat::from_str("jpg"), Some(TileFormat::JPEG));
    assert_eq!(TileFormat::from_str("jpeg"), Some(TileFormat::JPEG));
    assert_eq!(TileFormat::from_str("WebP"), Some(TileFormat::WEBP));
    assert_eq!(TileFormat::from_str("tiff"), None);
}

#[test]
fn test_format_names_and_mime_types() {
    assert_eq!(TileFormat::PNG.to_string(), "png");
    assert_eq!(TileFormat::JPEG.to_string(), "jpeg");
    assert_eq!(TileFormat::WEBP.to_string(), "webp");
    assert_eq!(TileFormat::PNG.mime_type(), "image/png");
    assert_eq!(TileFormat::JPEG.mime_type(), "image/jpeg");
    assert_eq!(TileFormat::WEBP.mime_type(), "image/webp");
}

#[test]
fn test_validate_accepts_in_range_request() {
    assert!(request(3, 7, 7).validate(0, 18).is_ok());
    assert!(request(0, 0, 0).validate(0, 18).is_ok());
}

#[test]
fn test_validate_rejects_zoom_outside_range() {
    let r = request(5, 0, 0).validate(0, 4);
    assert_eq!(r, Err(TileServiceError::InvalidZoomLevel(5, 0, 4)));
}

#[test]
fn test_validate_rejects_coordinates_outside_grid() {
    let r = request(5, 32, 0).validate(0, 18);
    assert_eq!(r, Err(TileServiceError::InvalidCoordinates(5, 32, 0)));
    assert!(request(5, 31, 31).validate(0, 18).is_ok());
}

#[test]
fn test_cache_key_and_file_path_layout() {
    let req = request(3, 2, 1);
    assert_eq!(req.to_cache_key(), "tile:game1:3:2:1:png");
    assert_eq!(req.to_file_path("/tiles"), "/tiles/game1/3/2/1.png");
}

#[test]
fn test_decimal_and_hex_rendering() {
    assert_eq!(u64_dec_str(0), "0");
    assert_eq!(u64_dec_str(907), "907");
    assert_eq!(u64_hex_str(255), "ff");
    assert_eq!(u64_hex_str(0xdead), "dead");
    assert_eq!(parse_u64_dec("907"), Some(907));
    assert_eq!(parse_u64_dec(""), None);
    assert_eq!(parse_u64_dec("12a"), None);
    assert_eq!(parse_u64_dec("18446744073709551615"), Some(u64::MAX));
    assert_eq!(parse_u64_dec("18446744073709551616"), None);
}

#[test]
fn test_error_status_codes_follow_taxonomy() {
    assert_eq!(TileServiceError::InvalidZoomLevel(9, 0, 4).status_code(), 400);
    assert_eq!(TileServiceError::UnsupportedFormat("gif".to_string()).status_code(), 400);
    assert_eq!(TileServiceError::GameNotFound("g".to_string()).status_code(), 404);
    assert_eq!(TileServiceError::NotFound("k".to_string()).status_code(), 404);
    assert_eq!(TileServiceError::Unauthorized("u".to_string()).status_code(), 401);
    assert_eq!(TileServiceError::ProcessingFailure("p".to_string()).status_code(), 500);
    assert_eq!(TileServiceError::UpstreamFailure("c".to_string()).status_code(), 500);
    assert_eq!(
        TileServiceError::InvalidCoordinates(1, 2, 3).error_code(),
        "INVALID_PARAMETERS"
    );
}

#[test]
fn test_tiles_in_rect_covers_closed_rectangle() {
    let tiles = TileCoordinate::tiles_in_rect(2, 1, 5, 3, 4);
    assert_eq!(tiles.len(), 4 * 3);
    for x in 2..=5u32 {
        for y in 1..=3u32 {
            assert!(tiles.iter().any(|t| t.x == x && t.y == y && t.z == 4));
        }
    }
    assert!(!tiles.iter().any(|t| t.x == 6 || t.y == 0));
    // corners in reversed order span the same rectangle
    let swapped = TileCoordinate::tiles_in_rect(5, 3, 2, 1, 4);
    assert_eq!(swapped.len(), tiles.len());
}
