use map_tile_service::cache::TileCache;
use map_tile_service::config::{CacheHeaders, TileConfig};
use map_tile_service::errors::TileServiceError;
use map_tile_service::image_model::{solid_tile, Pixel};
use map_tile_service::imaging::{decode_image, encode_png};
use map_tile_service::models::{Tile, TileFormat, TileGenerationRequest};
use map_tile_service::service::TileService;
use map_tile_service::store::OriginStore;

fn config(tile_size: u32) -> TileConfig {
    TileConfig {
        tile_size,
        max_zoom: 20,
        min_zoom: 0,
        cache_ttl: 3600,
        quality: 85,
        enable_webp: true,
        cache_headers: CacheHeaders { max_age: 86400, stale_while_revalidate: 60 },
    }
}

fn service(tile_size: u32) -> TileService {
    TileService::new(TileCache::new(3600), OriginStore::new(), config(tile_size))
}

fn source_png() -> Vec<u8> {
    let img = solid_tile(64, Pixel { r: 200, g: 100, b: 50, a: 255 });
    encode_png(&img).unwrap()
}

fn pyramid_request(min_zoom: u8, max_zoom: u8, format: &str) -> TileGenerationRequest {
    TileGenerationRequest {
        map_id: "m1".to_string(),
        source_image_url: "http://origin.example/src.png".to_string(),
        min_zoom,
        max_zoom,
        format: format.to_string(),
    }
}

#[test]
fn test_single_source_pyramid_at_zoom_two() {
    let mut svc = service(256);
    let data = source_png();
    let meta = svc.generate_tiles_from_image(&pyramid_request(2, 2, "png"), &data).unwrap();
    assert_eq!(meta.total_tiles, 16);
    assert_eq!(meta.zoom_levels.len(), 1);
    assert_eq!(meta.zoom_levels[0].zoom, 2);
    assert_eq!(meta.zoom_levels[0].cols, 4);
    assert_eq!(meta.zoom_levels[0].rows, 4);
    assert_eq!(meta.zoom_levels[0].tile_count, 16);
    // the recorded bounds are the whole world
    assert_eq!(meta.bounds.north_udeg, 90_000_000);
    assert_eq!(meta.bounds.south_udeg, -90_000_000);
    assert_eq!(meta.bounds.east_udeg, 180_000_000);
    assert_eq!(meta.bounds.west_udeg, -180_000_000);
    // every tile is stored, non-empty, and decodes back to 256x256
    for x in 0..4u32 {
        for y in 0..4u32 {
            let key = format!("m1/2/{}/{}.png", x, y);
            let bytes = svc.storage.get(&key).unwrap();
            assert!(!bytes.is_empty());
            let img = decode_image(&bytes).unwrap();
            assert_eq!((img.width, img.height), (256, 256));
        }
    }
    // the pyramid summary is persisted and served back
    let fetched = svc.get_metadata("m1").unwrap();
    assert_eq!(fetched.total_tiles, 16);
    assert!(svc.get_metadata("unknown").is_err());
}

#[test]
fn test_pyramid_spans_zoom_range() {
    let mut svc = service(16);
    let data = source_png();
    let meta = svc.generate_tiles_from_image(&pyramid_request(0, 2, "png"), &data).unwrap();
    assert_eq!(meta.total_tiles, 1 + 4 + 16);
    assert_eq!(meta.zoom_levels.len(), 3);
    assert_eq!(meta.zoom_levels[1].cols, 2);
    assert!(svc.storage.get("m1/0/0/0.png").is_ok());
    assert!(svc.storage.get("m1/1/1/0.png").is_ok());
    assert!(svc.storage.get("m1/2/3/3.png").is_ok());
}

#[test]
fn test_pyramid_rejects_bad_format_and_zoom_range() {
    let mut svc = service(16);
    let data = source_png();
    let r = svc.generate_tiles_from_image(&pyramid_request(0, 0, "gif"), &data);
    assert!(matches!(r, Err(TileServiceError::InvalidInput(_))));
    let r2 = svc.generate_tiles_from_image(&pyramid_request(3, 1, "png"), &data);
    assert!(matches!(r2, Err(TileServiceError::InvalidInput(_))));
    let junk = vec![1u8, 2, 3];
    let r3 = svc.generate_tiles_from_image(&pyramid_request(0, 0, "png"), &junk);
    assert!(matches!(r3, Err(TileServiceError::ProcessingFailure(_))));
}

#[test]
fn test_service_get_tile_cache_and_store_fallback() {
    let mut svc = service(16);
    let tile = Tile {
        map_id: "m1".to_string(),
        z: 1,
        x: 0,
        y: 1,
        format: TileFormat::PNG,
    };
    // nothing anywhere: not found
    assert!(matches!(svc.get_tile(&tile, 0), Err(TileServiceError::NotFound(_))));
    // stored in the origin: served and cached
    svc.storage.put("m1/1/0/1.png", &vec![5, 6, 7]);
    assert_eq!(svc.get_tile(&tile, 10).unwrap(), vec![5, 6, 7]);
    // now served from the cache even after the origin object is gone
    svc.storage.delete("m1/1/0/1.png");
    assert_eq!(svc.get_tile(&tile, 20).unwrap(), vec![5, 6, 7]);
    // once the cache entry expires the miss falls through to the store again
    assert!(svc.get_tile(&tile, 100_000).is_err());
}

#[test]
fn test_service_invalidate_cache() {
    let mut svc = service(16);
    let tile = Tile {
        map_id: "m1".to_string(),
        z: 0,
        x: 0,
        y: 0,
        format: TileFormat::PNG,
    };
    svc.storage.put("m1/0/0/0.png", &vec![1]);
    assert!(svc.get_tile(&tile, 0).is_ok());
    svc.storage.delete("m1/0/0/0.png");
    assert!(svc.get_tile(&tile, 1).is_ok());
    svc.invalidate_cache("m1").unwrap();
    assert!(svc.get_tile(&tile, 2).is_err());
}

#[test]
fn test_encode_tile_per_format() {
    let svc = service(8);
    let img = solid_tile(8, Pixel { r: 1, g: 2, b: 3, a: 255 });
    for fmt in [TileFormat::PNG, TileFormat::JPEG, TileFormat::WEBP] {
        let bytes = svc.encode_tile(&img, &fmt, 85).unwrap();
        assert!(!bytes.is_empty());
        let back = decode_image(&bytes).unwrap();
        assert_eq!((back.width, back.height), (8, 8));
    }
}

#[test]
fn test_extract_tile_matches_crop_region() {
    let svc = service(8);
    let img = solid_tile(16, Pixel { r: 9, g: 9, b: 9, a: 255 });
    let t = svc.extract_tile(&img, 1, 1, 8).unwrap();
    assert_eq!((t.width, t.height), (8, 8));
    assert!(svc.extract_tile(&img, 2, 0, 8).is_err());
}
