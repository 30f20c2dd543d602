use map_tile_service::cache::TileCache;
use map_tile_service::errors::TileServiceError;
use map_tile_service::generator::{
    batch_bounds, health_status, MarkerData, TileGenerator, TileJob, TileOutcome,
};
use map_tile_service::imaging::decode_image;
use map_tile_service::processor::ImageProcessor;
use map_tile_service::store::OriginStore;
use map_tile_service::tile::{TileBounds, TileRequest};
use map_tile_service::game::Game;

fn game(base_map_url: Option<&str>) -> Game {
    Game {
        id: "m1".to_string(),
        name: "Map One".to_string(),
        slug: "map-one".to_string(),
        map_bounds: None,
        max_zoom_level: 18,
        min_zoom_level: 0,
        tile_size: 64,
        base_map_url: base_map_url.map(|s| s.to_string()),
        created_at: 0,
        updated_at: 0,
    }
}

fn request(z: u8, x: u32, y: u32, format: &str) -> TileRequest {
    TileRequest {
        game_id: "m1".to_string(),
        z,
        x,
        y,
        format: format.to_string(),
    }
}

fn world_bounds() -> TileBounds {
    TileBounds {
        north_udeg: 85_000_000,
        south_udeg: -85_000_000,
        east_udeg: 180_000_000,
        west_udeg: -180_000_000,
    }
}

fn generator() -> TileGenerator {
    TileGenerator::new(ImageProcessor::new(64), 0, 4)
}

#[test]
fn test_invalid_zoom_fails_before_any_storage_traffic() {
    let gen = generator();
    let mut cache = TileCache::new(60);
    let mut store = OriginStore::new();
    let r = gen.handle_tile_request(
        &mut cache,
        &mut store,
        &request(5, 0, 0, "png"),
        None,
        &game(None),
        &world_bounds(),
        None,
        &Vec::new(),
        0,
    );
    assert_eq!(r.unwrap_err(), TileServiceError::InvalidZoomLevel(5, 0, 4));
    assert_eq!(cache.len(), 0);
    assert_eq!(store.object_count(), 0);
    assert_eq!(store.record_count(), 0);
}

#[test]
fn test_out_of_grid_coordinates_fail_before_any_storage_traffic() {
    let gen = TileGenerator::new(ImageProcessor::new(64), 0, 5);
    let mut cache = TileCache::new(60);
    let mut store = OriginStore::new();
    let r = gen.handle_tile_request(
        &mut cache,
        &mut store,
        &request(5, 32, 0, "png"),
        None,
        &game(None),
        &world_bounds(),
        None,
        &Vec::new(),
        0,
    );
    assert_eq!(r.unwrap_err(), TileServiceError::InvalidCoordinates(5, 32, 0));
    assert_eq!(cache.len(), 0);
    assert_eq!(store.object_count(), 0);
    assert_eq!(store.record_count(), 0);
}

#[test]
fn test_empty_cache_and_store_synthesizes_persists_and_caches() {
    let gen = generator();
    let mut cache = TileCache::new(60);
    let mut store = OriginStore::new();
    let r = gen
        .handle_tile_request(
            &mut cache,
            &mut store,
            &request(0, 0, 0, "png"),
            None,
            &game(Some("http://maps.example/base")),
            &world_bounds(),
            None,
            &Vec::new(),
            0,
        )
        .unwrap();
    let resp = match r {
        TileOutcome::Fresh(resp) => resp,
        TileOutcome::NotModified => panic!("expected a fresh tile"),
    };
    assert_eq!(resp.content_type, "image/png");
    assert_eq!(resp.cache_key, "tile:m1:0:0:0:png");
    assert!(resp.etag.starts_with('"') && resp.etag.ends_with('"'));
    // the blank-background PNG decodes at the configured tile size
    let img = decode_image(&resp.data).unwrap();
    assert_eq!((img.width, img.height), (64, 64));
    assert_eq!(img.get_pixel(10, 10), map_tile_service::image_model::Pixel {
        r: 240,
        g: 240,
        b: 240,
        a: 255,
    });
    // persisted to the origin store with a metadata row
    assert_eq!(store.get("m1/0/0/0.png").unwrap(), resp.data);
    assert_eq!(store.record_count(), 1);
    // cached with the configured TTL: alive until it, gone after it
    assert_eq!(cache.len(), 2);
    let again = cache.get_tile("tile:m1:0:0:0:png", 59).unwrap();
    assert_eq!(again.data, resp.data);
}

#[test]
fn test_second_request_serves_from_cache_and_conditional_returns_not_modified() {
    let gen = generator();
    let mut cache = TileCache::new(60);
    let mut store = OriginStore::new();
    let g = game(None);
    let req = request(1, 1, 0, "png");
    let first = gen
        .handle_tile_request(&mut cache, &mut store, &req, None, &g, &world_bounds(), None, &Vec::new(), 0)
        .unwrap();
    let etag = match first {
        TileOutcome::Fresh(resp) => resp.etag,
        TileOutcome::NotModified => panic!("expected a fresh tile"),
    };
    let objects_after_first = store.object_count();
    // second plain request: served from cache, storage untouched
    let second = gen
        .handle_tile_request(&mut cache, &mut store, &req, None, &g, &world_bounds(), None, &Vec::new(), 10)
        .unwrap();
    match second {
        TileOutcome::Fresh(resp) => assert_eq!(resp.etag, etag),
        TileOutcome::NotModified => panic!("expected a fresh tile"),
    }
    assert_eq!(store.object_count(), objects_after_first);
    // conditional request with the matching ETag short-circuits
    let third = gen
        .handle_tile_request(
            &mut cache,
            &mut store,
            &req,
            Some(&etag),
            &g,
            &world_bounds(),
            None,
            &Vec::new(),
            20,
        )
        .unwrap();
    assert!(matches!(third, TileOutcome::NotModified));
}

#[test]
fn test_marker_composited_at_projected_pixel() {
    let gen = generator();
    let marker = MarkerData {
        id: "mk1".to_string(),
        position: "POINT(0 0)".to_string(),
        marker_type: "treasure".to_string(),
        title: "chest".to_string(),
        metadata: "{}".to_string(),
    };
    let bounds = TileBounds {
        north_udeg: 10_000_000,
        south_udeg: -10_000_000,
        east_udeg: 10_000_000,
        west_udeg: -10_000_000,
    };
    let resp = gen
        .generate_tile(&request(2, 1, 1, "png"), &game(None), &bounds, None, &vec![marker])
        .unwrap();
    let img = decode_image(&resp.data).unwrap();
    // the marker projects to the tile centre; its icon centre is 8 pixels
    // further and fully opaque gold
    assert_eq!(
        img.get_pixel(40, 40),
        map_tile_service::image_model::Pixel { r: 255, g: 215, b: 0, a: 255 }
    );
    // far corner keeps the blank background
    assert_eq!(
        img.get_pixel(5, 5),
        map_tile_service::image_model::Pixel { r: 240, g: 240, b: 240, a: 255 }
    );
}

#[test]
fn test_batch_continues_past_failures() {
    let gen = generator();
    let mut store = OriginStore::new();
    let good = TileJob {
        game: game(None),
        request: request(1, 0, 0, "png"),
        bounds: world_bounds(),
        base_bytes: None,
        markers: Vec::new(),
    };
    let bad_format = TileJob {
        game: game(None),
        request: request(1, 0, 1, "gif"),
        bounds: world_bounds(),
        base_bytes: None,
        markers: Vec::new(),
    };
    let good2 = TileJob {
        game: game(None),
        request: request(1, 1, 1, "png"),
        bounds: world_bounds(),
        base_bytes: None,
        markers: Vec::new(),
    };
    let results = gen.generate_tiles_batch(&mut store, &vec![good, bad_format, good2]);
    assert_eq!(results.len(), 2);
    assert_eq!(store.record_count(), 2);
    assert_eq!(store.object_count(), 2);
    assert!(store.get("m1/1/0/0.png").is_ok());
    assert!(store.get("m1/1/1/1.png").is_ok());
    assert!(store.get("m1/1/0/1.gif").is_err());
}

#[test]
fn test_batch_bounds_prefers_request_bounds_then_game_bounds() {
    let mut g = game(None);
    g.map_bounds = Some("POLYGON((-1 -1, 1 -1, 1 1, -1 1, -1 -1))".to_string());
    let explicit = world_bounds();
    assert_eq!(batch_bounds(&g, Some(explicit)), Some(explicit));
    let derived = batch_bounds(&g, None).unwrap();
    assert_eq!(derived.north_udeg, 1_000_000);
    assert_eq!(derived.west_udeg, -1_000_000);
    g.map_bounds = None;
    assert_eq!(batch_bounds(&g, None), None);
}

#[test]
fn test_health_status_requires_both_probes() {
    assert_eq!(health_status(true, true), 200);
    assert_eq!(health_status(false, true), 503);
    assert_eq!(health_status(true, false), 503);
    assert_eq!(health_status(false, false), 503);
}

#[test]
fn test_marker_position_parsing_on_rows() {
    let marker = MarkerData {
        id: "mk".to_string(),
        position: "POINT(-122.5 37.75)".to_string(),
        marker_type: "npc".to_string(),
        title: "t".to_string(),
        metadata: "{}".to_string(),
    };
    let p = marker.get_position().unwrap();
    assert_eq!(p.lng_udeg, -122_500_000);
    assert_eq!(p.lat_udeg, 37_750_000);
    let broken = MarkerData { position: "POINT()".to_string(), ..marker };
    assert!(broken.get_position().is_none());
}

#[test]
fn test_batch_with_all_valid_jobs_generates_every_tile() {
    let gen = generator();
    let mut store = OriginStore::new();
    let jobs: Vec<TileJob> = (0..2u32)
        .flat_map(|x| {
            (0..2u32).map(move |y| (x, y))
        })
        .map(|(x, y)| TileJob {
            game: game(None),
            request: request(1, x, y, "png"),
            bounds: world_bounds(),
            base_bytes: None,
            markers: Vec::new(),
        })
        .collect();
    let results = gen.generate_tiles_batch(&mut store, &jobs);
    assert_eq!(results.len(), 4);
    assert_eq!(store.record_count(), 4);
    assert_eq!(store.object_count(), 4);
    for (job, meta) in jobs.iter().zip(results.iter()) {
        assert_eq!(meta.tile_x as u32, job.request.x);
        assert_eq!(meta.tile_y as u32, job.request.y);
        assert_eq!(meta.zoom_level, 1);
        assert_eq!(meta.format, "png");
    }
}
