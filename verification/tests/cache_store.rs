use map_tile_service::cache::{parse_redis_info, TileCache};
use map_tile_service::store::OriginStore;
use map_tile_service::tile::{TileMetadata, TileResponse};

fn blob(bytes: &[u8]) -> TileResponse {
    TileResponse {
        data: bytes.to_vec(),
        content_type: "image/png".to_string(),
        cache_key: "k".to_string(),
        etag: "\"42\"".to_string(),
    }
}

#[test]
fn test_cache_set_get_round_trip_within_ttl() {
    let mut cache = TileCache::new(60);
    cache.set_entry("k", vec![1, 2, 3], "image/png".to_string(), "\"e\"".to_string(), 60, 0);
    let got = cache.get("k", 59);
    assert_eq!(got, Some(vec![1, 2, 3]));
}

#[test]
fn test_cache_get_after_expiry_is_a_miss() {
    let mut cache = TileCache::new(60);
    cache.set_entry("k", vec![1, 2, 3], String::new(), String::new(), 60, 0);
    assert_eq!(cache.get("k", 60), None);
    assert_eq!(cache.get("k", 1000), None);
}

#[test]
fn test_cache_read_slides_expiration() {
    let mut cache = TileCache::new(60);
    cache.set_entry("k", vec![7], String::new(), String::new(), 60, 0);
    // read at 50 refreshes the entry to expire at 110
    assert!(cache.get("k", 50).is_some());
    assert!(cache.get("k", 100).is_some());
    // without further reads it expires 60 seconds later
    assert_eq!(cache.get("k", 170), None);
}

#[test]
fn test_set_tile_stores_companion_etag() {
    let mut cache = TileCache::new(60);
    let tile = blob(&[9, 9]);
    cache.set_tile("tile:m:0:0:0:png", &tile, 60, 0);
    let etag = cache.get_etag("tile:m:0:0:0:png", 10).unwrap();
    assert_eq!(etag, "\"42\"");
    let back = cache.get_tile("tile:m:0:0:0:png", 10).unwrap();
    assert_eq!(back.data, vec![9, 9]);
    assert_eq!(back.content_type, "image/png");
    assert_eq!(back.cache_key, "tile:m:0:0:0:png");
    assert!(cache.get_etag("tile:m:0:0:0:png", 100).is_err());
}

#[test]
fn test_invalidate_game_tiles_scopes_to_one_parent() {
    let mut cache = TileCache::new(60);
    cache.set_tile("tile:p1:0:0:0:png", &blob(&[1]), 600, 0);
    cache.set_tile("tile:p1:1:0:0:png", &blob(&[2]), 600, 0);
    cache.set_tile("tile:p2:0:0:0:png", &blob(&[3]), 600, 0);
    assert_eq!(cache.len(), 6);
    cache.invalidate_game_tiles("p1");
    // both p1 blobs and their companion ETag entries are gone
    assert_eq!(cache.len(), 2);
    assert!(cache.get_tile("tile:p1:0:0:0:png", 1).is_none());
    assert!(cache.get_etag("tile:p1:0:0:0:png", 1).is_err());
    // p2 is untouched
    assert!(cache.get_tile("tile:p2:0:0:0:png", 1).is_some());
    assert!(cache.get_etag("tile:p2:0:0:0:png", 1).is_ok());
}

#[test]
fn test_invalidate_pattern_exact_key() {
    let mut cache = TileCache::new(60);
    cache.set_entry("alpha", vec![1], String::new(), String::new(), 600, 0);
    cache.set_entry("alphabet", vec![2], String::new(), String::new(), 600, 0);
    cache.invalidate_pattern("alpha");
    assert_eq!(cache.get("alpha", 1), None);
    assert_eq!(cache.get("alphabet", 1), Some(vec![2]));
    cache.invalidate_pattern("alpha*");
    assert_eq!(cache.get("alphabet", 1), None);
}

#[test]
fn test_store_put_get_delete() {
    let mut store = OriginStore::new();
    assert!(store.get("m/0/0/0.png").is_err());
    store.put("m/0/0/0.png", &vec![1, 2]);
    assert_eq!(store.get("m/0/0/0.png").unwrap(), vec![1, 2]);
    store.put("m/0/0/0.png", &vec![3]);
    assert_eq!(store.get("m/0/0/0.png").unwrap(), vec![3]);
    store.delete("m/0/0/0.png");
    assert!(store.get("m/0/0/0.png").is_err());
}

fn row(game: &str, z: i32, x: i32, y: i32, hash: &str) -> TileMetadata {
    TileMetadata {
        id: "id".to_string(),
        game_id: game.to_string(),
        zoom_level: z,
        tile_x: x,
        tile_y: y,
        format: "png".to_string(),
        file_size: 10,
        content_hash: hash.to_string(),
        created_at: 1000,
        last_accessed: None,
    }
}

#[test]
fn test_upsert_metadata_is_idempotent_and_last_write_wins() {
    let mut store = OriginStore::new();
    store.upsert_metadata(row("g", 1, 2, 3, "aaa"));
    store.upsert_metadata(row("g", 1, 2, 3, "aaa"));
    assert_eq!(store.record_count(), 1);
    store.upsert_metadata(row("g", 1, 2, 3, "bbb"));
    assert_eq!(store.record_count(), 1);
    store.upsert_metadata(row("g", 1, 2, 4, "ccc"));
    assert_eq!(store.record_count(), 2);
}

#[test]
fn test_parse_redis_info_reads_first_matching_line() {
    let info = "# Memory\nused_memory:1048576\nused_memory_human:1.00M\n";
    assert_eq!(parse_redis_info(info, "used_memory"), Some(1048576));
    assert_eq!(parse_redis_info(info, "used_memory_human"), None);
    assert_eq!(parse_redis_info(info, "absent"), None);
    assert_eq!(parse_redis_info("", "used_memory"), None);
}
