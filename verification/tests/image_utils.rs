use map_tile_service::imaging::{
    calculate_image_hash, calculate_max_zoom, calculate_memory_usage, calculate_optimal_tile_size,
    calculate_tiles, ensure_rgb8, ensure_rgba8, get_format_from_extension, validate_image_data,
    ImageKind,
};
use map_tile_service::image_model::TileImage;

#[test]
fn test_calculate_tiles() {
    assert_eq!(calculate_tiles(1000, 256), 4);
    assert_eq!(calculate_tiles(256, 256), 1);
    assert_eq!(calculate_tiles(257, 256), 2);
}

#[test]
fn test_calculate_max_zoom() {
    assert_eq!(calculate_max_zoom(1024, 1024, 256), 2);
    assert_eq!(calculate_max_zoom(2048, 2048, 256), 3);
    assert_eq!(calculate_max_zoom(4096, 4096, 256), 4);
}

#[test]
fn test_calculate_optimal_tile_size() {
    assert_eq!(calculate_optimal_tile_size(512, 512), 128);
    assert_eq!(calculate_optimal_tile_size(1024, 1024), 256);
    assert_eq!(calculate_optimal_tile_size(4096, 4096), 512);
    assert_eq!(calculate_optimal_tile_size(16384, 16384), 1024);
}

#[test]
fn test_get_format_from_extension() {
    assert_eq!(get_format_from_extension("png"), Some(ImageKind::Png));
    assert_eq!(get_format_from_extension("jpg"), Some(ImageKind::Jpeg));
    assert_eq!(get_format_from_extension("JPEG"), Some(ImageKind::Jpeg));
    assert_eq!(get_format_from_extension("xyz"), None);
}

#[test]
fn test_calculate_memory_usage() {
    assert_eq!(calculate_memory_usage(1024, 1024, 4, 8), 4_194_304);
    assert_eq!(calculate_memory_usage(100, 100, 3, 8), 30_000);
}

#[test]
fn test_rgb_rgba_conversions_round_trip() {
    let img = TileImage {
        width: 2,
        height: 1,
        pixels: vec![1, 2, 3, 9, 4, 5, 6, 9],
    };
    let rgb = ensure_rgb8(&img);
    assert_eq!(rgb, vec![1, 2, 3, 4, 5, 6]);
    let back = ensure_rgba8(2, 1, &rgb);
    assert_eq!(back.pixels, vec![1, 2, 3, 255, 4, 5, 6, 255]);
}

#[test]
fn test_image_hash_deterministic() {
    let a = vec![1u8, 2, 3, 4];
    let b = vec![1u8, 2, 3, 4];
    let c = vec![1u8, 2, 3, 5];
    assert_eq!(calculate_image_hash(&a), calculate_image_hash(&b));
    assert_ne!(calculate_image_hash(&a), calculate_image_hash(&c));
}

#[test]
fn test_validate_image_data_rejects_garbage() {
    let junk = vec![0u8, 1, 2, 3, 4, 5, 6, 7];
    let r = validate_image_data(&junk);
    assert!(r.is_err());
}

#[test]
fn test_validate_image_data_accepts_png() {
    let img = map_tile_service::image_model::solid_tile(
        8,
        map_tile_service::image_model::Pixel { r: 10, g: 20, b: 30, a: 255 },
    );
    let bytes = map_tile_service::imaging::encode_png(&img).unwrap();
    let (w, h, kind) = validate_image_data(&bytes).unwrap();
    assert_eq!((w, h), (8, 8));
    assert_eq!(kind, "png".to_string());
}
