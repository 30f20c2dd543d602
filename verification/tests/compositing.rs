use map_tile_service::image_model::{crop, solid_tile, Pixel, TileImage};
use map_tile_service::models::TileFormat;
use map_tile_service::processor::blank_tile;
use map_tile_service::processor::ImageProcessor;

#[test]
fn test_opaque_overlay_pixel_replaces_base() {
    let p = ImageProcessor::new(64);
    let base = Pixel { r: 10, g: 20, b: 30, a: 200 };
    let overlay = Pixel { r: 111, g: 222, b: 33, a: 255 };
    let out = p.alpha_blend(base, overlay);
    assert_eq!((out.r, out.g, out.b), (111, 222, 33));
}

#[test]
fn test_transparent_overlay_pixel_keeps_base() {
    let p = ImageProcessor::new(64);
    let base = Pixel { r: 10, g: 20, b: 30, a: 200 };
    let overlay = Pixel { r: 111, g: 222, b: 33, a: 0 };
    let out = p.alpha_blend(base, overlay);
    assert_eq!((out.r, out.g, out.b), (10, 20, 30));
}

#[test]
fn test_half_transparent_blend_exact_value() {
    let p = ImageProcessor::new(64);
    let base = Pixel { r: 100, g: 0, b: 200, a: 255 };
    let overlay = Pixel { r: 0, g: 100, b: 100, a: 128 };
    let out = p.alpha_blend(base, overlay);
    // channel = (overlay * 128 + base * 127) / 255, truncated
    assert_eq!(out.r, ((0u32 * 128 + 100 * 127) / 255) as u8);
    assert_eq!(out.g, ((100u32 * 128 + 0 * 127) / 255) as u8);
    assert_eq!(out.b, ((100u32 * 128 + 200 * 127) / 255) as u8);
    // blended alpha floored at the overlay's own alpha
    assert_eq!(out.a, {
        let blended = ((128u32 * 128 + 255 * 127) / 255) as u8;
        if blended >= 128 { blended } else { 128 }
    });
}

#[test]
fn test_blend_images_out_of_bounds_pixels_skipped() {
    let p = ImageProcessor::new(64);
    let base = solid_tile(4, Pixel { r: 1, g: 1, b: 1, a: 255 });
    let overlay = solid_tile(4, Pixel { r: 9, g: 9, b: 9, a: 255 });
    // offset pushes most of the overlay outside the base
    let out = p.blend_images(&base, &overlay, 3, 3);
    assert_eq!(out.get_pixel(3, 3), Pixel { r: 9, g: 9, b: 9, a: 255 });
    assert_eq!(out.get_pixel(0, 0), Pixel { r: 1, g: 1, b: 1, a: 255 });
    assert_eq!(out.get_pixel(2, 3), Pixel { r: 1, g: 1, b: 1, a: 255 });
}

#[test]
fn test_composite_images_applies_overlays_in_order() {
    let p = ImageProcessor::new(64);
    let base = solid_tile(2, Pixel { r: 0, g: 0, b: 0, a: 255 });
    let red = solid_tile(1, Pixel { r: 255, g: 0, b: 0, a: 255 });
    let green = solid_tile(1, Pixel { r: 0, g: 255, b: 0, a: 255 });
    let out = p.composite_images(&base, vec![(red, 0, 0), (green, 0, 0)]);
    // the later overlay wins at the shared pixel
    assert_eq!(out.get_pixel(0, 0), Pixel { r: 0, g: 255, b: 0, a: 255 });
    assert_eq!(out.get_pixel(1, 1), Pixel { r: 0, g: 0, b: 0, a: 255 });
}

#[test]
fn test_crop_extracts_exact_region() {
    // 4x1 image with distinct pixels
    let img = TileImage {
        width: 4,
        height: 1,
        pixels: vec![
            0, 0, 0, 255, 1, 1, 1, 255, 2, 2, 2, 255, 3, 3, 3, 255,
        ],
    };
    let c = crop(&img, 1, 0, 2, 1).unwrap();
    assert_eq!(c.width, 2);
    assert_eq!(c.height, 1);
    assert_eq!(c.pixels, vec![1, 1, 1, 255, 2, 2, 2, 255]);
}

#[test]
fn test_crop_out_of_bounds_is_rejected() {
    let img = solid_tile(4, Pixel { r: 0, g: 0, b: 0, a: 0 });
    assert!(crop(&img, 2, 0, 3, 1).is_err());
    assert!(crop(&img, 0, 3, 1, 2).is_err());
    assert!(crop(&img, 0, 0, 4, 4).is_ok());
}

#[test]
fn test_resize_to_tile_yields_configured_geometry() {
    let p = ImageProcessor::new(16);
    let src = solid_tile(32, Pixel { r: 50, g: 60, b: 70, a: 255 });
    let out = p.resize_to_tile(&src);
    assert_eq!((out.width, out.height), (16, 16));
    assert_eq!(out.pixels.len(), 4 * 16 * 16);
}

#[test]
fn test_encode_image_rejects_unknown_format() {
    let p = ImageProcessor::new(8);
    let img = solid_tile(8, Pixel { r: 0, g: 0, b: 0, a: 255 });
    let r = p.encode_image(&img, "bmp");
    assert!(r.is_err());
    let ok = p.encode_image(&img, "PNG");
    assert!(ok.is_ok());
    assert!(!ok.unwrap().is_empty());
}

#[test]
fn test_encode_decode_round_trip_geometry() {
    let p = ImageProcessor::new(8);
    let img = solid_tile(8, Pixel { r: 12, g: 34, b: 56, a: 255 });
    for fmt in ["png", "jpeg", "webp"] {
        let bytes = p.encode_image(&img, fmt).unwrap();
        assert!(!bytes.is_empty());
        let back = map_tile_service::imaging::decode_image(&bytes).unwrap();
        assert_eq!((back.width, back.height), (8, 8));
    }
}

#[test]
fn test_blank_tile_is_fully_transparent() {
    let bytes = blank_tile(8, &TileFormat::PNG).unwrap();
    assert!(!bytes.is_empty());
    let img = map_tile_service::imaging::decode_image(&bytes).unwrap();
    assert_eq!((img.width, img.height), (8, 8));
    assert_eq!(img.get_pixel(3, 3).a, 0);
    assert!(blank_tile(8, &TileFormat::WEBP).is_ok());
}

#[test]
fn test_webp_request_yields_webp_stream() {
    let p = ImageProcessor::new(8);
    let img = solid_tile(8, Pixel { r: 1, g: 2, b: 3, a: 255 });
    let bytes = p.encode_image(&img, "webp").unwrap();
    assert_eq!(
        map_tile_service::imaging::sniff_format(&bytes),
        Some(map_tile_service::imaging::ImageKind::WebP)
    );
}
