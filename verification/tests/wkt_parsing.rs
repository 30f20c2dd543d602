use map_tile_service::game::{Game, GameBounds};
use map_tile_service::wkt::{parse_bounds_from_wkt, parse_point, parse_udeg};

#[test]
fn test_parse_udeg_plain_decimals() {
    assert_eq!(parse_udeg("0"), Some(0));
    assert_eq!(parse_udeg("12"), Some(12_000_000));
    assert_eq!(parse_udeg("-122.41942"), Some(-122_419_420));
    assert_eq!(parse_udeg("37.7749295"), Some(37_774_929));
    assert_eq!(parse_udeg("1."), Some(1_000_000));
    assert_eq!(parse_udeg("-0.5"), Some(-500_000));
}

#[test]
fn test_parse_udeg_rejects_malformed_text() {
    assert_eq!(parse_udeg(""), None);
    assert_eq!(parse_udeg("-"), None);
    assert_eq!(parse_udeg(".5"), None);
    assert_eq!(parse_udeg("1e3"), None);
    assert_eq!(parse_udeg("12.3.4"), None);
    assert_eq!(parse_udeg("abc"), None);
}

#[test]
fn test_parse_point_well_formed() {
    assert_eq!(parse_point("POINT(-122.5 37.75)"), Some((-122_500_000, 37_750_000)));
    assert_eq!(parse_point("POINT(10 -20)"), Some((10_000_000, -20_000_000)));
}

#[test]
fn test_parse_point_malformed() {
    assert_eq!(parse_point("POINT(1)"), None);
    assert_eq!(parse_point("POINT(1 2 3)"), None);
    assert_eq!(parse_point("POINT(a b)"), None);
    assert_eq!(parse_point("LINESTRING(1 2)"), None);
    assert_eq!(parse_point(""), None);
}

#[test]
fn test_parse_bounds_from_polygon() {
    let wkt = "POLYGON((-10 -5, 20 -5, 20 15, -10 15, -10 -5))";
    let b = parse_bounds_from_wkt(wkt).unwrap();
    assert_eq!(b.west_udeg, -10_000_000);
    assert_eq!(b.east_udeg, 20_000_000);
    assert_eq!(b.south_udeg, -5_000_000);
    assert_eq!(b.north_udeg, 15_000_000);
}

#[test]
fn test_parse_bounds_rejects_malformed_polygons() {
    assert_eq!(parse_bounds_from_wkt("POLYGON((1 2, 3 4))"), None);
    assert_eq!(parse_bounds_from_wkt("POLYGON(1 2, 3 4, 5 6, 1 2)"), None);
    assert_eq!(parse_bounds_from_wkt("nonsense"), None);
    // enough points, but none parse: no bounds can be formed
    assert_eq!(parse_bounds_from_wkt("POLYGON((a b, c d, e f, g h))"), None);
}

#[test]
fn test_game_bounds_from_registered_wkt() {
    let game = Game {
        id: "g1".to_string(),
        name: "Game".to_string(),
        slug: "game".to_string(),
        map_bounds: Some("POLYGON((-1 -2, 3 -2, 3 4, -1 4, -1 -2))".to_string()),
        max_zoom_level: 10,
        min_zoom_level: 0,
        tile_size: 256,
        base_map_url: None,
        created_at: 0,
        updated_at: 0,
    };
    assert_eq!(
        game.get_bounds(),
        Some(GameBounds {
            north_udeg: 4_000_000,
            south_udeg: -2_000_000,
            east_udeg: 3_000_000,
            west_udeg: -1_000_000,
        })
    );
    let mut no_bounds = game.clone();
    no_bounds.map_bounds = None;
    assert_eq!(no_bounds.get_bounds(), None);
    let mut bad = game;
    bad.map_bounds = Some("POLYGON((oops))".to_string());
    assert_eq!(bad.get_bounds(), None);
}
