use breakout::errors::LoadError;
use breakout::game_level::{GameLevel, TileKind};
use breakout::resource_manager::ResourceManager;
use breakout::units::UNITS_PER_PIXEL;

fn full_resources() -> ResourceManager {
    let mut r = ResourceManager::new();
    r.add_texture(String::from("block_solid"), 10);
    r.add_texture(String::from("block"), 11);
    r
}

const PX: i64 = UNITS_PER_PIXEL;

#[test]
fn parse_two_by_two_grid() {
    // "1 1\n1 0" over a 100 by 100 pixel area: three solid bricks of
    // 50 by 50 pixels at (0,0), (50,0) and (0,50); the zero tile at
    // column 1, row 1 produces no brick.
    let r = full_resources();
    let level = GameLevel::new("1 1\n1 0", 100 * PX, 100 * PX, &r).unwrap();
    assert_eq!(level.brick_count(), 3);
    let expect = [(0, 0), (50, 0), (0, 50)];
    for i in 0..level.brick_count() {
        assert_eq!(level.brick(i), level.bricks[i]);
    }
    for (i, b) in level.bricks.iter().enumerate() {
        assert_eq!(b.position.x, expect[i].0 * PX);
        assert_eq!(b.position.y, expect[i].1 * PX);
        assert_eq!(b.size.x, 50 * PX);
        assert_eq!(b.size.y, 50 * PX);
        assert!(b.is_solid);
        assert!(!b.is_destroyed);
        assert_eq!(b.sprite, 10);
        assert_eq!(b.colour.r, 800);
        assert_eq!(b.colour.g, 800);
        assert_eq!(b.colour.b, 700);
    }
}

#[test]
fn ragged_rows_are_a_shape_error() {
    let r = full_resources();
    let e = GameLevel::new("1 1\n1", 100 * PX, 100 * PX, &r).unwrap_err();
    assert_eq!(e, LoadError::ShapeError);
}

#[test]
fn empty_source_is_an_empty_level_error() {
    let r = full_resources();
    let e = GameLevel::new("", 100 * PX, 100 * PX, &r).unwrap_err();
    assert_eq!(e, LoadError::EmptyLevelError);
}

#[test]
fn bad_token_is_a_parse_error() {
    let r = full_resources();
    let e = GameLevel::new("1 x\n1 1", 100 * PX, 100 * PX, &r).unwrap_err();
    assert_eq!(e, LoadError::ParseError);
}

#[test]
fn oversized_code_is_a_parse_error() {
    let r = full_resources();
    let e = GameLevel::new("256", 100 * PX, 100 * PX, &r).unwrap_err();
    assert_eq!(e, LoadError::ParseError);
}

#[test]
fn parse_error_wins_over_shape_error() {
    // The tile data is read in full before the shape is checked.
    let r = full_resources();
    let e = GameLevel::new("1 1\nx", 100 * PX, 100 * PX, &r).unwrap_err();
    assert_eq!(e, LoadError::ParseError);
}

#[test]
fn missing_texture_is_reported() {
    let empty = ResourceManager::new();
    let e = GameLevel::new("1", 100 * PX, 100 * PX, &empty).unwrap_err();
    assert_eq!(e, LoadError::MissingResourceError);

    // A level of only empty tiles needs no texture at all.
    let ok = GameLevel::new("0 0", 100 * PX, 100 * PX, &empty).unwrap();
    assert_eq!(ok.bricks.len(), 0);
}

#[test]
fn trailing_newline_reads_like_a_text_file() {
    let r = full_resources();
    let a = GameLevel::new("1 1", 100 * PX, 100 * PX, &r).unwrap();
    let b = GameLevel::new("1 1\n", 100 * PX, 100 * PX, &r).unwrap();
    assert_eq!(a.bricks.len(), b.bricks.len());
}

#[test]
fn crlf_line_endings_parse() {
    let r = full_resources();
    let level = GameLevel::new("1 1\r\n2 2", 100 * PX, 100 * PX, &r).unwrap();
    assert_eq!(level.bricks.len(), 4);
    assert!(level.bricks[2].colour.b == 1000); // Blue brick below
}

#[test]
fn tile_codes_map_to_kinds_and_colours() {
    let r = full_resources();
    // codes 2..=5 and a high code; one row.
    let level = GameLevel::new("2 3 4 5 9", 500 * PX, 100 * PX, &r).unwrap();
    assert_eq!(level.bricks.len(), 5);
    let colours = [
        (200, 600, 1000), // blue
        (0, 700, 0),      // green
        (800, 800, 400),  // tan
        (1000, 500, 0),   // orange
        (1000, 1000, 1000), // white for any code past the palette
    ];
    for (i, b) in level.bricks.iter().enumerate() {
        assert_eq!((b.colour.r, b.colour.g, b.colour.b), colours[i]);
        assert!(!b.is_solid);
        assert_eq!(b.sprite, 11);
    }
}

#[test]
fn tokens_accept_a_leading_plus_and_zeros() {
    assert_eq!(TileKind::try_from("+2").unwrap(), TileKind::Blue);
    assert_eq!(TileKind::try_from("007").unwrap(), TileKind::White);
    assert_eq!(TileKind::try_from("0").unwrap(), TileKind::Empty);
    assert_eq!(TileKind::try_from("255").unwrap(), TileKind::White);
    assert!(TileKind::try_from("").is_err());
    assert!(TileKind::try_from("+").is_err());
    assert!(TileKind::try_from("-1").is_err());
    assert!(TileKind::try_from("1.5").is_err());
    assert!(TileKind::try_from("999999999999").is_err());
}

#[test]
fn tile_kind_queries() {
    assert!(TileKind::from(1u8).is_solid());
    assert!(!TileKind::from(2u8).is_solid());
    assert_eq!(TileKind::from(1u8).texture_name(), "block_solid");
    assert_eq!(TileKind::from(4u8).texture_name(), "block");
}

#[test]
fn completion_tracks_destructible_bricks() {
    let r = full_resources();
    // One solid and one destructible brick.
    let mut level = GameLevel::new("1 2", 100 * PX, 100 * PX, &r).unwrap();
    assert!(!level.is_completed());
    // Destroying the destructible brick completes the level.
    let solid_first = level.bricks[0].is_solid;
    let target = if solid_first { 1 } else { 0 };
    level.bricks[target].is_destroyed = true;
    assert!(level.is_completed());

    // An all-solid level is vacuously complete.
    let all_solid = GameLevel::new("1 1 1", 300 * PX, 100 * PX, &r).unwrap();
    assert!(all_solid.is_completed());
}

#[test]
fn reset_revives_bricks() {
    let r = full_resources();
    let mut level = GameLevel::new("2 3", 100 * PX, 100 * PX, &r).unwrap();
    level.bricks[0].is_destroyed = true;
    level.bricks[1].is_destroyed = true;
    assert!(level.is_completed());
    level.reset();
    assert!(!level.is_completed());
    assert_eq!(level.bricks.len(), 2);
    assert!(!level.bricks[0].is_destroyed && !level.bricks[1].is_destroyed);
}

#[test]
fn uneven_division_rounds_down() {
    let r = full_resources();
    // Three columns across 100 pixels: 33.333... pixels each, rounded
    // down to the subunit.
    let level = GameLevel::new("2 2 2", 100 * PX, 100 * PX, &r).unwrap();
    let unit = 100 * PX / 3;
    assert_eq!(level.bricks[0].size.x, unit);
    assert_eq!(level.bricks[1].position.x, unit);
    assert_eq!(level.bricks[2].position.x, 2 * unit);
}

#[test]
fn latest_texture_registration_wins() {
    let mut r = ResourceManager::new();
    r.add_texture(String::from("block"), 1);
    r.add_texture(String::from("block"), 2);
    assert_eq!(r.texture("block"), Some(2));
    assert_eq!(r.texture("block_solid"), None);
    r.add_shader(String::from("sprite"), 7);
    assert_eq!(r.shader("sprite"), Some(7));
    assert_eq!(r.shader("other"), None);
}
