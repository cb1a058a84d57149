use grid_game::game::{board_size, tile_kind, GameState, TileKind, GRID_RADIUS};

#[test]
fn the_board_has_radius_forty() {
    assert_eq!(GRID_RADIUS, 40);
    let _state = GameState {};
}

#[test]
fn tiles_are_center_rim_or_inner() {
    assert_eq!(tile_kind(0, GRID_RADIUS), TileKind::Center);
    assert_eq!(tile_kind(40, GRID_RADIUS), TileKind::Rim);
    assert_eq!(tile_kind(1, GRID_RADIUS), TileKind::Inner);
    assert_eq!(tile_kind(39, GRID_RADIUS), TileKind::Inner);
    assert_eq!(tile_kind(41, GRID_RADIUS), TileKind::Inner);
    assert_eq!(tile_kind(0, 0), TileKind::Center);
}

#[test]
fn board_size_counts_the_rings() {
    assert_eq!(board_size(0), 1);
    assert_eq!(board_size(1), 7);
    assert_eq!(board_size(2), 19);
    assert_eq!(board_size(GRID_RADIUS), 4921);
    assert_eq!(board_size(i32::MAX as u32), 13_835_058_048_839_712_769);
}
