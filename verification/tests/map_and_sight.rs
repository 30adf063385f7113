use rltk::{Algorithm2D, BaseMap, Point};
use yarr::inventory_system::{gather, strike};
use yarr::{Entity, TileMap, TileType};

#[test]
fn blank_map_is_well_formed() {
    let m = TileMap::new(8, 6, TileType::Floor);
    assert!(m.is_well_formed());
    assert_eq!(m.tiles.len(), 48);
    assert_eq!(m.tile_content.len(), 48);
    assert!(m.rooms.is_empty());
    assert!(m.tiles.iter().all(|t| *t == TileType::Floor));
    assert!(m.blocked_tiles.iter().all(|b| !*b));
}

#[test]
fn map_with_a_short_list_is_not_well_formed() {
    let mut m = TileMap::new(8, 6, TileType::Floor);
    m.blocked_tiles.pop();
    assert!(!m.is_well_formed());
    let mut n = TileMap::new(8, 6, TileType::Floor);
    n.width = -1;
    assert!(!n.is_well_formed());
}

#[test]
fn bounds_and_border() {
    let m = TileMap::new(8, 6, TileType::Floor);
    assert!(m.in_bounds(Point::new(0, 0)));
    assert!(m.in_bounds(Point::new(7, 5)));
    assert!(!m.in_bounds(Point::new(8, 5)));
    assert!(!m.in_bounds(Point::new(7, 6)));
    assert!(!m.in_bounds(Point::new(-1, 0)));
    assert!(m.is_interior(Point::new(1, 1)));
    assert!(m.is_interior(Point::new(6, 4)));
    assert!(!m.is_interior(Point::new(0, 1)));
    assert!(!m.is_interior(Point::new(7, 1)));
    assert!(!m.is_interior(Point::new(1, 0)));
    assert!(!m.is_interior(Point::new(1, 5)));
    assert!(!m.is_interior(Point::new(i32::MAX, i32::MAX)));
}

#[test]
fn xy_idx_is_row_major() {
    let m = TileMap::new(8, 6, TileType::Floor);
    assert_eq!(m.xy_idx(0, 0), 0);
    assert_eq!(m.xy_idx(3, 2), 19);
    assert_eq!(m.xy_idx(7, 5), 47);
}

#[test]
fn walls_and_the_outside_block_sight() {
    let mut m = TileMap::new(4, 4, TileType::Floor);
    m.tiles[5] = TileType::Wall;
    assert!(m.blocks_sight(5));
    assert!(!m.blocks_sight(6));
    assert!(m.blocks_sight(16));
    assert!(m.blocks_sight(usize::MAX));
}

#[test]
fn clear_content_empties_every_tile() {
    let mut m = TileMap::new(3, 3, TileType::Floor);
    m.tile_content[4].push(Entity { id: 2 });
    m.tile_content[0].push(Entity { id: 1 });
    m.clear_content();
    assert_eq!(m.tile_content.len(), 9);
    assert!(m.tile_content.iter().all(|c| c.is_empty()));
    assert_eq!(m.tiles.len(), 9);
}

#[test]
fn duplicate_is_equal() {
    let mut m = TileMap::new(3, 2, TileType::Wall);
    m.tiles[1] = TileType::Floor;
    m.visible_tiles[2] = true;
    m.tile_content[4].push(Entity { id: 9 });
    let c = m.duplicate();
    assert_eq!(c, m);
}

#[test]
fn strike_drops_the_border_ring() {
    let m = TileMap::new(5, 5, TileType::Floor);
    let blast = vec![
        Point::new(0, 0),
        Point::new(1, 1),
        Point::new(4, 2),
        Point::new(3, 3),
        Point::new(2, 4),
        Point::new(7, 7),
        Point::new(1, 3),
    ];
    let tiles = strike(&m, &blast);
    assert_eq!(tiles, vec![Point::new(1, 1), Point::new(3, 3), Point::new(1, 3)]);
}

#[test]
fn gather_lists_occupants_tile_by_tile() {
    let mut m = TileMap::new(4, 4, TileType::Floor);
    m.tile_content[5].push(Entity { id: 3 });
    m.tile_content[5].push(Entity { id: 1 });
    m.tile_content[10].push(Entity { id: 2 });
    let found = gather(&m, &vec![Point::new(2, 2), Point::new(0, 0), Point::new(1, 1)]);
    assert_eq!(found, vec![Entity { id: 2 }, Entity { id: 3 }, Entity { id: 1 }]);
}

#[test]
fn the_level_tells_rltk_its_size_and_its_walls() {
    let mut m = TileMap::new(7, 4, TileType::Floor);
    m.tiles[9] = TileType::Wall;
    assert_eq!(m.dimensions(), Point::new(7, 4));
    assert!(m.is_opaque(9));
    assert!(!m.is_opaque(8));
    assert!(!m.is_opaque(27));
    assert!(m.is_opaque(28));
    assert_eq!(m.point2d_to_index(Point::new(2, 1)), 9);
    assert!(m.in_bounds(Point::new(6, 3)));
    let walled = TileMap::new(3, 2, TileType::Wall);
    assert_eq!(walled.dimensions(), Point::new(3, 2));
    assert!((0..6).all(|idx| walled.is_opaque(idx)));
}
