use yaw::map::{Rgb, Tile, TileMap, TilePos, TILE_SIZE};

const ROOM: &str = "!!!!META\nfog,dof=8,color=#102030\n\n!!!!MAIN\nWwall.png,collide\nGglass.png\nPpost.png,collide,half_width\n\nWWWWW\nW G W\nW*P W\nWWWWW\n";

fn room() -> TileMap {
    TileMap::load(ROOM).unwrap()
}

fn at(x: usize, y: usize) -> TilePos {
    TilePos { x, y }
}

#[test]
fn the_tile_size_is_32() {
    assert_eq!(TILE_SIZE, 32);
}

#[test]
fn the_index_of_a_tile_is_rows_times_width_plus_column() {
    let map = room();
    assert_eq!(map.width(), 5);
    assert_eq!(map.height(), 4);
    assert_eq!(map.vec_to_idx(at(0, 0)), 0);
    assert_eq!(map.vec_to_idx(at(4, 0)), 4);
    assert_eq!(map.vec_to_idx(at(0, 1)), 5);
    assert_eq!(map.vec_to_idx(at(2, 2)), 12);
    assert_eq!(map.vec_to_idx(at(4, 3)), 19);
    assert_eq!(map.vec_to_idx(at(0, 4)), 20);
    assert_eq!(map.vec_to_idx(at(7, 9)), 52);
}

#[test]
fn a_column_past_the_width_runs_on_into_the_next_row() {
    let map = room();
    assert_eq!(map.vec_to_idx(at(5, 0)), 5);
    assert_eq!(map.vec_to_idx(at(6, 1)), 11);
    assert_eq!(map.idx_to_vec(map.vec_to_idx(at(6, 1))), at(1, 2));
}

#[test]
fn an_index_too_large_for_the_machine_is_the_largest_number() {
    let map = room();
    assert_eq!(map.vec_to_idx(at(0, usize::MAX)), usize::MAX);
    assert_eq!(map.vec_to_idx(at(usize::MAX, 1)), usize::MAX);
    assert_eq!(map.vec_to_idx(at(usize::MAX, usize::MAX)), usize::MAX);
    assert_eq!(map.vec_to_idx(at(usize::MAX, 0)), usize::MAX);
    assert_eq!(map.vec_to_idx(at(usize::MAX - 5, 1)), usize::MAX);
    assert_eq!(map.vec_to_idx(at(usize::MAX - 6, 1)), usize::MAX - 1);
    assert_eq!(map.tile_at(usize::MAX), None);
    assert_eq!(map.colliding(at(usize::MAX, usize::MAX), false), None);
    let empty = TileMap::new();
    assert_eq!(empty.vec_to_idx(at(3, usize::MAX)), 3);
}

#[test]
fn the_position_of_an_index_is_remainder_and_quotient_by_the_width() {
    let map = room();
    assert_eq!(map.idx_to_vec(0), at(0, 0));
    assert_eq!(map.idx_to_vec(4), at(4, 0));
    assert_eq!(map.idx_to_vec(5), at(0, 1));
    assert_eq!(map.idx_to_vec(12), at(2, 2));
    assert_eq!(map.idx_to_vec(19), at(4, 3));
    assert_eq!(map.idx_to_vec(52), at(2, 10));
}

#[test]
fn a_tile_within_the_width_comes_back_from_its_index() {
    let map = room();
    for y in 0..9 {
        for x in 0..5 {
            let idx = map.vec_to_idx(at(x, y));
            assert_eq!(map.idx_to_vec(idx), at(x, y));
            assert_eq!(map.vec_to_idx(map.idx_to_vec(idx)), idx);
        }
    }
    for idx in 0..60 {
        assert_eq!(map.vec_to_idx(map.idx_to_vec(idx)), idx);
    }
}

#[test]
fn a_world_point_is_rounded_down_to_the_corner_of_its_tile() {
    let map = room();
    for (x, y) in [(0usize, 0usize), (31, 31), (32, 0), (95, 64), (100, 77), (159, 127)] {
        let tile = at(x / TILE_SIZE, y / TILE_SIZE);
        let back = map.idx_to_vec(map.vec_to_idx(tile));
        assert_eq!(back, tile);
        assert_eq!(back.x * TILE_SIZE, x - x % TILE_SIZE);
        assert_eq!(back.y * TILE_SIZE, y - y % TILE_SIZE);
        let again = at(back.x * TILE_SIZE / TILE_SIZE, back.y * TILE_SIZE / TILE_SIZE);
        assert_eq!(map.idx_to_vec(map.vec_to_idx(again)), back);
    }
    // 170 / 32 is column 5, past the width of 5: the point comes back in the next row
    let tile = at(170 / TILE_SIZE, 40 / TILE_SIZE);
    assert_eq!(map.idx_to_vec(map.vec_to_idx(tile)), at(0, 2));
}

#[test]
fn tile_at_gives_the_cell_or_nothing() {
    let map = room();
    assert_eq!(map.tile_at(0), Some(Tile::Custom('W')));
    assert_eq!(map.tile_at(6), Some(Tile::Empty));
    assert_eq!(map.tile_at(7), Some(Tile::Custom('G')));
    assert_eq!(map.tile_at(11), Some(Tile::Spawn));
    assert_eq!(map.tile_at(12), Some(Tile::Custom('P')));
    assert_eq!(map.tile_at(19), Some(Tile::Custom('W')));
    assert_eq!(map.tile_at(20), None);
    assert_eq!(TileMap::new().tile_at(0), None);
}

#[test]
fn the_spawn_is_the_first_spawn_cell() {
    assert_eq!(room().get_spawn(), Some(at(1, 2)));
    let two = TileMap::load("!!!!MAIN\n\n   \n * \n  *\n").unwrap();
    assert_eq!(two.get_spawn(), Some(at(1, 1)));
    let first = TileMap::load("!!!!MAIN\n\n*\n").unwrap();
    assert_eq!(first.get_spawn(), Some(at(0, 0)));
    let none = TileMap::load("!!!!MAIN\nAa.png\n\nA A\n").unwrap();
    assert_eq!(none.get_spawn(), None);
    assert_eq!(TileMap::new().get_spawn(), None);
}

#[test]
fn the_player_stops_at_collidable_tiles_only() {
    let map = room();
    assert_eq!(map.colliding(at(0, 0), true), Some('W'));
    assert_eq!(map.colliding(at(2, 1), true), None);
    assert_eq!(map.colliding(at(2, 2), true), Some('P'));
    assert_eq!(map.colliding(at(1, 1), true), None);
    assert_eq!(map.colliding(at(1, 2), true), None);
}

#[test]
fn a_ray_stops_at_every_custom_tile() {
    let map = room();
    assert_eq!(map.colliding(at(0, 0), false), Some('W'));
    assert_eq!(map.colliding(at(2, 1), false), Some('G'));
    assert_eq!(map.colliding(at(2, 2), false), Some('P'));
    assert_eq!(map.colliding(at(1, 1), false), None);
    assert_eq!(map.colliding(at(1, 2), false), None);
}

#[test]
fn nothing_is_hit_outside_the_grid() {
    let map = room();
    for is_player in [false, true] {
        assert_eq!(map.colliding(at(0, 4), is_player), None);
        assert_eq!(map.colliding(at(4, 4), is_player), None);
        assert_eq!(map.colliding(at(1000, 1000), is_player), None);
        assert_eq!(TileMap::new().colliding(at(0, 0), is_player), None);
    }
    // column 5 of row 0 is column 0 of row 1
    assert_eq!(map.colliding(at(5, 0), false), Some('W'));
}

#[test]
fn walls_are_the_collidable_custom_tiles() {
    let map = room();
    let walls: Vec<usize> = (0..25).filter(|idx| map.is_wall(*idx)).collect();
    assert_eq!(walls, vec![0, 1, 2, 3, 4, 5, 9, 10, 12, 14, 15, 16, 17, 18, 19]);
}

#[test]
fn definitions_are_found_by_symbol() {
    let map = room();
    let post = map.definition('P').unwrap();
    assert!(post.collidable && post.half_width && !post.half_height);
    assert_eq!(post.tex_path, "post.png");
    let glass = map.definition('G').unwrap();
    assert!(!glass.collidable && !glass.half_width && !glass.half_height);
    assert_eq!(map.tex_path('W'), "wall.png");
    assert_eq!(map.tex_path('G'), "glass.png");
    assert!(map.definition('w').is_none());
    assert!(map.definition(' ').is_none());
}

#[test]
fn the_fog_is_the_first_declared() {
    assert_eq!(room().fog(), Some((8, Rgb { r: 0x10, g: 0x20, b: 0x30 })));
    assert_eq!(TileMap::new().fog(), None);
    let two = TileMap::load("!!!!META\nfog,dof=2\nfog,dof=1\n").unwrap();
    assert_eq!(two.fog(), Some((2, Rgb { r: 0, g: 0, b: 0 })));
}
