use glam::Vec2;
use std::f32::consts::{FRAC_PI_2, PI};
use yaw::map::{TileMap, TilePos, TILE_SIZE};
use yaw::ray::{
    face, nearest, search, strike_at, Cardinal, GridLines, Heading, Sign, Strike, DOF,
};

const TILE: f32 = TILE_SIZE as f32;

const HALL: &str = "!!!!MAIN\nWwall.png,collide\nGglass.png\nPpost.png,collide,half_width\nBbar.png,half_height\nXboth.png,half_width,half_height\n\nWWWWWWWW\nW*  G PW\nW B  X W\nWWWWWWWW\n";

fn hall() -> TileMap {
    TileMap::load(HALL).unwrap()
}

fn at(x: usize, y: usize) -> TilePos {
    TilePos { x, y }
}

fn row(y: usize, columns: std::ops::Range<usize>) -> Vec<TilePos> {
    columns.map(|x| at(x, y)).collect()
}

fn tile_of(v: Vec2) -> TilePos {
    TilePos { x: (v.x / TILE) as usize, y: (v.y / TILE) as usize }
}

fn heading_of(angle: f32) -> Heading {
    if angle == 0. {
        Heading::East
    } else if (angle > 0.) && (angle < FRAC_PI_2) {
        Heading::SouthEast
    } else if angle == FRAC_PI_2 {
        Heading::South
    } else if (angle > FRAC_PI_2) && (angle < PI) {
        Heading::SouthWest
    } else if angle == PI {
        Heading::West
    } else if (angle > PI) && (angle < 3. * FRAC_PI_2) {
        Heading::NorthWest
    } else if angle == 3. * FRAC_PI_2 {
        Heading::North
    } else if (angle > 3. * FRAC_PI_2) && (angle < 2. * PI) {
        Heading::NorthEast
    } else {
        panic!("the angle {} is not within one turn", angle)
    }
}

/// One walk of a ray from `pos` in the direction `angle_vec`.
fn walk(
    map: &TileMap,
    pos: Vec2,
    lines: GridLines,
    heading: Heading,
    angle_vec: Vec2,
) -> Option<(Vec2, Strike)> {
    let toward = heading.across(lines);
    let side = face(lines, toward)?;
    let (first, delta) = match toward {
        Sign::Positive => (TILE, TILE),
        Sign::Negative => (-0.0001, -TILE),
        Sign::Zero => return None,
    };
    let crossing = |from: f32| {
        if first > 0. {
            first - (from % TILE)
        } else {
            -(from % TILE) + first
        }
    };
    let (ray, step) = match lines {
        GridLines::Horizontal => {
            let new_y = crossing(pos.y);
            let slope = angle_vec.x / angle_vec.y;
            (Vec2::new(slope * new_y, new_y), Vec2::new(slope * delta, delta))
        }
        GridLines::Vertical => {
            let new_x = crossing(pos.x);
            let slope = angle_vec.y / angle_vec.x;
            (Vec2::new(new_x, slope * new_x), Vec2::new(delta, slope * delta))
        }
    };
    let mut path = Vec::new();
    let mut at = ray;
    for _ in 0..DOF {
        path.push(tile_of(pos + at));
        at += step;
    }
    let strike = search(map, lines, side, &path)?;
    let mut vec = ray;
    for _ in 0..strike.step {
        vec += step;
    }
    let nudge = if strike.nudged { step * 0.25 } else { Vec2::ZERO };
    Some((vec + nudge, strike))
}

/// What the ray from `pos` at `angle` sees: the vector to the strike, and the strike.
fn cast(map: &TileMap, pos: Vec2, angle: f32) -> Option<(Vec2, Strike)> {
    let angle_vec = Vec2::from_angle(angle);
    let heading = heading_of(angle);
    let x = walk(map, pos, GridLines::Horizontal, heading, angle_vec);
    let y = walk(map, pos, GridLines::Vertical, heading, angle_vec);
    let vertical_is_nearer = match (&x, &y) {
        (Some((x, _)), Some((y, _))) => y.length_squared() < x.length_squared(),
        _ => false,
    };
    nearest(x, y, vertical_is_nearer)
}

#[test]
fn a_walk_visits_at_most_24_tiles() {
    assert_eq!(DOF, 24);
}

#[test]
fn a_ray_along_the_lines_of_a_family_does_not_walk_them() {
    assert_eq!(face(GridLines::Horizontal, Sign::Zero), None);
    assert_eq!(face(GridLines::Vertical, Sign::Zero), None);
}

#[test]
fn a_ray_along_an_axis_crosses_no_line_parallel_to_it() {
    let all = [
        Heading::East,
        Heading::SouthEast,
        Heading::South,
        Heading::SouthWest,
        Heading::West,
        Heading::NorthWest,
        Heading::North,
        Heading::NorthEast,
    ];
    for heading in all {
        let level = heading == Heading::East || heading == Heading::West;
        let upright = heading == Heading::South || heading == Heading::North;
        assert_eq!(heading.across(GridLines::Horizontal) == Sign::Zero, level);
        assert_eq!(heading.across(GridLines::Vertical) == Sign::Zero, upright);
        assert_eq!(face(GridLines::Horizontal, heading.across(GridLines::Horizontal)).is_none(), level);
        assert_eq!(face(GridLines::Vertical, heading.across(GridLines::Vertical)).is_none(), upright);
    }
    assert_eq!(heading_of(0.), Heading::East);
    assert_eq!(heading_of(PI), Heading::West);
    assert_eq!(heading_of(FRAC_PI_2), Heading::South);
    assert_eq!(heading_of(3. * FRAC_PI_2), Heading::North);
}

#[test]
fn headings_run_down_to_the_south_and_right_to_the_east() {
    assert_eq!(Heading::SouthEast.across(GridLines::Horizontal), Sign::Positive);
    assert_eq!(Heading::South.across(GridLines::Horizontal), Sign::Positive);
    assert_eq!(Heading::SouthWest.across(GridLines::Horizontal), Sign::Positive);
    assert_eq!(Heading::NorthWest.across(GridLines::Horizontal), Sign::Negative);
    assert_eq!(Heading::North.across(GridLines::Horizontal), Sign::Negative);
    assert_eq!(Heading::NorthEast.across(GridLines::Horizontal), Sign::Negative);
    assert_eq!(Heading::NorthEast.across(GridLines::Vertical), Sign::Positive);
    assert_eq!(Heading::East.across(GridLines::Vertical), Sign::Positive);
    assert_eq!(Heading::SouthEast.across(GridLines::Vertical), Sign::Positive);
    assert_eq!(Heading::SouthWest.across(GridLines::Vertical), Sign::Negative);
    assert_eq!(Heading::West.across(GridLines::Vertical), Sign::Negative);
    assert_eq!(Heading::NorthWest.across(GridLines::Vertical), Sign::Negative);
}

#[test]
fn a_ray_strikes_the_side_that_faces_it() {
    assert_eq!(face(GridLines::Horizontal, Sign::Positive), Some(Cardinal::North));
    assert_eq!(face(GridLines::Horizontal, Sign::Negative), Some(Cardinal::South));
    assert_eq!(face(GridLines::Vertical, Sign::Positive), Some(Cardinal::West));
    assert_eq!(face(GridLines::Vertical, Sign::Negative), Some(Cardinal::East));
}

#[test]
fn texture_bands_are_in_the_order_north_east_south_west() {
    assert_eq!(Cardinal::North.band(), 0);
    assert_eq!(Cardinal::East.band(), 1);
    assert_eq!(Cardinal::South.band(), 2);
    assert_eq!(Cardinal::West.band(), 3);
}

#[test]
fn north_and_south_sample_by_x_and_north_and_east_are_mirrored() {
    assert!(Cardinal::North.samples_x());
    assert!(Cardinal::South.samples_x());
    assert!(!Cardinal::East.samples_x());
    assert!(!Cardinal::West.samples_x());
    assert!(Cardinal::North.mirrored());
    assert!(Cardinal::East.mirrored());
    assert!(!Cardinal::South.mirrored());
    assert!(!Cardinal::West.mirrored());
}

#[test]
fn thin_tiles_are_passed_along_their_length_and_nudged_across_it() {
    let map = hall();
    // a full tile, collidable or not
    assert_eq!(strike_at(&map, GridLines::Horizontal, at(0, 0)), Some(('W', false)));
    assert_eq!(strike_at(&map, GridLines::Vertical, at(0, 0)), Some(('W', false)));
    assert_eq!(strike_at(&map, GridLines::Horizontal, at(4, 1)), Some(('G', false)));
    assert_eq!(strike_at(&map, GridLines::Vertical, at(4, 1)), Some(('G', false)));
    // half width
    assert_eq!(strike_at(&map, GridLines::Horizontal, at(6, 1)), None);
    assert_eq!(strike_at(&map, GridLines::Vertical, at(6, 1)), Some(('P', true)));
    // half height
    assert_eq!(strike_at(&map, GridLines::Horizontal, at(2, 2)), Some(('B', true)));
    assert_eq!(strike_at(&map, GridLines::Vertical, at(2, 2)), None);
    // both
    assert_eq!(strike_at(&map, GridLines::Horizontal, at(5, 2)), None);
    assert_eq!(strike_at(&map, GridLines::Vertical, at(5, 2)), None);
    // nothing there
    assert_eq!(strike_at(&map, GridLines::Horizontal, at(1, 1)), None);
    assert_eq!(strike_at(&map, GridLines::Vertical, at(2, 1)), None);
    assert_eq!(strike_at(&map, GridLines::Vertical, at(90, 90)), None);
}

#[test]
fn a_walk_stops_at_the_first_tile_it_strikes() {
    let map = hall();
    assert_eq!(
        search(&map, GridLines::Vertical, Cardinal::West, &row(1, 2..8)),
        Some(Strike { step: 2, face_direction: Cardinal::West, tile: 'G', nudged: false })
    );
    assert_eq!(
        search(&map, GridLines::Vertical, Cardinal::West, &row(1, 5..8)),
        Some(Strike { step: 1, face_direction: Cardinal::West, tile: 'P', nudged: true })
    );
    assert_eq!(
        search(&map, GridLines::Horizontal, Cardinal::North, &row(1, 5..8)),
        Some(Strike { step: 2, face_direction: Cardinal::North, tile: 'W', nudged: false })
    );
    assert_eq!(
        search(&map, GridLines::Vertical, Cardinal::East, &row(2, 1..8)),
        Some(Strike { step: 6, face_direction: Cardinal::East, tile: 'W', nudged: false })
    );
    assert_eq!(
        search(&map, GridLines::Horizontal, Cardinal::South, &row(2, 1..8)),
        Some(Strike { step: 1, face_direction: Cardinal::South, tile: 'B', nudged: true })
    );
    assert_eq!(
        search(&map, GridLines::Horizontal, Cardinal::South, &[at(0, 0)]),
        Some(Strike { step: 0, face_direction: Cardinal::South, tile: 'W', nudged: false })
    );
}

#[test]
fn a_walk_over_free_tiles_stops_nowhere() {
    let map = hall();
    assert_eq!(search(&map, GridLines::Vertical, Cardinal::West, &row(1, 1..4)), None);
    assert_eq!(search(&map, GridLines::Vertical, Cardinal::West, &[]), None);
    assert_eq!(search(&map, GridLines::Horizontal, Cardinal::North, &row(9, 0..30)), None);
    assert_eq!(search(&map, GridLines::Vertical, Cardinal::West, &[at(2, 2), at(5, 2)]), None);
}

#[test]
fn a_walk_gives_up_after_24_tiles() {
    let wide = TileMap::load(&format!("!!!!MAIN\nWw.png\n\n*{}W\n", " ".repeat(30))).unwrap();
    assert_eq!(wide.width(), 32);
    let path = row(0, 0..32);
    assert_eq!(search(&wide, GridLines::Vertical, Cardinal::West, &path), None);
    assert_eq!(search(&wide, GridLines::Vertical, Cardinal::West, &path[7..]), None);
    assert_eq!(
        search(&wide, GridLines::Vertical, Cardinal::West, &path[8..]),
        Some(Strike { step: 23, face_direction: Cardinal::West, tile: 'W', nudged: false })
    );
    assert_eq!(
        search(&wide, GridLines::Vertical, Cardinal::West, &path[31..]),
        Some(Strike { step: 0, face_direction: Cardinal::West, tile: 'W', nudged: false })
    );
}

#[test]
fn the_nearer_strike_is_seen_and_the_horizontal_one_when_they_are_as_near() {
    let h = Strike { step: 1, face_direction: Cardinal::North, tile: 'H', nudged: false };
    let v = Strike { step: 2, face_direction: Cardinal::West, tile: 'V', nudged: true };
    assert_eq!(nearest(Some(h), Some(v), false), Some(h));
    assert_eq!(nearest(Some(h), Some(v), true), Some(v));
    assert_eq!(nearest(Some(h), None, false), Some(h));
    assert_eq!(nearest(Some(h), None, true), Some(h));
    assert_eq!(nearest(None, Some(v), false), Some(v));
    assert_eq!(nearest(None, Some(v), true), Some(v));
    assert_eq!(nearest::<Strike>(None, None, false), None);
    assert_eq!(nearest::<Strike>(None, None, true), None);
    assert_eq!(nearest(Some((1.5, h)), Some((1.5, v)), 1.5 < 1.5), Some((1.5, h)));
}

#[test]
fn in_a_map_without_custom_tiles_no_ray_sees_anything() {
    let open = TileMap::load("!!!!MAIN\nWwall.png,collide\n\n    \n *  \n    \n").unwrap();
    let pos = Vec2::new(48., 48.);
    for i in 0..720 {
        let angle = (i as f32) * (2. * PI / 720.);
        assert!(cast(&open, pos, angle).is_none(), "angle {}", angle);
    }
    for angle in [0., FRAC_PI_2, PI, 3. * FRAC_PI_2] {
        assert!(cast(&open, pos, angle).is_none());
    }
    for lines in [GridLines::Horizontal, GridLines::Vertical] {
        assert_eq!(search(&open, lines, Cardinal::North, &row(1, 0..4)), None);
        assert_eq!(search(&TileMap::new(), lines, Cardinal::North, &row(0, 0..4)), None);
    }
}

#[test]
fn a_ray_due_east_from_the_spawn_hits_the_wall_half_a_tile_away() {
    let map = TileMap::load("!!!!MAIN\nAwall.png,collide\n\n*A\n*A\n").unwrap();
    let spawn = map.get_spawn().unwrap();
    assert_eq!(spawn, at(0, 0));
    let centre = Vec2::new(spawn.x as f32 * TILE + TILE / 2., spawn.y as f32 * TILE + TILE / 2.);
    let (vec, strike) = cast(&map, centre, 0.).unwrap();
    assert_eq!(strike.tile, 'A');
    assert_eq!(strike.face_direction, Cardinal::West);
    assert_eq!(strike.step, 0);
    assert!(!strike.nudged);
    assert_eq!(vec, Vec2::new(TILE / 2., 0.));
    assert_eq!(vec.length(), TILE / 2.);
}

#[test]
fn a_ray_along_an_axis_at_a_lone_tile_stops_half_a_tile_before_its_centre() {
    // along x
    let map = TileMap::load("!!!!MAIN\nAwall.png,collide\n\n      \n*    A\n      \n").unwrap();
    let pos = Vec2::new(16., 48.);
    let centre = Vec2::new(5. * TILE + 16., 48.);
    let d = (centre - pos).length();
    assert_eq!(d, 160.);
    let (vec, strike) = cast(&map, pos, 0.).unwrap();
    assert_eq!(strike.tile, 'A');
    assert_eq!(strike.face_direction, Cardinal::West);
    assert_eq!(strike.step, 4);
    assert_eq!(vec.length(), d - TILE / 2.);

    // against x
    let pos = Vec2::new(5. * TILE + 16., 16.);
    let map = TileMap::load("!!!!MAIN\nAwall.png,collide\n\nA    *\n").unwrap();
    let (vec, strike) = cast(&map, pos, PI).unwrap();
    assert_eq!(strike.tile, 'A');
    assert_eq!(strike.face_direction, Cardinal::East);
    assert!((vec.length() - (160. - TILE / 2.)).abs() < 0.001);

    // along y
    let map = TileMap::load("!!!!MAIN\nAwall.png,collide\n\n * \n   \n   \n A \n").unwrap();
    let pos = Vec2::new(48., 16.);
    let (vec, strike) = cast(&map, pos, FRAC_PI_2).unwrap();
    assert_eq!(strike.tile, 'A');
    assert_eq!(strike.face_direction, Cardinal::North);
    assert_eq!(strike.step, 2);
    assert!((vec.length() - (96. - TILE / 2.)).abs() < 0.001);

    // against y
    let map = TileMap::load("!!!!MAIN\nAwall.png,collide\n\n A \n   \n   \n * \n").unwrap();
    let pos = Vec2::new(48., 3. * TILE + 16.);
    let (vec, strike) = cast(&map, pos, 3. * FRAC_PI_2).unwrap();
    assert_eq!(strike.tile, 'A');
    assert_eq!(strike.face_direction, Cardinal::South);
    assert!((vec.length() - (96. - TILE / 2.)).abs() < 0.001);
}

#[test]
fn a_thin_tile_is_seen_a_quarter_of_a_step_further() {
    let map = hall();
    // from (5, 1) looking east: the post at (6, 1) is of half width
    let pos = Vec2::new(5. * TILE + 16., TILE + 16.);
    let (vec, strike) = cast(&map, pos, 0.).unwrap();
    assert_eq!(strike.tile, 'P');
    assert!(strike.nudged);
    assert_eq!(strike.face_direction, Cardinal::West);
    assert_eq!(vec, Vec2::new(16. + TILE / 4., 0.));
}

#[test]
fn a_ray_that_leaves_the_grid_sees_nothing() {
    let map = TileMap::load("!!!!MAIN\nAwall.png,collide\n\nA*  \n").unwrap();
    assert!(cast(&map, Vec2::new(48., 16.), 0.).is_none());
    assert!(cast(&map, Vec2::new(48., 16.), FRAC_PI_2).is_none());
    let (_, strike) = cast(&map, Vec2::new(48., 16.), PI).unwrap();
    assert_eq!(strike.tile, 'A');
    assert_eq!(strike.face_direction, Cardinal::East);
}

#[test]
fn the_player_slides_along_a_wall_on_a_diagonal_step() {
    let map = TileMap::load("!!!!MAIN\nWwall.png,collide\n\nWWWW\nW  W\nW *W\nW  W\nWWWW\n").unwrap();
    let game = yaw::game::Game::new(map).unwrap();
    let mut pos = Vec2::new(94.5, 70.);
    let step = Vec2::new(1.6, -1.2);
    let taken = game.slide(tile_of(pos), tile_of(pos + step));
    if taken.x {
        pos.x += step.x;
    }
    if taken.y {
        pos.y += step.y;
    }
    assert_eq!(pos, Vec2::new(94.5, 70. - 1.2));
    let back = Vec2::new(-1.6, 1.2);
    let taken = game.slide(tile_of(pos), tile_of(pos + back));
    assert!(taken.x && taken.y);
}
