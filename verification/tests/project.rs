use yaw::map::{Rgb, TilePos};
use yaw::project::{
    column_offset, minimap_origin, minimap_tile, sample_rect, strip_rect, tint, Rect, Rgba, FOV,
    HEIGHT, SIDE_SHADE, WIDTH,
};
use yaw::ray::Cardinal;

#[test]
fn the_screen_is_640_by_480_and_the_view_60_degrees_wide() {
    assert_eq!(WIDTH, 640);
    assert_eq!(HEIGHT, 480);
    assert_eq!(FOV, 60);
    assert_eq!(SIDE_SHADE, 0x22);
}

#[test]
fn columns_are_counted_from_the_middle_of_the_screen() {
    assert_eq!(column_offset(0), -320);
    assert_eq!(column_offset(1), -319);
    assert_eq!(column_offset(319), -1);
    assert_eq!(column_offset(320), 0);
    assert_eq!(column_offset(639), 319);
}

#[test]
fn each_side_has_its_band_of_the_texture() {
    assert_eq!(
        sample_rect(256, 64, Cardinal::North, 0),
        Rect { x: 0, y: 0, w: 2, h: 64 }
    );
    assert_eq!(
        sample_rect(256, 64, Cardinal::East, 0),
        Rect { x: 64, y: 0, w: 2, h: 64 }
    );
    assert_eq!(
        sample_rect(256, 64, Cardinal::South, 0),
        Rect { x: 128, y: 0, w: 2, h: 64 }
    );
    assert_eq!(
        sample_rect(256, 64, Cardinal::West, 0),
        Rect { x: 192, y: 0, w: 2, h: 64 }
    );
}

#[test]
fn the_sample_starts_at_the_offset_into_the_band() {
    assert_eq!(
        sample_rect(256, 64, Cardinal::East, 10),
        Rect { x: 74, y: 0, w: 2, h: 64 }
    );
    assert_eq!(
        sample_rect(256, 64, Cardinal::West, 64),
        Rect { x: 256, y: 0, w: 2, h: 64 }
    );
    assert_eq!(
        sample_rect(130, 7, Cardinal::South, 31),
        Rect { x: 95, y: 0, w: 1, h: 7 }
    );
    assert_eq!(
        sample_rect(100, 5, Cardinal::West, -3),
        Rect { x: 72, y: 0, w: 0, h: 5 }
    );
    assert_eq!(
        sample_rect(0, 0, Cardinal::West, 0),
        Rect { x: 0, y: 0, w: 0, h: 0 }
    );
    assert_eq!(
        sample_rect(i32::MAX as u32, 1, Cardinal::West, 536870911),
        Rect { x: 2147483644, y: 0, w: 16777215, h: 1 }
    );
}

#[test]
fn a_strip_is_centred_on_the_screen() {
    assert_eq!(strip_rect(5, 100), Rect { x: 5, y: 190, w: 1, h: 100 });
    assert_eq!(strip_rect(0, 0), Rect { x: 0, y: 240, w: 1, h: 0 });
    assert_eq!(strip_rect(639, 480), Rect { x: 639, y: 0, w: 1, h: 480 });
    assert_eq!(strip_rect(1, 479), Rect { x: 1, y: 0, w: 1, h: 479 });
    assert_eq!(strip_rect(1, 478), Rect { x: 1, y: 1, w: 1, h: 478 });
}

#[test]
fn a_strip_higher_than_the_screen_starts_above_it() {
    assert_eq!(strip_rect(0, 481), Rect { x: 0, y: 0, w: 1, h: 481 });
    assert_eq!(strip_rect(0, 482), Rect { x: 0, y: -1, w: 1, h: 482 });
    assert_eq!(strip_rect(0, 483), Rect { x: 0, y: -1, w: 1, h: 483 });
    assert_eq!(strip_rect(0, 960), Rect { x: 0, y: -240, w: 1, h: 960 });
    assert_eq!(
        strip_rect(0, i32::MAX),
        Rect { x: 0, y: -1073741583, w: 1, h: 2147483647 }
    );
}

#[test]
fn a_strip_of_negative_height_has_no_height() {
    assert_eq!(strip_rect(0, -1), Rect { x: 0, y: 240, w: 1, h: 0 });
    assert_eq!(strip_rect(0, -10), Rect { x: 0, y: 245, w: 1, h: 0 });
    assert_eq!(
        strip_rect(0, i32::MIN + 481),
        Rect { x: 0, y: 1073741823, w: 1, h: 0 }
    );
}

#[test]
fn strips_start_where_rounding_toward_zero_puts_them() {
    for height in [-1000, -3, -2, -1, 0, 1, 2, 479, 480, 481, 482, 1001, 50000] {
        assert_eq!(strip_rect(9, height).y, (480 - height) / 2, "height {}", height);
    }
}

#[test]
fn without_fog_only_the_side_shade_tints() {
    assert_eq!(tint(None, 0, Cardinal::North), Rgba { r: 0, g: 0, b: 0, a: 0 });
    assert_eq!(tint(None, 0, Cardinal::South), Rgba { r: 0, g: 0, b: 0, a: 0 });
    assert_eq!(tint(None, 0, Cardinal::East), Rgba { r: 0, g: 0, b: 0, a: 0x22 });
    assert_eq!(tint(None, 0, Cardinal::West), Rgba { r: 0, g: 0, b: 0, a: 0x22 });
    assert_eq!(tint(None, 200, Cardinal::North), Rgba { r: 0, g: 0, b: 0, a: 0 });
    assert_eq!(tint(None, 255, Cardinal::West), Rgba { r: 0, g: 0, b: 0, a: 0x22 });
}

#[test]
fn fog_tints_with_its_colour() {
    let fog = Some((4, Rgb { r: 1, g: 2, b: 3 }));
    assert_eq!(tint(fog, 100, Cardinal::North), Rgba { r: 1, g: 2, b: 3, a: 100 });
    assert_eq!(tint(fog, 100, Cardinal::South), Rgba { r: 1, g: 2, b: 3, a: 100 });
    assert_eq!(tint(fog, 100, Cardinal::East), Rgba { r: 1, g: 2, b: 3, a: 134 });
    assert_eq!(tint(fog, 100, Cardinal::West), Rgba { r: 1, g: 2, b: 3, a: 134 });
    assert_eq!(tint(fog, 0, Cardinal::West), Rgba { r: 1, g: 2, b: 3, a: 34 });
}

#[test]
fn the_side_shade_stops_at_full_alpha() {
    let fog = Some((4, Rgb { r: 9, g: 8, b: 7 }));
    assert_eq!(tint(fog, 221, Cardinal::East), Rgba { r: 9, g: 8, b: 7, a: 255 });
    assert_eq!(tint(fog, 222, Cardinal::East), Rgba { r: 9, g: 8, b: 7, a: 255 });
    assert_eq!(tint(fog, 255, Cardinal::West), Rgba { r: 9, g: 8, b: 7, a: 255 });
    assert_eq!(tint(fog, 255, Cardinal::North), Rgba { r: 9, g: 8, b: 7, a: 255 });
    assert_eq!(tint(fog, 220, Cardinal::East), Rgba { r: 9, g: 8, b: 7, a: 254 });
}

#[test]
fn the_map_is_drawn_around_the_middle_of_the_screen() {
    assert_eq!(minimap_origin(0, 0), (320, 240));
    assert_eq!(minimap_origin(1, 1), (304, 224));
    assert_eq!(minimap_origin(20, 15), (0, 0));
    assert_eq!(minimap_origin(8, 4), (192, 176));
    assert_eq!(minimap_origin(30, 20), (-160, -80));
    assert_eq!(minimap_origin(67108863, 1), (320 - 1073741808, 224));
}

#[test]
fn each_tile_of_the_map_is_a_square_of_its_size() {
    let origin = minimap_origin(8, 4);
    assert_eq!(
        minimap_tile(origin, TilePos { x: 0, y: 0 }),
        Rect { x: 192, y: 176, w: 32, h: 32 }
    );
    assert_eq!(
        minimap_tile(origin, TilePos { x: 7, y: 3 }),
        Rect { x: 416, y: 272, w: 32, h: 32 }
    );
    assert_eq!(
        minimap_tile((-160, -80), TilePos { x: 2, y: 1 }),
        Rect { x: -96, y: -48, w: 32, h: 32 }
    );
}
