//! From a strike to what is drawn: the part of the texture to sample, the
//! place of the strip on the screen, and its tint.

use crate::map::{Rgb, TilePos, TILE_SIZE};
use crate::ray::Cardinal;
use vstd::prelude::*;

verus! {

/// The width of the screen in pixels, and the number of rays cast.
pub const WIDTH: usize = 640;

/// The height of the screen in pixels.
pub const HEIGHT: usize = 480;

/// The width of the field of view in degrees.
pub const FOV: usize = 60;

/// The alpha added to the tint of a wall that faces east or west.
pub const SIDE_SHADE: u8 = 0x22;

/// A rectangle of pixels.
#[derive(Clone, Copy, Debug, PartialEq, Eq, Structural)]
pub struct Rect {
    pub x: i32,
    pub y: i32,
    pub w: u32,
    pub h: u32,
}

/// A colour with an alpha value.
#[derive(Clone, Copy, Debug, PartialEq, Eq, Structural)]
pub struct Rgba {
    pub r: u8,
    pub g: u8,
    pub b: u8,
    pub a: u8,
}

/// How many columns the screen column `column` lies right of the middle of
/// the screen; the ray of that column is turned by so many steps of
/// `FOV / WIDTH` degrees from the direction of view.
pub fn column_offset(column: usize) -> (offset: isize)
    requires
        column < WIDTH,
    ensures
        offset == column - WIDTH / 2,
{
    column as isize - (WIDTH / 2) as isize
}

/// The y coordinate at which a strip of height `line_height` starts, so
/// that it is centred on the screen. The division rounds toward zero.
pub open spec fn strip_top(line_height: int) -> int {
    if line_height <= HEIGHT {
        (HEIGHT - line_height) / 2
    } else {
        -((line_height - HEIGHT) / 2)
    }
}

/// The part of a texture to sample for a strike on the side `face`.
///
/// The texture of `tex_width` by `tex_height` pixels is four bands side by
/// side, one for each side of a tile. The rectangle starts `offset` pixels
/// into the band of `face`, spans the band's width divided by the tile size,
/// and the texture's whole height.
pub fn sample_rect(tex_width: u32, tex_height: u32, face: Cardinal, offset: i32) -> (rect: Rect)
    requires
        tex_width <= i32::MAX,
        i32::MIN <= (tex_width / 4) * face.band_index() + offset <= i32::MAX,
    ensures
        rect.x == (tex_width / 4) * face.band_index() + offset,
        rect.y == 0,
        rect.w == (tex_width / 4) / (TILE_SIZE as u32),
        rect.h == tex_height,
{
    let band_width: i32 = (tex_width / 4) as i32;
    let band: i32 = face.band() as i32;
    assert(band_width * band == (tex_width / 4) * face.band_index()) by (nonlinear_arith)
        requires
            band_width == tex_width / 4,
            band == face.band_index(),
    ;
    assert(0 <= band_width * band <= i32::MAX) by (nonlinear_arith)
        requires
            0 <= band_width <= i32::MAX / 4,
            0 <= band <= 3,
    ;
    Rect {
        x: band_width * band + offset,
        y: 0,
        w: (tex_width / 4) / (TILE_SIZE as u32),
        h: tex_height,
    }
}

/// The place of the strip of the screen column `column` for a wall that is
/// `line_height` pixels high: one pixel wide and centred on the screen. A
/// negative height gives a strip of no height.
pub fn strip_rect(column: usize, line_height: i32) -> (rect: Rect)
    requires
        column < WIDTH,
        line_height > i32::MIN + HEIGHT,
    ensures
        rect.x == column,
        rect.y == strip_top(line_height as int),
        rect.w == 1,
        rect.h == if line_height < 0 {
            0
        } else {
            line_height as int
        },
{
    let screen: i32 = HEIGHT as i32;
    let y: i32 = if line_height <= screen {
        (screen - line_height) / 2
    } else {
        -((line_height - screen) / 2)
    };
    let h: u32 = if line_height < 0 {
        0
    } else {
        line_height as u32
    };
    Rect { x: column as i32, y, w: 1, h }
}

/// Where on the screen the top left corner of the map lies when a map of
/// `columns` by `rows` tiles is drawn over the world, one world unit to the
/// pixel: such that the middle of the map is the middle of the screen.
pub fn minimap_origin(columns: usize, rows: usize) -> (origin: (i32, i32))
    requires
        columns * TILE_SIZE <= i32::MAX,
        rows * TILE_SIZE <= i32::MAX,
    ensures
        origin.0 == WIDTH / 2 - columns * TILE_SIZE / 2,
        origin.1 == HEIGHT / 2 - rows * TILE_SIZE / 2,
{
    let across: i32 = (columns * TILE_SIZE) as i32;
    let down: i32 = (rows * TILE_SIZE) as i32;
    ((WIDTH / 2) as i32 - across / 2, (HEIGHT / 2) as i32 - down / 2)
}

/// The square of the screen that shows the tile at `pos` when the map is
/// drawn with its top left corner at `origin`.
pub fn minimap_tile(origin: (i32, i32), pos: TilePos) -> (rect: Rect)
    requires
        i32::MIN <= origin.0 + pos.x * TILE_SIZE <= i32::MAX,
        i32::MIN <= origin.1 + pos.y * TILE_SIZE <= i32::MAX,
    ensures
        rect.x == origin.0 + pos.x * TILE_SIZE,
        rect.y == origin.1 + pos.y * TILE_SIZE,
        rect.w == TILE_SIZE,
        rect.h == TILE_SIZE,
{
    let x: i64 = origin.0 as i64 + (pos.x as i64) * (TILE_SIZE as i64);
    let y: i64 = origin.1 as i64 + (pos.y as i64) * (TILE_SIZE as i64);
    Rect { x: x as i32, y: y as i32, w: TILE_SIZE as u32, h: TILE_SIZE as u32 }
}

/// The tint laid over a strip: the fog's colour with the alpha `fog_alpha`
/// that the caller worked out from the distance, or nothing where the scene
/// has no fog; and on a wall that faces east or west `SIDE_SHADE` more
/// alpha, up to the most there is.
pub fn tint(fog: Option<(u8, Rgb)>, fog_alpha: u8, face: Cardinal) -> (color: Rgba)
    ensures
        color.r == (match fog {
            Some((_, c)) => c.r,
            None => 0,
        }),
        color.g == (match fog {
            Some((_, c)) => c.g,
            None => 0,
        }),
        color.b == (match fog {
            Some((_, c)) => c.b,
            None => 0,
        }),
        color.a as int == {
            let base: int = if fog is Some {
                fog_alpha as int
            } else {
                0
            };
            let shade: int = if face == Cardinal::East || face == Cardinal::West {
                SIDE_SHADE as int
            } else {
                0
            };
            if base + shade > u8::MAX {
                u8::MAX as int
            } else {
                base + shade
            }
        },
{
    let base = match fog {
        Some((_, color)) => Rgba { r: color.r, g: color.g, b: color.b, a: fog_alpha },
        None => Rgba { r: 0, g: 0, b: 0, a: 0 },
    };
    let shade: u8 = match face {
        Cardinal::North | Cardinal::South => 0,
        Cardinal::East | Cardinal::West => SIDE_SHADE,
    };
    Rgba { r: base.r, g: base.g, b: base.b, a: base.a.saturating_add(shade) }
}

} // verus!
