//! The ray search over the grid.
//!
//! A ray is followed twice: once from one horizontal grid line to the next,
//! once from one vertical grid line to the next. Each walk visits a path of
//! tiles, at most `DOF` of them, and stops at the first tile that it strikes.
//! Of the two strikes the nearer one is what the ray sees.
//!
//! The caller computes each path, since that takes trigonometry, and says
//! which of two strikes is nearer. What is decided here is which walks take
//! place, where each one stops, and which strike wins.

use crate::map::{TileMap, TileMapView, TilePos};
use vstd::prelude::*;

verus! {

/// The most tiles that a walk visits.
pub const DOF: usize = 24;

/// A side of a tile, named by the direction it faces.
#[derive(Clone, Copy, Debug, PartialEq, Eq, Structural)]
pub enum Cardinal {
    North,
    East,
    South,
    West,
}

/// The family of grid lines that a walk goes along.
#[derive(Clone, Copy, Debug, PartialEq, Eq, Structural)]
pub enum GridLines {
    /// The lines of constant y, one tile apart.
    Horizontal,
    /// The lines of constant x, one tile apart.
    Vertical,
}

/// How a ray runs along one axis.
#[derive(Clone, Copy, Debug, PartialEq, Eq, Structural)]
pub enum Sign {
    /// Toward smaller coordinates: left on the x axis, up on the y axis.
    Negative,
    /// Not at all: the ray is parallel to the other axis.
    Zero,
    /// Toward larger coordinates: right on the x axis, down on the y axis.
    Positive,
}

/// Where a ray points, as far as the search tells directions apart: along
/// one of the four half axes, or into one of the four quadrants between
/// them. The x axis points east and the y axis south; an angle of zero is
/// east, and angles grow from east over south to west and north.
#[derive(Clone, Copy, Debug, PartialEq, Eq, Structural)]
pub enum Heading {
    /// The angle is zero.
    East,
    /// The angle is between zero and a quarter turn.
    SouthEast,
    /// The angle is a quarter turn.
    South,
    /// The angle is between a quarter turn and half a turn.
    SouthWest,
    /// The angle is half a turn.
    West,
    /// The angle is between half a turn and three quarters of a turn.
    NorthWest,
    /// The angle is three quarters of a turn.
    North,
    /// The angle is between three quarters of a turn and a full turn.
    NorthEast,
}

/// Where a walk stopped.
#[derive(Clone, Copy, Debug, PartialEq, Eq, Structural)]
pub struct Strike {
    /// The number of tiles passed before the one that was struck.
    pub step: usize,
    /// The side of the tile that was struck.
    pub face_direction: Cardinal,
    /// The symbol of the tile that was struck.
    pub tile: char,
    /// The tile is thin across the walk's grid lines, so the strike is to be
    /// drawn a quarter of a step further along the ray.
    pub nudged: bool,
}

impl Heading {
    /// How a ray with this heading runs across the grid lines of the family
    /// `lines`: along the y axis for the horizontal lines, along the x axis
    /// for the vertical ones.
    pub open spec fn sign_across(self, lines: GridLines) -> Sign {
        match lines {
            GridLines::Horizontal => match self {
                Heading::East | Heading::West => Sign::Zero,
                Heading::SouthEast | Heading::South | Heading::SouthWest => Sign::Positive,
                Heading::NorthWest | Heading::North | Heading::NorthEast => Sign::Negative,
            },
            GridLines::Vertical => match self {
                Heading::South | Heading::North => Sign::Zero,
                Heading::NorthEast | Heading::East | Heading::SouthEast => Sign::Positive,
                Heading::SouthWest | Heading::West | Heading::NorthWest => Sign::Negative,
            },
        }
    }

    /// How a ray with this heading runs across the grid lines of the family
    /// `lines`. It runs along them, and so crosses none, exactly when it
    /// points east or west for the horizontal lines, and south or north for
    /// the vertical ones.
    pub fn across(self, lines: GridLines) -> (toward: Sign)
        ensures
            toward == self.sign_across(lines),
            toward == Sign::Zero <==> (match lines {
                GridLines::Horizontal => self == Heading::East || self == Heading::West,
                GridLines::Vertical => self == Heading::South || self == Heading::North,
            }),
    {
        match lines {
            GridLines::Horizontal => match self {
                Heading::East | Heading::West => Sign::Zero,
                Heading::SouthEast | Heading::South | Heading::SouthWest => Sign::Positive,
                Heading::NorthWest | Heading::North | Heading::NorthEast => Sign::Negative,
            },
            GridLines::Vertical => match self {
                Heading::South | Heading::North => Sign::Zero,
                Heading::NorthEast | Heading::East | Heading::SouthEast => Sign::Positive,
                Heading::SouthWest | Heading::West | Heading::NorthWest => Sign::Negative,
            },
        }
    }
}

impl Cardinal {
    /// The side that a ray strikes when it crosses a grid line of the
    /// family `lines` while running `toward` across those lines. A ray that
    /// runs along the lines crosses none of them.
    pub open spec fn struck_by(lines: GridLines, toward: Sign) -> Option<Cardinal> {
        match (lines, toward) {
            (_, Sign::Zero) => None,
            (GridLines::Horizontal, Sign::Positive) => Some(Cardinal::North),
            (GridLines::Horizontal, Sign::Negative) => Some(Cardinal::South),
            (GridLines::Vertical, Sign::Negative) => Some(Cardinal::East),
            (GridLines::Vertical, Sign::Positive) => Some(Cardinal::West),
        }
    }

    /// The place of this side's band in a texture: the four bands lie side
    /// by side, north first, then east, south and west.
    pub open spec fn band_index(self) -> int {
        match self {
            Cardinal::North => 0,
            Cardinal::East => 1,
            Cardinal::South => 2,
            Cardinal::West => 3,
        }
    }

    /// The place of this side's band in a texture.
    pub fn band(self) -> (index: u32)
        ensures
            index == self.band_index(),
    {
        match self {
            Cardinal::North => 0,
            Cardinal::East => 1,
            Cardinal::South => 2,
            Cardinal::West => 3,
        }
    }

    /// Whether a strike on this side is placed on the texture by its x
    /// coordinate: so for north and south; for east and west it is by y.
    pub fn samples_x(self) -> (by_x: bool)
        ensures
            by_x == (self == Cardinal::North || self == Cardinal::South),
    {
        match self {
            Cardinal::North | Cardinal::South => true,
            Cardinal::East | Cardinal::West => false,
        }
    }

    /// Whether the texture runs against the coordinate on this side: so for
    /// north and east, where the place on the texture is the tile size less
    /// the coordinate's remainder; for south and west it is the remainder.
    pub fn mirrored(self) -> (against: bool)
        ensures
            against == (self == Cardinal::North || self == Cardinal::East),
    {
        match self {
            Cardinal::North | Cardinal::East => true,
            Cardinal::South | Cardinal::West => false,
        }
    }
}

/// The side that a walk along `lines` strikes for a ray that runs `toward`
/// across them, or `None` where the ray is parallel to the lines: then the
/// walk does not take place.
pub fn face(lines: GridLines, toward: Sign) -> (side: Option<Cardinal>)
    ensures
        side == Cardinal::struck_by(lines, toward),
        side is None <==> toward == Sign::Zero,
{
    match toward {
        Sign::Zero => None,
        Sign::Positive => match lines {
            GridLines::Horizontal => Some(Cardinal::North),
            GridLines::Vertical => Some(Cardinal::West),
        },
        Sign::Negative => match lines {
            GridLines::Horizontal => Some(Cardinal::South),
            GridLines::Vertical => Some(Cardinal::East),
        },
    }
}

/// What a walk along `lines` strikes at `pos`: the symbol of the custom
/// tile there, and whether the strike is nudged.
///
/// A tile of half width lies along the y axis, so a walk along horizontal
/// lines passes it; one of half height lies along the x axis, so a walk
/// along vertical lines passes it. A tile that is thin the other way is
/// struck and nudged.
pub open spec fn struck(map: TileMapView, lines: GridLines, pos: TilePos) -> Option<(char, bool)> {
    match map.colliding(pos, false) {
        Some(id) => {
            let def = map.legend[id];
            match lines {
                GridLines::Horizontal => if def.half_width {
                    None
                } else {
                    Some((id, def.half_height))
                },
                GridLines::Vertical => if def.half_height {
                    None
                } else {
                    Some((id, def.half_width))
                },
            }
        },
        None => None,
    }
}

/// `strike` is where a walk along `lines` over `path` stops: at the first
/// of the first `DOF` tiles of the path that it strikes.
pub open spec fn stops_at(
    map: TileMapView,
    lines: GridLines,
    side: Cardinal,
    path: Seq<TilePos>,
    strike: Strike,
) -> bool {
    &&& strike.step < path.len()
    &&& strike.step < DOF
    &&& strike.face_direction == side
    &&& struck(map, lines, path[strike.step as int]) == Some((strike.tile, strike.nudged))
    &&& forall|j: int| 0 <= j < strike.step ==> struck(map, lines, #[trigger] path[j]) is None
}

/// Where a walk along `lines` over `path` stops, if it stops.
pub open spec fn first_strike(
    map: TileMapView,
    lines: GridLines,
    side: Cardinal,
    path: Seq<TilePos>,
) -> Option<Strike> {
    if exists|strike: Strike| stops_at(map, lines, side, path, strike) {
        Some(choose|strike: Strike| stops_at(map, lines, side, path, strike))
    } else {
        None
    }
}

/// A walk stops at one place at most.
pub proof fn lemma_stops_once(
    map: TileMapView,
    lines: GridLines,
    side: Cardinal,
    path: Seq<TilePos>,
    a: Strike,
    b: Strike,
)
    requires
        stops_at(map, lines, side, path, a),
        stops_at(map, lines, side, path, b),
    ensures
        a == b,
{
    if a.step < b.step {
        assert(struck(map, lines, path[a.step as int]) is None);
    } else if b.step < a.step {
        assert(struck(map, lines, path[b.step as int]) is None);
    }
}

/// What the ray sees, of what was found along the horizontal lines and
/// what was found along the vertical lines: the only one, if there is only
/// one; else the vertical one if it is strictly nearer, and the horizontal
/// one otherwise.
pub open spec fn nearer<T>(
    horizontal: Option<T>,
    vertical: Option<T>,
    vertical_is_nearer: bool,
) -> Option<T> {
    match (horizontal, vertical) {
        (Some(h), Some(v)) => if vertical_is_nearer {
            Some(v)
        } else {
            Some(h)
        },
        (Some(h), None) => Some(h),
        (None, Some(v)) => Some(v),
        (None, None) => None,
    }
}

/// What a walk along `lines` strikes at `pos`, if anything.
pub fn strike_at(map: &TileMap, lines: GridLines, pos: TilePos) -> (hit: Option<(char, bool)>)
    ensures
        hit == struck(map@, lines, pos),
{
    match map.colliding(pos, false) {
        Some(id) => match map.definition(id) {
            Some(def) => match lines {
                GridLines::Horizontal => if def.half_width {
                    None
                } else {
                    Some((id, def.half_height))
                },
                GridLines::Vertical => if def.half_height {
                    None
                } else {
                    Some((id, def.half_width))
                },
            },
            None => None,
        },
        None => None,
    }
}

/// Walks along `lines` over the tiles of `path`, in order, and stops at the
/// first one that is struck. No more than `DOF` tiles are visited. `side` is
/// the side of a tile that this walk strikes.
pub fn search(map: &TileMap, lines: GridLines, side: Cardinal, path: &[TilePos]) -> (found: Option<
    Strike,
>)
    ensures
        found == first_strike(map@, lines, side, path@),
        match found {
            Some(strike) => stops_at(map@, lines, side, path@, strike),
            None => forall|j: int|
                0 <= j < path@.len() && j < DOF ==> struck(map@, lines, #[trigger] path@[j])
                    is None,
        },
{
    let mut step: usize = 0;
    while step < path.len() && step < DOF
        invariant
            step <= path@.len(),
            step <= DOF,
            forall|j: int| 0 <= j < step ==> struck(map@, lines, #[trigger] path@[j]) is None,
        decreases path@.len() - step,
    {
        match strike_at(map, lines, path[step]) {
            Some((tile, nudged)) => {
                let strike = Strike { step, face_direction: side, tile, nudged };
                proof {
                    assert(stops_at(map@, lines, side, path@, strike));
                    let chosen = choose|s: Strike| stops_at(map@, lines, side, path@, s);
                    lemma_stops_once(map@, lines, side, path@, strike, chosen);
                }
                return Some(strike);
            },
            None => {},
        }
        step += 1;
    }
    proof {
        assert forall|s: Strike| !stops_at(map@, lines, side, path@, s) by {
            if stops_at(map@, lines, side, path@, s) {
                assert(struck(map@, lines, path@[s.step as int]) is None);
            }
        }
    }
    None
}

/// Picks what the ray sees. `horizontal` and `vertical` are the strikes of
/// the two walks, each with whatever the caller keeps beside it.
/// `vertical_is_nearer` says whether the strike along the vertical lines is
/// strictly nearer than the one along the horizontal lines; it is looked at
/// only where both exist. `None` is a ray that sees nothing.
pub fn nearest<T>(horizontal: Option<T>, vertical: Option<T>, vertical_is_nearer: bool) -> (seen:
    Option<T>)
    ensures
        seen == nearer(horizontal, vertical, vertical_is_nearer),
        seen is None <==> horizontal is None && vertical is None,
{
    match (horizontal, vertical) {
        (Some(h), Some(v)) => if vertical_is_nearer {
            Some(v)
        } else {
            Some(h)
        },
        (Some(h), None) => Some(h),
        (None, Some(v)) => Some(v),
        (None, None) => None,
    }
}

/// A ray that points along an axis is not walked along the grid lines
/// parallel to it: one that points east or west not along the horizontal
/// lines, one that points south or north not along the vertical lines. Every
/// other walk takes place.
pub proof fn lemma_parallel_walks_are_skipped(heading: Heading, lines: GridLines)
    ensures
        Cardinal::struck_by(lines, heading.sign_across(lines)) is None <==> (match lines {
            GridLines::Horizontal => heading == Heading::East || heading == Heading::West,
            GridLines::Vertical => heading == Heading::South || heading == Heading::North,
        }),
{
}

/// In a map without custom tiles no ray sees anything, whatever its paths
/// are and whichever of its walks take place.
pub proof fn lemma_open_map_shows_nothing(
    map: TileMapView,
    horizontal: Option<(Cardinal, Seq<TilePos>)>,
    vertical: Option<(Cardinal, Seq<TilePos>)>,
    vertical_is_nearer: bool,
)
    requires
        map.wf(),
        forall|i: int| 0 <= i < map.cells.len() ==> !(#[trigger] map.cells[i] is Custom),
    ensures
        nearer(
            match horizontal {
                Some((side, path)) => first_strike(map, GridLines::Horizontal, side, path),
                None => None,
            },
            match vertical {
                Some((side, path)) => first_strike(map, GridLines::Vertical, side, path),
                None => None,
            },
            vertical_is_nearer,
        ) is None,
{
    assert forall|lines: GridLines, side: Cardinal, path: Seq<TilePos>, strike: Strike|
        !stops_at(map, lines, side, path, strike) by {
        let pos = path[strike.step as int];
        let idx = map.index_of(pos);
        if 0 <= idx < map.cells.len() {
            assert(!(map.cells[idx] is Custom));
        }
        assert(map.colliding(pos, false) is None);
    }
}

} // verus!
