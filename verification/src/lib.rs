//! A tile-grid world for a first-person ray caster: the map with its text
//! format, collision queries, the grid-stepping ray search, strip geometry
//! and the game's state machine.
//!
//! Everything here works on whole numbers. Positions are tile coordinates;
//! turning a fractional world position into the tile that holds it, and all
//! trigonometry, is left to the caller.
//!
//! - `text`: lines, fields and small numbers, read and written.
//! - `map`: the grid, the legend, the scene attributes and the queries on
//!   them.
//! - `load`: the map's source format and the loader.
//! - `save`: the writer of that format, and the proof that what is written
//!   loads as the same map.
//! - `ray`: where a ray stops on its way over the grid.
//! - `project`: where on the screen, and with which part of the texture, a
//!   wall is drawn.
//! - `game`: the states of the game and the player's way along walls.

pub mod game;
pub mod load;
pub mod map;
pub mod project;
pub mod ray;
pub mod save;
pub mod text;
