use vstd::prelude::*;

pub mod audio;
pub mod bullet;
pub mod frame;
pub mod game;
pub mod invader;
pub mod player;
pub mod render;

verus! {

/// Number of rows of the playing field.
pub const NUM_ROWS: usize = 20;

/// Number of columns of the playing field.
pub const NUM_COLS: usize = 40;

/// Glyph of a cell that nothing occupies.
pub const EMPTY_CELL: &'static str = " ";

/// Glyph of a cell that the player's ship occupies.
pub const PLAYER_CELL: &'static str = "X";

/// Glyph of a cell that a bullet occupies.
pub const BULLET_CELL: &'static str = "^";

/// Glyph of a cell that an invader occupies.
pub const INVADER_CELL: &'static str = "W";

} // verus!
