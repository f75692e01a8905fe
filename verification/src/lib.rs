//! Core logic of a terminal snake game: the snake body state machine, fruit
//! placement, difficulty profiles, the per-tick game-loop update, and a score
//! store that parses and serializes a persisted score document grouped by
//! difficulty.
use vstd::prelude::*;

pub mod difficulty;
pub mod direction;
pub mod duration_formatter;
pub mod fruit;
pub mod game;
pub mod score_doc;
pub mod score_manager;
pub mod snake;
pub mod text;

verus! {

/// Number of columns of the playing field, walls included.
pub const FIELD_WIDTH: u16 = 50;

/// Number of rows of the playing field, walls included.
pub const FIELD_HEIGHT: u16 = 50;

} // verus!
