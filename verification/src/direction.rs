//! The direction in which the snake is steered.
use vstd::prelude::*;

verus! {

/// One of the four movement directions, or `STOP`, which pauses the snake in
/// place. `STOP` is an ordinary direction value: pausing is not a separate
/// flag of the game state.
#[derive(Clone, Copy, PartialEq, Eq, Structural, Debug)]
pub enum Direction {
    UP,
    DOWN,
    LEFT,
    RIGHT,
    STOP,
}

impl Direction {
    /// The label under which the direction is displayed.
    pub open spec fn spec_name(self) -> Seq<char> {
        match self {
            Direction::UP => "UP"@,
            Direction::DOWN => "DOWN"@,
            Direction::LEFT => "LEFT"@,
            Direction::RIGHT => "RIGHT"@,
            Direction::STOP => "STOP"@,
        }
    }

    /// The label under which the direction is displayed.
    pub fn name(&self) -> (r: &'static str)
        ensures
            r@ == self.spec_name(),
    {
        match self {
            Direction::UP => "UP",
            Direction::DOWN => "DOWN",
            Direction::LEFT => "LEFT",
            Direction::RIGHT => "RIGHT",
            Direction::STOP => "STOP",
        }
    }
}

} // verus!
