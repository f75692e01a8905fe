//! The fruit: a single spawn point placed at random strictly inside the
//! playable interior of the field.
use vstd::prelude::*;

use crate::FIELD_HEIGHT;
use crate::FIELD_WIDTH;

verus! {

/// The cell the fruit currently occupies.
pub struct Fruit {
    pub x_pos: u16,
    pub y_pos: u16,
}

/// Relies on rand::random_range: a value drawn from the given half-open
/// range by the thread-local generator; it panics only on an empty range.
/// Nothing beyond the bounds can be promised of a random draw.
#[verifier::external_body]
fn random_in_range(low: u16, high: u16) -> (r: u16)
    requires
        low < high,
    ensures
        low <= r < high,
{
    rand::random_range(low..high)
}

impl Fruit {
    /// The fruit never rests on a wall cell: both coordinates lie strictly
    /// inside the field.
    pub open spec fn wf(self) -> bool {
        1 <= self.x_pos < FIELD_WIDTH - 1 && 1 <= self.y_pos < FIELD_HEIGHT - 1
    }

    /// Spawns the fruit on a random interior cell. The cell may coincide with
    /// a snake segment; placement does not look at the snake.
    pub fn new() -> (r: Fruit)
        ensures
            r.wf(),
    {
        let x = random_in_range(1, FIELD_WIDTH - 1);
        let y = random_in_range(1, FIELD_HEIGHT - 1);
        Fruit { x_pos: x, y_pos: y }
    }

    /// Moves the fruit to a fresh random interior cell.
    pub fn respawn(&mut self)
        ensures
            final(self).wf(),
    {
        let x = random_in_range(1, FIELD_WIDTH - 1);
        let y = random_in_range(1, FIELD_HEIGHT - 1);
        self.x_pos = x;
        self.y_pos = y;
    }
}

} // verus!
