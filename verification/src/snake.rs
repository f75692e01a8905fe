//! The snake body state machine: a head position and an ordered tail whose
//! segments trail the head by one movement step each.
use vstd::prelude::*;

use crate::direction::Direction;
use crate::FIELD_HEIGHT;
use crate::FIELD_WIDTH;

verus! {

/// The snake: the head cell plus the tail, stored as two parallel vectors of
/// coordinates. Index 0 of the tail is the segment nearest the head; each
/// later index is one movement step further behind.
pub struct Snake {
    pub x_pos: u16,
    pub y_pos: u16,
    pub tail_x_pos: Vec<u16>,
    pub tail_y_pos: Vec<u16>,
}

impl Snake {
    /// The two coordinate vectors always describe the same segments, so they
    /// have the same length.
    pub open spec fn wf(self) -> bool {
        self.tail_x_pos@.len() == self.tail_y_pos@.len()
    }

    /// The tail as one sequence of `(x, y)` cells, nearest segment first.
    pub open spec fn tail_seq(self) -> Seq<(u16, u16)> {
        Seq::new(self.tail_x_pos@.len(), |i: int| (self.tail_x_pos@[i], self.tail_y_pos@[i]))
    }

    /// Whether some tail segment sits on the cell `(x, y)`.
    pub open spec fn tail_covers_cell(self, x: int, y: int) -> bool {
        exists|i: int|
            0 <= i < self.tail_x_pos@.len() && self.tail_x_pos@[i] == x && self.tail_y_pos@[i]
                == y
    }

    /// A fresh snake: the head at the exact center of the field, no tail.
    pub fn new() -> (r: Snake)
        ensures
            r.wf(),
            r.x_pos == FIELD_WIDTH / 2,
            r.y_pos == FIELD_HEIGHT / 2,
            r.tail_seq() == Seq::<(u16, u16)>::empty(),
    {
        let r = Snake {
            x_pos: FIELD_WIDTH / 2,
            y_pos: FIELD_HEIGHT / 2,
            tail_x_pos: Vec::new(),
            tail_y_pos: Vec::new(),
        };
        proof {
            assert(r.tail_seq() =~= Seq::<(u16, u16)>::empty());
        }
        r
    }

    /// Advances the snake one step in `direction`; `STOP` leaves it in place.
    /// The tail is shifted before the head coordinate changes, so the segment
    /// nearest the head receives the head's pre-move position.
    pub fn move_pos(&mut self, direction: &Direction)
        requires
            old(self).wf(),
            *direction == Direction::UP ==> old(self).y_pos >= 1,
            *direction == Direction::DOWN ==> old(self).y_pos < u16::MAX,
            *direction == Direction::LEFT ==> old(self).x_pos >= 1,
            *direction == Direction::RIGHT ==> old(self).x_pos < u16::MAX,
        ensures
            final(self).wf(),
            final(self).tail_seq().len() == old(self).tail_seq().len(),
            *direction == Direction::STOP ==> final(self).x_pos == old(self).x_pos
                && final(self).y_pos == old(self).y_pos && final(self).tail_seq() == old(
                self,
            ).tail_seq(),
            *direction != Direction::STOP ==> {
                &&& final(self).x_pos == match *direction {
                    Direction::LEFT => (old(self).x_pos - 1) as u16,
                    Direction::RIGHT => (old(self).x_pos + 1) as u16,
                    _ => old(self).x_pos,
                }
                &&& final(self).y_pos == match *direction {
                    Direction::UP => (old(self).y_pos - 1) as u16,
                    Direction::DOWN => (old(self).y_pos + 1) as u16,
                    _ => old(self).y_pos,
                }
                &&& old(self).tail_seq().len() > 0 ==> final(self).tail_seq() == seq![
                    (old(self).x_pos, old(self).y_pos),
                ] + old(self).tail_seq().drop_last()
                &&& old(self).tail_seq().len() == 0 ==> final(self).tail_seq() == old(
                    self,
                ).tail_seq()
            },
    {
        match direction {
            Direction::UP => {
                self.move_tail();
                self.y_pos = self.y_pos - 1;
            },
            Direction::DOWN => {
                self.move_tail();
                self.y_pos = self.y_pos + 1;
            },
            Direction::LEFT => {
                self.move_tail();
                self.x_pos = self.x_pos - 1;
            },
            Direction::RIGHT => {
                self.move_tail();
                self.x_pos = self.x_pos + 1;
            },
            Direction::STOP => {},
        }
    }

    /// Shifts every tail segment one step toward the tail end: segment 0 takes
    /// the head's position, and each later segment takes the prior position of
    /// the segment ahead of it. The head itself is not changed.
    pub fn move_tail(&mut self)
        requires
            old(self).wf(),
        ensures
            final(self).wf(),
            final(self).x_pos == old(self).x_pos,
            final(self).y_pos == old(self).y_pos,
            final(self).tail_seq().len() == old(self).tail_seq().len(),
            old(self).tail_seq().len() == 0 ==> final(self).tail_seq() == old(self).tail_seq(),
            old(self).tail_seq().len() > 0 ==> final(self).tail_seq() == seq![
                (old(self).x_pos, old(self).y_pos),
            ] + old(self).tail_seq().drop_last(),
    {
        let len = self.tail_x_pos.len();
        if len == 0 {
            return ;
        }
        // walk from the tail end toward the head, so that each segment still
        // reads the not-yet-updated position of the segment ahead of it
        let mut i = len;
        while i > 0
            invariant
                self.wf(),
                len == self.tail_x_pos@.len(),
                len == old(self).tail_x_pos@.len(),
                i <= len,
                self.x_pos == old(self).x_pos,
                self.y_pos == old(self).y_pos,
                forall|j: int|
                    0 <= j < i ==> self.tail_x_pos@[j] == old(self).tail_x_pos@[j]
                        && self.tail_y_pos@[j] == old(self).tail_y_pos@[j],
                forall|j: int|
                    i <= j < len && j > 0 ==> self.tail_x_pos@[j] == old(self).tail_x_pos@[j - 1]
                        && self.tail_y_pos@[j] == old(self).tail_y_pos@[j - 1],
                i == 0 ==> self.tail_x_pos@[0] == old(self).x_pos && self.tail_y_pos@[0] == old(
                    self,
                ).y_pos,
            decreases i,
        {
            i = i - 1;
            if i == 0 {
                self.tail_x_pos[0] = self.x_pos;
                self.tail_y_pos[0] = self.y_pos;
            } else {
                let px = self.tail_x_pos[i - 1];
                let py = self.tail_y_pos[i - 1];
                self.tail_x_pos[i] = px;
                self.tail_y_pos[i] = py;
            }
        }
        proof {
            assert(final(self).tail_seq() =~= seq![(old(self).x_pos, old(self).y_pos)] + old(
                self,
            ).tail_seq().drop_last());
        }
    }

    /// Appends one tail segment at the off-field sentinel cell, one past the
    /// field bounds on both axes, so that it stays invisible until the next
    /// move pulls it onto the field.
    pub fn append_tail(&mut self)
        requires
            old(self).wf(),
        ensures
            final(self).wf(),
            final(self).x_pos == old(self).x_pos,
            final(self).y_pos == old(self).y_pos,
            final(self).tail_seq() == old(self).tail_seq().push(
                ((FIELD_WIDTH + 1) as u16, (FIELD_HEIGHT + 1) as u16),
            ),
    {
        self.tail_x_pos.push(FIELD_WIDTH + 1);
        self.tail_y_pos.push(FIELD_HEIGHT + 1);
        proof {
            assert(final(self).tail_seq() =~= old(self).tail_seq().push(
                ((FIELD_WIDTH + 1) as u16, (FIELD_HEIGHT + 1) as u16),
            ));
        }
    }

    /// Whether some tail segment sits on the in-field cell `(x, y)`.
    fn tail_covers(&self, x: u16, y: u16) -> (r: bool)
        requires
            self.wf(),
        ensures
            r == self.tail_covers_cell(x as int, y as int),
    {
        let mut i: usize = 0;
        let mut found = false;
        while i < self.tail_x_pos.len()
            invariant
                self.wf(),
                i <= self.tail_x_pos@.len(),
                found == exists|j: int|
                    0 <= j < i && self.tail_x_pos@[j] == x && self.tail_y_pos@[j] == y,
            decreases self.tail_x_pos@.len() - i,
        {
            if self.tail_x_pos[i] == x && self.tail_y_pos[i] == y {
                found = true;
            }
            i = i + 1;
        }
        found
    }

    /// The occupancy mask: one boolean per field cell, row by row, marking the
    /// cells covered by tail segments. Segments resting on the off-field
    /// sentinel are excluded, since no in-field cell matches their position.
    pub fn create_tail_matrix(&self) -> (r: Vec<Vec<bool>>)
        requires
            self.wf(),
        ensures
            r@.len() == FIELD_HEIGHT,
            forall|y: int| 0 <= y < FIELD_HEIGHT ==> #[trigger] r@[y]@.len() == FIELD_WIDTH,
            forall|y: int, x: int|
                0 <= y < FIELD_HEIGHT && 0 <= x < FIELD_WIDTH ==> #[trigger] r@[y]@[x]
                    == self.tail_covers_cell(x, y),
    {
        let mut matrix: Vec<Vec<bool>> = Vec::new();
        let mut y: u16 = 0;
        while y < FIELD_HEIGHT
            invariant
                self.wf(),
                y <= FIELD_HEIGHT,
                matrix@.len() == y,
                forall|yy: int| 0 <= yy < y ==> #[trigger] matrix@[yy]@.len() == FIELD_WIDTH,
                forall|yy: int, xx: int|
                    0 <= yy < y && 0 <= xx < FIELD_WIDTH ==> #[trigger] matrix@[yy]@[xx]
                        == self.tail_covers_cell(xx, yy),
            decreases FIELD_HEIGHT - y,
        {
            let mut row: Vec<bool> = Vec::new();
            let mut x: u16 = 0;
            while x < FIELD_WIDTH
                invariant
                    self.wf(),
                    x <= FIELD_WIDTH,
                    row@.len() == x,
                    forall|xx: int|
                        0 <= xx < x ==> #[trigger] row@[xx] == self.tail_covers_cell(xx, y as int),
                decreases FIELD_WIDTH - x,
            {
                row.push(self.tail_covers(x, y));
                x = x + 1;
            }
            matrix.push(row);
            y = y + 1;
        }
        matrix
    }

    /// A snake that differs from `self` only by one freshly appended segment
    /// covers exactly the same in-field cells: the new segment rests on the
    /// off-field sentinel, which no field cell matches, so the occupancy mask
    /// is unchanged until a later move pulls the segment onto the field.
    pub proof fn lemma_append_outside_mask(self, after: Snake)
        requires
            self.wf(),
            after.wf(),
            after.tail_seq() == self.tail_seq().push(
                ((FIELD_WIDTH + 1) as u16, (FIELD_HEIGHT + 1) as u16),
            ),
        ensures
            forall|x: int, y: int|
                0 <= x < FIELD_WIDTH && 0 <= y < FIELD_HEIGHT ==> after.tail_covers_cell(x, y)
                    == self.tail_covers_cell(x, y),
    {
        assert forall|x: int, y: int|
            0 <= x < FIELD_WIDTH && 0 <= y < FIELD_HEIGHT implies after.tail_covers_cell(x, y)
            == self.tail_covers_cell(x, y) by {
            assert(after.tail_seq().len() == self.tail_seq().len() + 1);
            if self.tail_covers_cell(x, y) {
                let i = choose|i: int|
                    0 <= i < self.tail_x_pos@.len() && self.tail_x_pos@[i] == x
                        && self.tail_y_pos@[i] == y;
                assert(after.tail_seq()[i] == self.tail_seq()[i]);
                assert(after.tail_x_pos@[i] == x && after.tail_y_pos@[i] == y);
            }
            if after.tail_covers_cell(x, y) {
                let i = choose|i: int|
                    0 <= i < after.tail_x_pos@.len() && after.tail_x_pos@[i] == x
                        && after.tail_y_pos@[i] == y;
                assert(after.tail_seq()[i] == (x as u16, y as u16));
                if i < self.tail_x_pos@.len() {
                    assert(self.tail_seq()[i] == (x as u16, y as u16));
                    assert(self.tail_x_pos@[i] == x && self.tail_y_pos@[i] == y);
                } else {
                    assert(after.tail_seq()[i] == (
                        (FIELD_WIDTH + 1) as u16,
                        (FIELD_HEIGHT + 1) as u16,
                    ));
                }
            }
        }
    }

    /// Returns the snake to its starting shape: the head at the center of the
    /// field and an empty tail, whatever the prior state.
    pub fn reset(&mut self)
        ensures
            final(self).wf(),
            final(self).x_pos == FIELD_WIDTH / 2,
            final(self).y_pos == FIELD_HEIGHT / 2,
            final(self).tail_seq() == Seq::<(u16, u16)>::empty(),
    {
        self.x_pos = FIELD_WIDTH / 2;
        self.y_pos = FIELD_HEIGHT / 2;
        self.tail_x_pos.clear();
        self.tail_y_pos.clear();
        proof {
            assert(final(self).tail_seq() =~= Seq::<(u16, u16)>::empty());
        }
    }
}

} // verus!
