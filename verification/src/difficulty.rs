//! The difficulty profile: a fixed rule tuple (wall lethality, tick interval,
//! score multiplier, description) selected once per game session.
use vstd::prelude::*;

verus! {

/// One of the four game-rule profiles.
#[derive(Clone, Copy, PartialEq, Eq, Structural, Debug)]
pub enum Difficulty {
    EASY,
    ARCADE,
    NORMAL,
    HARD,
}

/// Returned when a numeric difficulty selector lies outside `0..=3`.
#[derive(Clone, Copy, PartialEq, Eq, Structural, Debug)]
pub struct InvalidSelector;

impl Difficulty {
    /// The name under which the difficulty is displayed and under which its
    /// score group is keyed in the persisted score document.
    pub open spec fn spec_name(self) -> Seq<char> {
        match self {
            Difficulty::EASY => "EASY"@,
            Difficulty::ARCADE => "ARCADE"@,
            Difficulty::NORMAL => "NORMAL"@,
            Difficulty::HARD => "HARD"@,
        }
    }

    /// The name under which the difficulty is displayed and under which its
    /// score group is keyed in the persisted score document.
    pub fn name(&self) -> (r: &'static str)
        ensures
            r@ == self.spec_name(),
    {
        match self {
            Difficulty::EASY => "EASY",
            Difficulty::ARCADE => "ARCADE",
            Difficulty::NORMAL => "NORMAL",
            Difficulty::HARD => "HARD",
        }
    }

    /// Validated conversion from the numeric selector a player types.
    /// Exactly the selectors `0..=3` are accepted.
    pub fn try_from(value: u32) -> (r: Result<Difficulty, InvalidSelector>)
        ensures
            value == 0 ==> r == Ok::<Difficulty, InvalidSelector>(Difficulty::EASY),
            value == 1 ==> r == Ok::<Difficulty, InvalidSelector>(Difficulty::ARCADE),
            value == 2 ==> r == Ok::<Difficulty, InvalidSelector>(Difficulty::NORMAL),
            value == 3 ==> r == Ok::<Difficulty, InvalidSelector>(Difficulty::HARD),
            value > 3 ==> r == Err::<Difficulty, InvalidSelector>(InvalidSelector),
    {
        match value {
            0 => Ok(Difficulty::EASY),
            1 => Ok(Difficulty::ARCADE),
            2 => Ok(Difficulty::NORMAL),
            3 => Ok(Difficulty::HARD),
            _ => Err(InvalidSelector),
        }
    }

    /// Whether touching a wall cell ends the game under this difficulty.
    pub open spec fn spec_wall_fatal(self) -> bool {
        match self {
            Difficulty::EASY => false,
            Difficulty::ARCADE => false,
            Difficulty::NORMAL => true,
            Difficulty::HARD => true,
        }
    }

    /// Whether touching a wall cell ends the game under this difficulty.
    pub fn is_game_over_on_wall_collision(&self) -> (r: bool)
        ensures
            r == self.spec_wall_fatal(),
    {
        match self {
            Difficulty::EASY => false,
            Difficulty::ARCADE => false,
            Difficulty::NORMAL => true,
            Difficulty::HARD => true,
        }
    }

    /// The pause between two game ticks, in milliseconds.
    pub open spec fn spec_refresh_delay(self) -> u64 {
        match self {
            Difficulty::EASY => 150u64,
            Difficulty::ARCADE => 50u64,
            Difficulty::NORMAL => 150u64,
            Difficulty::HARD => 50u64,
        }
    }

    /// The pause between two game ticks, in milliseconds.
    pub fn get_refresh_delay(&self) -> (r: u64)
        ensures
            r == self.spec_refresh_delay(),
    {
        match self {
            Difficulty::EASY => 150,
            Difficulty::ARCADE => 50,
            Difficulty::NORMAL => 150,
            Difficulty::HARD => 50,
        }
    }

    /// The human-readable description shown on the difficulty menu.
    pub open spec fn spec_description(self) -> Seq<char> {
        match self {
            Difficulty::EASY => "No game over on wall collision and slow speed"@,
            Difficulty::ARCADE => "Easy but speedy"@,
            Difficulty::NORMAL => "Game over on wall collision, normal speed"@,
            Difficulty::HARD => "Dangerous walls and fast speed"@,
        }
    }

    /// The human-readable description shown on the difficulty menu.
    pub fn get_description(&self) -> (r: &'static str)
        ensures
            r@ == self.spec_description(),
    {
        match self {
            Difficulty::EASY => "No game over on wall collision and slow speed",
            Difficulty::ARCADE => "Easy but speedy",
            Difficulty::NORMAL => "Game over on wall collision, normal speed",
            Difficulty::HARD => "Dangerous walls and fast speed",
        }
    }

    /// Eating one fruit is worth five points times this multiplier.
    pub open spec fn spec_score_multiplier(self) -> u16 {
        match self {
            Difficulty::EASY => 1u16,
            Difficulty::ARCADE => 2u16,
            Difficulty::NORMAL => 3u16,
            Difficulty::HARD => 5u16,
        }
    }

    /// Eating one fruit is worth five points times this multiplier.
    pub fn get_score_multiplier(&self) -> (r: u16)
        ensures
            r == self.spec_score_multiplier(),
    {
        match self {
            Difficulty::EASY => 1,
            Difficulty::ARCADE => 2,
            Difficulty::NORMAL => 3,
            Difficulty::HARD => 5,
        }
    }
}

} // verus!
