//! The per-tick game-loop update and the small decision functions that turn
//! raw key presses into game commands. The loop itself — sampling input,
//! pacing ticks, blocking on the game-over prompt — lives outside the core;
//! everything here is a pure step from state and event to next state.
use vstd::prelude::*;

use crate::difficulty::Difficulty;
use crate::direction::Direction;
use crate::duration_formatter::DurationFormatter;
use crate::fruit::Fruit;
use crate::score_manager::entries_view;
use crate::score_manager::entry_view;
use crate::score_manager::EntryView;
use crate::score_manager::ScoreEntry;
use crate::snake::Snake;
use crate::text::spec_dec;
use crate::text::u64_to_string;
use crate::FIELD_HEIGHT;
use crate::FIELD_WIDTH;

verus! {

pub const WALL_SYMBOL: char = '#';

pub const FRUIT_SYMBOL: char = 'F';

pub const HEAD_SYMBOL: char = 'O';

pub const TAIL_SYMBOL: char = 'o';

pub const UP_KEY: char = 'w';

pub const DOWN_KEY: char = 's';

pub const LEFT_KEY: char = 'a';

pub const RIGHT_KEY: char = 'd';

pub const PAUSE_KEY: char = 'p';

pub const RETRY_KEY: char = 'r';

pub const QUIT_KEY: char = 'q';

/// The transient per-session state the game loop mutates each tick.
pub struct GameState {
    pub game_over: bool,
    pub game_terminated: bool,
    pub current_direction: Direction,
    pub current_score: u64,
}

impl GameState {
    /// A fresh session: score zero, snake paused, neither over nor terminated.
    pub fn new() -> (r: GameState)
        ensures
            r.game_over == false,
            r.game_terminated == false,
            r.current_direction == Direction::STOP,
            r.current_score == 0,
    {
        GameState {
            game_over: false,
            game_terminated: false,
            current_direction: Direction::STOP,
            current_score: 0,
        }
    }
}

/// Where the head lands after one step in `d`, horizontally.
pub open spec fn spec_moved_x(x: u16, d: Direction) -> u16 {
    match d {
        Direction::LEFT => (x - 1) as u16,
        Direction::RIGHT => (x + 1) as u16,
        _ => x,
    }
}

/// Where the head lands after one step in `d`, vertically.
pub open spec fn spec_moved_y(y: u16, d: Direction) -> u16 {
    match d {
        Direction::UP => (y - 1) as u16,
        Direction::DOWN => (y + 1) as u16,
        _ => y,
    }
}

/// The tail after the movement phase of one tick: unchanged when paused or
/// empty, otherwise shifted so that segment 0 takes the head's old cell.
pub open spec fn spec_tail_after_move(s: Snake, d: Direction) -> Seq<(u16, u16)> {
    if d == Direction::STOP || s.tail_seq().len() == 0 {
        s.tail_seq()
    } else {
        seq![(s.x_pos, s.y_pos)] + s.tail_seq().drop_last()
    }
}

/// Whether `(x, y)` is a wall cell: the outermost row or column on any side.
pub open spec fn spec_on_boundary(x: u16, y: u16) -> bool {
    x == 0 || x == FIELD_WIDTH - 1 || y == 0 || y == FIELD_HEIGHT - 1
}

/// A boundary x-coordinate wrapped to the opposite interior edge.
pub open spec fn spec_wrap_x(x: u16) -> u16 {
    if x == 0 {
        (FIELD_WIDTH - 2) as u16
    } else if x == FIELD_WIDTH - 1 {
        1u16
    } else {
        x
    }
}

/// A boundary y-coordinate wrapped to the opposite interior edge.
pub open spec fn spec_wrap_y(y: u16) -> u16 {
    if y == 0 {
        (FIELD_HEIGHT - 2) as u16
    } else if y == FIELD_HEIGHT - 1 {
        1u16
    } else {
        y
    }
}

/// One tick of the game while playing: move the snake in the sampled
/// direction, resolve the wall collision (fatal or wrap, by difficulty), latch
/// game-over on self-collision, and on a fruit hit grow the tail, add
/// `5 × multiplier` to the score and respawn the fruit.
///
/// Wall handling is never short-circuited by the later checks: wrapping may
/// legally place the head on the fruit cell in the same tick.
pub fn handle_snake_movement(
    snake: &mut Snake,
    fruit: &mut Fruit,
    difficulty: &Difficulty,
    game_state: &mut GameState,
)
    requires
        old(snake).wf(),
        old(fruit).wf(),
        1 <= old(snake).x_pos < FIELD_WIDTH - 1,
        1 <= old(snake).y_pos < FIELD_HEIGHT - 1,
        old(game_state).current_score <= u64::MAX - 25,
    ensures
        final(snake).wf(),
        final(fruit).wf(),
        final(game_state).game_terminated == old(game_state).game_terminated,
        final(game_state).current_direction == old(game_state).current_direction,
        ({
            let d = old(game_state).current_direction;
            let mx = spec_moved_x(old(snake).x_pos, d);
            let my = spec_moved_y(old(snake).y_pos, d);
            let hit_wall = spec_on_boundary(mx, my);
            let fatal = difficulty.spec_wall_fatal();
            let hx = if hit_wall && !fatal {
                spec_wrap_x(mx)
            } else {
                mx
            };
            let hy = if hit_wall && !fatal {
                spec_wrap_y(my)
            } else {
                my
            };
            let tail = spec_tail_after_move(*old(snake), d);
            let self_hit = tail.contains((hx, hy));
            let ate = hx == old(fruit).x_pos && hy == old(fruit).y_pos;
            &&& final(snake).x_pos == hx
            &&& final(snake).y_pos == hy
            &&& final(snake).tail_seq() == if ate {
                tail.push(((FIELD_WIDTH + 1) as u16, (FIELD_HEIGHT + 1) as u16))
            } else {
                tail
            }
            &&& final(game_state).game_over == (old(game_state).game_over || (hit_wall && fatal)
                || self_hit)
            &&& final(game_state).current_score == if ate {
                (old(game_state).current_score + 5 * difficulty.spec_score_multiplier()) as u64
            } else {
                old(game_state).current_score
            }
            &&& !ate ==> final(fruit).x_pos == old(fruit).x_pos && final(fruit).y_pos == old(
                fruit,
            ).y_pos
        }),
{
    snake.move_pos(&game_state.current_direction);
    // the wall check is not an else-if of the later checks: wrapping the head
    // may place it on a fruit, which the fruit check must still see
    if snake.x_pos == 0 || snake.x_pos == FIELD_WIDTH - 1 || snake.y_pos == 0 || snake.y_pos
        == FIELD_HEIGHT - 1 {
        if difficulty.is_game_over_on_wall_collision() {
            game_state.game_over = true;
        } else {
            if snake.x_pos == 0 {
                snake.x_pos = FIELD_WIDTH - 2;
            } else if snake.x_pos == FIELD_WIDTH - 1 {
                snake.x_pos = 1;
            }
            if snake.y_pos == 0 {
                snake.y_pos = FIELD_HEIGHT - 2;
            } else if snake.y_pos == FIELD_HEIGHT - 1 {
                snake.y_pos = 1;
            }
        }
    }
    let ghost tail = snake.tail_seq();
    let ghost hx = snake.x_pos;
    let ghost hy = snake.y_pos;
    let ghost go_after_wall = game_state.game_over;
    let mut i: usize = 0;
    while i < snake.tail_x_pos.len()
        invariant
            snake.wf(),
            tail == snake.tail_seq(),
            snake.x_pos == hx,
            snake.y_pos == hy,
            fruit.x_pos == old(fruit).x_pos,
            fruit.y_pos == old(fruit).y_pos,
            game_state.current_score == old(game_state).current_score,
            game_state.current_direction == old(game_state).current_direction,
            game_state.game_terminated == old(game_state).game_terminated,
            i <= tail.len(),
            game_state.game_over == (go_after_wall || exists|j: int|
                0 <= j < i && tail[j] == (hx, hy)),
        decreases tail.len() - i,
    {
        if snake.tail_x_pos[i] == snake.x_pos && snake.tail_y_pos[i] == snake.y_pos {
            game_state.game_over = true;
            proof {
                assert(tail[i as int] == (hx, hy));
            }
        }
        i = i + 1;
    }
    proof {
        assert(game_state.game_over == (go_after_wall || tail.contains((hx, hy))));
    }
    if snake.x_pos == fruit.x_pos && snake.y_pos == fruit.y_pos {
        game_state.current_score = game_state.current_score + 5 * (
        difficulty.get_score_multiplier() as u64);
        snake.append_tail();
        fruit.respawn();
    }
}

/// The direction the next tick will use: a direction key replaces the current
/// direction, the pause key stops the snake, and anything else — including no
/// input at all — keeps the current direction.
pub open spec fn spec_next_direction(key: Option<char>, current: Direction) -> Direction {
    match key {
        Some(c) => if c == UP_KEY {
            Direction::UP
        } else if c == DOWN_KEY {
            Direction::DOWN
        } else if c == LEFT_KEY {
            Direction::LEFT
        } else if c == RIGHT_KEY {
            Direction::RIGHT
        } else if c == PAUSE_KEY {
            Direction::STOP
        } else {
            current
        },
        None => current,
    }
}

/// Turns the latest key press, if any, into the direction for the next tick.
pub fn handle_input(key: Option<char>, curr_dir: Direction) -> (r: Direction)
    ensures
        r == spec_next_direction(key, curr_dir),
{
    match key {
        Some(c) => {
            if c == UP_KEY {
                Direction::UP
            } else if c == DOWN_KEY {
                Direction::DOWN
            } else if c == LEFT_KEY {
                Direction::LEFT
            } else if c == RIGHT_KEY {
                Direction::RIGHT
            } else if c == PAUSE_KEY {
                Direction::STOP
            } else {
                curr_dir
            }
        },
        None => curr_dir,
    }
}

/// What the elapsed-time stopwatch should do this tick.
#[derive(Clone, Copy, PartialEq, Eq, Structural, Debug)]
pub enum StopwatchAction {
    Start,
    Stop,
    Keep,
}

/// The stopwatch runs exactly while the snake moves: pausing stops it, any
/// movement direction starts it again, and otherwise it is left alone.
pub fn stopwatch_action(current_direction: &Direction, is_running: bool) -> (r: StopwatchAction)
    ensures
        r == if *current_direction == Direction::STOP && is_running {
            StopwatchAction::Stop
        } else if *current_direction != Direction::STOP && !is_running {
            StopwatchAction::Start
        } else {
            StopwatchAction::Keep
        },
{
    if *current_direction == Direction::STOP && is_running {
        StopwatchAction::Stop
    } else if *current_direction != Direction::STOP && !is_running {
        StopwatchAction::Start
    } else {
        StopwatchAction::Keep
    }
}

/// The decision a key press makes on the game-over screen.
#[derive(Clone, Copy, PartialEq, Eq, Structural, Debug)]
pub enum GameOverChoice {
    Retry,
    Quit,
    Ignore,
}

/// On the game-over screen only the retry and quit keys decide; every other
/// key, or none, is ignored and the screen keeps waiting.
pub fn game_over_choice(key: Option<char>) -> (r: GameOverChoice)
    ensures
        r == match key {
            Some(c) => if c == RETRY_KEY {
                GameOverChoice::Retry
            } else if c == QUIT_KEY {
                GameOverChoice::Quit
            } else {
                GameOverChoice::Ignore
            },
            None => GameOverChoice::Ignore,
        },
{
    match key {
        Some(c) => {
            if c == RETRY_KEY {
                GameOverChoice::Retry
            } else if c == QUIT_KEY {
                GameOverChoice::Quit
            } else {
                GameOverChoice::Ignore
            }
        },
        None => GameOverChoice::Ignore,
    }
}

/// The symbol drawn on the field cell `(x, y)`: walls cover everything, the
/// head covers the fruit, the fruit covers tail segments, and all remaining
/// cells are blank.
pub open spec fn spec_cell_symbol(snake: Snake, fruit: Fruit, x: int, y: int) -> char {
    if y == 0 || x == 0 || y == FIELD_HEIGHT - 1 || x == FIELD_WIDTH - 1 {
        WALL_SYMBOL
    } else if y == snake.y_pos && x == snake.x_pos {
        HEAD_SYMBOL
    } else if y == fruit.y_pos && x == fruit.x_pos {
        FRUIT_SYMBOL
    } else if snake.tail_covers_cell(x, y) {
        TAIL_SYMBOL
    } else {
        ' '
    }
}

/// The full field as rows of symbols, ready to be flushed to a display
/// surface row by row.
pub fn render_field(snake: &Snake, fruit: &Fruit) -> (r: Vec<Vec<char>>)
    requires
        snake.wf(),
    ensures
        r@.len() == FIELD_HEIGHT,
        forall|y: int| 0 <= y < FIELD_HEIGHT ==> #[trigger] r@[y]@.len() == FIELD_WIDTH,
        forall|y: int, x: int|
            0 <= y < FIELD_HEIGHT && 0 <= x < FIELD_WIDTH ==> #[trigger] r@[y]@[x]
                == spec_cell_symbol(*snake, *fruit, x, y),
{
    let tail_matrix = snake.create_tail_matrix();
    let mut rows: Vec<Vec<char>> = Vec::new();
    let mut y: u16 = 0;
    while y < FIELD_HEIGHT
        invariant
            snake.wf(),
            y <= FIELD_HEIGHT,
            rows@.len() == y,
            tail_matrix@.len() == FIELD_HEIGHT,
            forall|yy: int|
                0 <= yy < FIELD_HEIGHT ==> #[trigger] tail_matrix@[yy]@.len() == FIELD_WIDTH,
            forall|yy: int, xx: int|
                0 <= yy < FIELD_HEIGHT && 0 <= xx < FIELD_WIDTH ==> #[trigger] tail_matrix@[yy]@[xx]
                    == snake.tail_covers_cell(xx, yy),
            forall|yy: int| 0 <= yy < y ==> #[trigger] rows@[yy]@.len() == FIELD_WIDTH,
            forall|yy: int, xx: int|
                0 <= yy < y && 0 <= xx < FIELD_WIDTH ==> #[trigger] rows@[yy]@[xx]
                    == spec_cell_symbol(*snake, *fruit, xx, yy),
        decreases FIELD_HEIGHT - y,
    {
        let mut row: Vec<char> = Vec::new();
        let mut x: u16 = 0;
        while x < FIELD_WIDTH
            invariant
                snake.wf(),
                y < FIELD_HEIGHT,
                x <= FIELD_WIDTH,
                row@.len() == x,
                tail_matrix@.len() == FIELD_HEIGHT,
                forall|yy: int|
                    0 <= yy < FIELD_HEIGHT ==> #[trigger] tail_matrix@[yy]@.len() == FIELD_WIDTH,
                forall|yy: int, xx: int|
                    0 <= yy < FIELD_HEIGHT && 0 <= xx < FIELD_WIDTH ==> #[trigger]
                    tail_matrix@[yy]@[xx] == snake.tail_covers_cell(xx, yy),
                forall|xx: int|
                    0 <= xx < x ==> #[trigger] row@[xx] == spec_cell_symbol(
                        *snake,
                        *fruit,
                        xx,
                        y as int,
                    ),
            decreases FIELD_WIDTH - x,
        {
            let c = if y == 0 || x == 0 || y == FIELD_HEIGHT - 1 || x == FIELD_WIDTH - 1 {
                WALL_SYMBOL
            } else if y == snake.y_pos && x == snake.x_pos {
                HEAD_SYMBOL
            } else if y == fruit.y_pos && x == fruit.x_pos {
                FRUIT_SYMBOL
            } else if tail_matrix[y as usize][x as usize] {
                TAIL_SYMBOL
            } else {
                ' '
            };
            row.push(c);
            x = x + 1;
        }
        rows.push(row);
        y = y + 1;
    }
    rows
}

/// The one-line summary of the best run shown during play: `0` while the
/// difficulty has no scores yet, otherwise the score, the player in
/// parentheses, and the run's time where one was recorded.
pub open spec fn spec_high_score_display(v: Seq<EntryView>) -> Seq<char> {
    if v.len() == 0 {
        "0"@
    } else {
        spec_dec(v[0].0 as nat) + " ("@ + v[0].1 + ")"@ + v[0].2.spec_format()
    }
}

/// Renders the head of a ranked high-score list for the in-game status area.
pub fn create_high_score_display(high_score_vec: &Vec<ScoreEntry>) -> (r: String)
    ensures
        r@ == spec_high_score_display(entries_view(high_score_vec@)),
{
    if high_score_vec.len() == 0 {
        String::from_str("0")
    } else {
        let t = &high_score_vec[0];
        let mut r = u64_to_string(t.0);
        r.append(" (");
        r.append(t.1.as_str());
        r.append(")");
        let ts = t.2.format_duration();
        r.append(ts.as_str());
        proof {
            assert(r@ =~= spec_high_score_display(entries_view(high_score_vec@)));
        }
        r
    }
}

/// One line of the game-over high-score table.
pub open spec fn spec_score_line(e: EntryView) -> Seq<char> {
    e.1 + ":\t\t\t"@ + spec_dec(e.0 as nat) + e.2.spec_format() + "\n"@
}

/// The game-over high-score table, line by line.
pub open spec fn spec_score_lines(v: Seq<EntryView>) -> Seq<char>
    decreases v.len(),
{
    if v.len() == 0 {
        Seq::<char>::empty()
    } else {
        spec_score_lines(v.drop_last()) + spec_score_line(v.last())
    }
}

/// Renders the high-score table shown on the game-over screen: one line per
/// entry with the player, the score, and the time where one was recorded.
pub fn format_score_lines(high_scores: &Vec<ScoreEntry>) -> (r: String)
    ensures
        r@ == spec_score_lines(entries_view(high_scores@)),
{
    let mut out = String::new();
    let mut i: usize = 0;
    while i < high_scores.len()
        invariant
            i <= high_scores@.len(),
            out@ == spec_score_lines(entries_view(high_scores@).take(i as int)),
        decreases high_scores@.len() - i,
    {
        proof {
            assert(entries_view(high_scores@).take(i + 1).drop_last() =~= entries_view(
                high_scores@,
            ).take(i as int));
            assert(entries_view(high_scores@).take(i + 1).last() == entry_view(
                high_scores@[i as int],
            ));
        }
        let t = &high_scores[i];
        out.append(t.1.as_str());
        out.append(":\t\t\t");
        let num = u64_to_string(t.0);
        out.append(num.as_str());
        let ts = t.2.format_duration();
        out.append(ts.as_str());
        out.append("\n");
        proof {
            assert(out@ =~= spec_score_lines(entries_view(high_scores@).take(i + 1)));
        }
        i = i + 1;
    }
    proof {
        assert(entries_view(high_scores@).take(high_scores@.len() as int) =~= entries_view(
            high_scores@,
        ));
    }
    out
}

} // verus!
