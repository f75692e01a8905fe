use snake::difficulty::{Difficulty, InvalidSelector};
use snake::direction::Direction;
use snake::duration_formatter::DurationFormatter;
use snake::fruit::Fruit;
use snake::game::{
    create_high_score_display, format_score_lines, game_over_choice, handle_input,
    handle_snake_movement, render_field, stopwatch_action, GameOverChoice, GameState,
    StopwatchAction, FRUIT_SYMBOL, HEAD_SYMBOL, TAIL_SYMBOL, WALL_SYMBOL,
};
use snake::snake::Snake;
use snake::{FIELD_HEIGHT, FIELD_WIDTH};

fn snake_at(x: u16, y: u16) -> Snake {
    Snake {
        x_pos: x,
        y_pos: y,
        tail_x_pos: vec![],
        tail_y_pos: vec![],
    }
}

fn fruit_at(x: u16, y: u16) -> Fruit {
    Fruit { x_pos: x, y_pos: y }
}

fn state_moving(d: Direction) -> GameState {
    let mut gs = GameState::new();
    gs.current_direction = d;
    gs
}

#[test]
fn wall_wrap_left_edge_moves_head_to_opposite_interior_edge() {
    let mut s = snake_at(1, 10);
    let mut f = fruit_at(30, 30);
    let mut gs = state_moving(Direction::LEFT);
    handle_snake_movement(&mut s, &mut f, &Difficulty::EASY, &mut gs);
    assert_eq!(s.x_pos, FIELD_WIDTH - 2);
    assert_eq!(s.y_pos, 10);
    assert!(!gs.game_over);
}

#[test]
fn wall_wrap_right_edge() {
    let mut s = snake_at(FIELD_WIDTH - 2, 10);
    let mut f = fruit_at(30, 30);
    let mut gs = state_moving(Direction::RIGHT);
    handle_snake_movement(&mut s, &mut f, &Difficulty::ARCADE, &mut gs);
    assert_eq!(s.x_pos, 1);
    assert!(!gs.game_over);
}

#[test]
fn wall_wrap_top_edge() {
    let mut s = snake_at(10, 1);
    let mut f = fruit_at(30, 30);
    let mut gs = state_moving(Direction::UP);
    handle_snake_movement(&mut s, &mut f, &Difficulty::EASY, &mut gs);
    assert_eq!(s.y_pos, FIELD_HEIGHT - 2);
    assert!(!gs.game_over);
}

#[test]
fn wall_wrap_bottom_edge() {
    let mut s = snake_at(10, FIELD_HEIGHT - 2);
    let mut f = fruit_at(30, 30);
    let mut gs = state_moving(Direction::DOWN);
    handle_snake_movement(&mut s, &mut f, &Difficulty::EASY, &mut gs);
    assert_eq!(s.y_pos, 1);
    assert!(!gs.game_over);
}

#[test]
fn wall_touch_is_fatal_on_normal_and_head_stays_on_boundary() {
    let mut s = snake_at(1, 10);
    let mut f = fruit_at(30, 30);
    let mut gs = state_moving(Direction::LEFT);
    handle_snake_movement(&mut s, &mut f, &Difficulty::NORMAL, &mut gs);
    assert!(gs.game_over);
    assert_eq!(s.x_pos, 0);
    assert_eq!(s.y_pos, 10);
}

#[test]
fn wall_touch_is_fatal_on_hard() {
    let mut s = snake_at(10, FIELD_HEIGHT - 2);
    let mut f = fruit_at(30, 30);
    let mut gs = state_moving(Direction::DOWN);
    handle_snake_movement(&mut s, &mut f, &Difficulty::HARD, &mut gs);
    assert!(gs.game_over);
    assert_eq!(s.y_pos, FIELD_HEIGHT - 1);
}

#[test]
fn eating_fruit_scores_grows_tail_and_respawns_fruit() {
    let mut s = snake_at(10, 10);
    let mut f = fruit_at(11, 10);
    let mut gs = state_moving(Direction::RIGHT);
    handle_snake_movement(&mut s, &mut f, &Difficulty::NORMAL, &mut gs);
    assert_eq!(gs.current_score, 15); // 5 x 3
    assert_eq!(s.tail_x_pos.len(), 1);
    assert_eq!(s.tail_x_pos[0], FIELD_WIDTH + 1);
    assert!(1 <= f.x_pos && f.x_pos <= FIELD_WIDTH - 2);
    assert!(1 <= f.y_pos && f.y_pos <= FIELD_HEIGHT - 2);
    assert!(!gs.game_over);
}

#[test]
fn missing_the_fruit_changes_nothing_but_the_head() {
    let mut s = snake_at(10, 10);
    let mut f = fruit_at(30, 30);
    let mut gs = state_moving(Direction::RIGHT);
    handle_snake_movement(&mut s, &mut f, &Difficulty::EASY, &mut gs);
    assert_eq!(gs.current_score, 0);
    assert_eq!(s.tail_x_pos.len(), 0);
    assert_eq!((f.x_pos, f.y_pos), (30, 30));
}

#[test]
fn running_into_the_tail_latches_game_over() {
    // segment 1 sits on (11,10); after the shift it is still there as
    // segment 2 when the head arrives
    let mut s = Snake {
        x_pos: 10,
        y_pos: 10,
        tail_x_pos: vec![10, 11, 12],
        tail_y_pos: vec![11, 10, 12],
    };
    let mut f = fruit_at(30, 30);
    let mut gs = state_moving(Direction::RIGHT);
    handle_snake_movement(&mut s, &mut f, &Difficulty::EASY, &mut gs);
    assert_eq!((s.x_pos, s.y_pos), (11, 10));
    assert!(gs.game_over);
}

#[test]
fn moving_alongside_the_tail_is_not_a_collision() {
    let mut s = Snake {
        x_pos: 10,
        y_pos: 10,
        tail_x_pos: vec![10, 11],
        tail_y_pos: vec![11, 11],
    };
    let mut f = fruit_at(30, 30);
    let mut gs = state_moving(Direction::RIGHT);
    handle_snake_movement(&mut s, &mut f, &Difficulty::EASY, &mut gs);
    assert_eq!((s.x_pos, s.y_pos), (11, 10));
    assert!(!gs.game_over);
}

#[test]
fn handle_input_maps_the_five_keys_and_keeps_direction_otherwise() {
    assert_eq!(handle_input(Some('w'), Direction::STOP), Direction::UP);
    assert_eq!(handle_input(Some('s'), Direction::STOP), Direction::DOWN);
    assert_eq!(handle_input(Some('a'), Direction::STOP), Direction::LEFT);
    assert_eq!(handle_input(Some('d'), Direction::STOP), Direction::RIGHT);
    assert_eq!(handle_input(Some('p'), Direction::RIGHT), Direction::STOP);
    assert_eq!(handle_input(Some('x'), Direction::LEFT), Direction::LEFT);
    assert_eq!(handle_input(None, Direction::DOWN), Direction::DOWN);
}

#[test]
fn stopwatch_runs_exactly_while_moving() {
    assert_eq!(
        stopwatch_action(&Direction::STOP, true),
        StopwatchAction::Stop
    );
    assert_eq!(
        stopwatch_action(&Direction::UP, false),
        StopwatchAction::Start
    );
    assert_eq!(
        stopwatch_action(&Direction::UP, true),
        StopwatchAction::Keep
    );
    assert_eq!(
        stopwatch_action(&Direction::STOP, false),
        StopwatchAction::Keep
    );
}

#[test]
fn game_over_screen_only_retry_and_quit_decide() {
    assert_eq!(game_over_choice(Some('r')), GameOverChoice::Retry);
    assert_eq!(game_over_choice(Some('q')), GameOverChoice::Quit);
    assert_eq!(game_over_choice(Some('z')), GameOverChoice::Ignore);
    assert_eq!(game_over_choice(None), GameOverChoice::Ignore);
}

#[test]
fn difficulty_selectors_zero_to_three_are_the_only_valid_ones() {
    assert_eq!(Difficulty::try_from(0), Ok(Difficulty::EASY));
    assert_eq!(Difficulty::try_from(1), Ok(Difficulty::ARCADE));
    assert_eq!(Difficulty::try_from(2), Ok(Difficulty::NORMAL));
    assert_eq!(Difficulty::try_from(3), Ok(Difficulty::HARD));
    assert_eq!(Difficulty::try_from(4), Err(InvalidSelector));
    assert_eq!(Difficulty::try_from(9), Err(InvalidSelector));
}

#[test]
fn difficulty_profiles_match_the_rule_table() {
    assert!(!Difficulty::EASY.is_game_over_on_wall_collision());
    assert!(!Difficulty::ARCADE.is_game_over_on_wall_collision());
    assert!(Difficulty::NORMAL.is_game_over_on_wall_collision());
    assert!(Difficulty::HARD.is_game_over_on_wall_collision());
    assert_eq!(Difficulty::EASY.get_refresh_delay(), 150);
    assert_eq!(Difficulty::ARCADE.get_refresh_delay(), 50);
    assert_eq!(Difficulty::NORMAL.get_refresh_delay(), 150);
    assert_eq!(Difficulty::HARD.get_refresh_delay(), 50);
    assert_eq!(Difficulty::EASY.get_score_multiplier(), 1);
    assert_eq!(Difficulty::ARCADE.get_score_multiplier(), 2);
    assert_eq!(Difficulty::NORMAL.get_score_multiplier(), 3);
    assert_eq!(Difficulty::HARD.get_score_multiplier(), 5);
    assert_eq!(Difficulty::EASY.name(), "EASY");
    assert_eq!(Difficulty::HARD.name(), "HARD");
    assert_eq!(
        Difficulty::ARCADE.get_description(),
        "Easy but speedy"
    );
}

#[test]
fn direction_labels() {
    assert_eq!(Direction::UP.name(), "UP");
    assert_eq!(Direction::STOP.name(), "STOP");
}

#[test]
fn fruit_always_spawns_strictly_inside_the_field() {
    for _ in 0..50 {
        let f = Fruit::new();
        assert!(1 <= f.x_pos && f.x_pos <= FIELD_WIDTH - 2);
        assert!(1 <= f.y_pos && f.y_pos <= FIELD_HEIGHT - 2);
        let mut f2 = f;
        f2.respawn();
        assert!(1 <= f2.x_pos && f2.x_pos <= FIELD_WIDTH - 2);
        assert!(1 <= f2.y_pos && f2.y_pos <= FIELD_HEIGHT - 2);
    }
}

#[test]
fn rendered_field_shows_walls_head_fruit_and_tail() {
    let s = Snake {
        x_pos: 10,
        y_pos: 10,
        tail_x_pos: vec![10],
        tail_y_pos: vec![11],
    };
    let f = fruit_at(20, 20);
    let rows = render_field(&s, &f);
    assert_eq!(rows.len(), FIELD_HEIGHT as usize);
    assert_eq!(rows[0].len(), FIELD_WIDTH as usize);
    assert_eq!(rows[0][0], WALL_SYMBOL);
    assert_eq!(rows[0][25], WALL_SYMBOL);
    assert_eq!(rows[25][0], WALL_SYMBOL);
    assert_eq!(rows[(FIELD_HEIGHT - 1) as usize][25], WALL_SYMBOL);
    assert_eq!(rows[10][10], HEAD_SYMBOL);
    assert_eq!(rows[20][20], FRUIT_SYMBOL);
    assert_eq!(rows[11][10], TAIL_SYMBOL);
    assert_eq!(rows[30][30], ' ');
}

#[test]
fn high_score_display_is_zero_for_an_empty_list() {
    let v: Vec<(u64, String, Option<u64>)> = vec![];
    assert_eq!(create_high_score_display(&v), "0");
}

#[test]
fn high_score_display_shows_first_entry_with_time() {
    let v = vec![(12u64, "bob".to_string(), Some(65_000u64))];
    assert_eq!(create_high_score_display(&v), "12 (bob) (01:05)");
}

#[test]
fn high_score_display_omits_a_missing_time() {
    let v = vec![
        (7u64, "ann".to_string(), None),
        (3u64, "joe".to_string(), Some(1000u64)),
    ];
    assert_eq!(create_high_score_display(&v), "7 (ann)");
}

#[test]
fn score_lines_render_one_line_per_entry() {
    let v = vec![
        (12u64, "bob".to_string(), Some(65_000u64)),
        (7u64, "ann".to_string(), None),
    ];
    assert_eq!(
        format_score_lines(&v),
        "bob:\t\t\t12 (01:05)\nann:\t\t\t7\n"
    );
}

#[test]
fn durations_format_as_zero_padded_minutes_and_seconds() {
    assert_eq!(0u64.format_duration(), "00:00");
    assert_eq!(65_000u64.format_duration(), "01:05");
    assert_eq!(3_661_000u64.format_duration(), "61:01");
    assert_eq!(Some(65_000u64).format_duration(), " (01:05)");
    assert_eq!(None::<u64>.format_duration(), "");
}
