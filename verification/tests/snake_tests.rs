use snake::snake::Snake;
use snake::direction::Direction;
use snake::{FIELD_HEIGHT, FIELD_WIDTH};

fn snake_with_tail() -> Snake {
    Snake {
        x_pos: 10,
        y_pos: 20,
        tail_x_pos: vec![10, 10, 11],
        tail_y_pos: vec![21, 22, 22],
    }
}

#[test]
fn new_snake_starts_centered_with_empty_tail() {
    let s = Snake::new();
    assert_eq!(s.x_pos, FIELD_WIDTH / 2);
    assert_eq!(s.y_pos, FIELD_HEIGHT / 2);
    assert_eq!(s.tail_x_pos.len(), 0);
    assert_eq!(s.tail_y_pos.len(), 0);
}

#[test]
fn move_up_changes_only_y_by_one() {
    let mut s = snake_with_tail();
    s.move_pos(&Direction::UP);
    assert_eq!(s.x_pos, 10);
    assert_eq!(s.y_pos, 19);
    assert_eq!(s.tail_x_pos.len(), 3);
}

#[test]
fn move_down_changes_only_y_by_one() {
    let mut s = snake_with_tail();
    s.move_pos(&Direction::DOWN);
    assert_eq!(s.x_pos, 10);
    assert_eq!(s.y_pos, 21);
}

#[test]
fn move_left_changes_only_x_by_one() {
    let mut s = snake_with_tail();
    s.move_pos(&Direction::LEFT);
    assert_eq!(s.x_pos, 9);
    assert_eq!(s.y_pos, 20);
}

#[test]
fn move_right_shifts_every_tail_segment() {
    let mut s = snake_with_tail();
    s.move_pos(&Direction::RIGHT);
    assert_eq!(s.x_pos, 11);
    assert_eq!(s.y_pos, 20);
    // segment 0 received the head's pre-move position, the others moved up
    assert_eq!(s.tail_x_pos, vec![10, 10, 10]);
    assert_eq!(s.tail_y_pos, vec![20, 21, 22]);
}

#[test]
fn move_stop_is_a_no_op() {
    let mut s = snake_with_tail();
    s.move_pos(&Direction::STOP);
    assert_eq!(s.x_pos, 10);
    assert_eq!(s.y_pos, 20);
    assert_eq!(s.tail_x_pos, vec![10, 10, 11]);
    assert_eq!(s.tail_y_pos, vec![21, 22, 22]);
}

#[test]
fn move_tail_on_empty_tail_leaves_snake_unchanged() {
    let mut s = Snake::new();
    s.move_tail();
    assert_eq!(s.x_pos, FIELD_WIDTH / 2);
    assert_eq!(s.y_pos, FIELD_HEIGHT / 2);
    assert_eq!(s.tail_x_pos.len(), 0);
}

#[test]
fn append_tail_adds_exactly_one_off_field_segment() {
    let mut s = snake_with_tail();
    s.append_tail();
    assert_eq!(s.tail_x_pos.len(), 4);
    assert_eq!(s.tail_y_pos.len(), 4);
    assert_eq!(s.tail_x_pos[3], FIELD_WIDTH + 1);
    assert_eq!(s.tail_y_pos[3], FIELD_HEIGHT + 1);
}

#[test]
fn appended_segment_is_excluded_from_mask_until_moved() {
    let mut s = snake_with_tail();
    let before = s.create_tail_matrix();
    s.append_tail();
    let after = s.create_tail_matrix();
    // the sentinel segment marks nothing: the mask is unchanged
    assert_eq!(before, after);
    // one move later the new segment is pulled onto the field
    s.move_pos(&Direction::RIGHT);
    let moved = s.create_tail_matrix();
    assert_ne!(before, moved);
}

#[test]
fn tail_matrix_marks_exactly_the_tail_cells() {
    let s = snake_with_tail();
    let m = s.create_tail_matrix();
    assert_eq!(m.len(), FIELD_HEIGHT as usize);
    for row in &m {
        assert_eq!(row.len(), FIELD_WIDTH as usize);
    }
    assert!(m[21][10]);
    assert!(m[22][10]);
    assert!(m[22][11]);
    let marked: usize = m
        .iter()
        .map(|row| row.iter().filter(|&&b| b).count())
        .sum();
    assert_eq!(marked, 3);
}

#[test]
fn reset_recenters_head_and_clears_tail() {
    let mut s = snake_with_tail();
    s.append_tail();
    s.reset();
    assert_eq!(s.x_pos, FIELD_WIDTH / 2);
    assert_eq!(s.y_pos, FIELD_HEIGHT / 2);
    assert_eq!(s.tail_x_pos.len(), 0);
    assert_eq!(s.tail_y_pos.len(), 0);
}
