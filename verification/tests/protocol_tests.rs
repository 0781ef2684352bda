use snake_card::controls::key_direction;
use snake_card::demo::{button_heading, wrap_step};
use snake_card::max7219::{clear_frames, config_frames, pixel_frame, register_frame};
use snake_card::snake::Direction;

#[test]
fn configuration_sequence_matches_the_datasheet_order() {
    assert_eq!(
        config_frames(),
        vec![[0x0F, 0x00], [0x0C, 0x01], [0x0B, 0x07], [0x09, 0x00], [0x0A, 0x08]]
    );
}

#[test]
fn clearing_writes_rows_one_to_eight() {
    let expected: Vec<[u8; 2]> = (1..=8).map(|row| [row, 0]).collect();
    assert_eq!(clear_frames(), expected);
}

#[test]
fn pixel_rows_are_one_based() {
    assert_eq!(pixel_frame(0, 0), [1, 1]);
    assert_eq!(pixel_frame(3, 3), [4, 8]);
    assert_eq!(pixel_frame(7, 7), [8, 0x80]);
    assert_eq!(register_frame(0x0A, 0x08), [0x0A, 0x08]);
}

#[test]
fn vim_keys_map_to_directions_in_either_case() {
    assert_eq!(key_direction(b'h'), Some(Direction::Left));
    assert_eq!(key_direction(b'H'), Some(Direction::Left));
    assert_eq!(key_direction(b'j'), Some(Direction::Down));
    assert_eq!(key_direction(b'J'), Some(Direction::Down));
    assert_eq!(key_direction(b'k'), Some(Direction::Up));
    assert_eq!(key_direction(b'K'), Some(Direction::Up));
    assert_eq!(key_direction(b'l'), Some(Direction::Right));
    assert_eq!(key_direction(b'L'), Some(Direction::Right));
    assert_eq!(key_direction(b'x'), None);
    assert_eq!(key_direction(0), None);
}

#[test]
fn demo_dot_wraps_at_the_matrix_edges() {
    assert_eq!(wrap_step(0, -1), 7);
    assert_eq!(wrap_step(7, 1), 0);
    assert_eq!(wrap_step(3, 1), 4);
    assert_eq!(wrap_step(3, 0), 3);
    assert_eq!(wrap_step(4, -1), 3);
}

#[test]
fn last_pressed_button_wins() {
    assert_eq!(button_heading(false, false, false, false, (0, 1)), (0, 1));
    assert_eq!(button_heading(true, false, false, false, (0, 1)), (-1, 0));
    assert_eq!(button_heading(true, true, false, false, (0, 1)), (1, 0));
    assert_eq!(button_heading(true, true, true, false, (0, 1)), (0, -1));
    assert_eq!(button_heading(true, true, true, true, (1, 0)), (0, 1));
}
