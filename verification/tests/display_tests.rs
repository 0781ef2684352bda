use snake_card::display::{blink_frame, draw_digit, score_frame, turn_on_led, BLINK_STEPS};

#[test]
fn single_digit_score_is_drawn_on_the_right() {
    assert_eq!(score_frame(7), [0x60, 0x5C, 0x40, 0, 0, 0, 0, 0]);
}

#[test]
fn two_digit_score_shows_tens_and_ones() {
    assert_eq!(score_frame(10), [0x7C, 0x44, 0x7C, 0, 0x7C, 0, 0, 0]);
}

#[test]
fn zero_score_shows_a_zero() {
    assert_eq!(score_frame(0), [0x7C, 0x44, 0x7C, 0, 0, 0, 0, 0]);
}

#[test]
fn led_at_origin_is_the_last_row_first_column() {
    let mut frame = [0u8; 8];
    turn_on_led(&mut frame, 0, 0);
    assert_eq!(frame, [0, 0, 0, 0, 0, 0, 0, 1]);
    turn_on_led(&mut frame, 7, 7);
    assert_eq!(frame, [0x80, 0, 0, 0, 0, 0, 0, 1]);
}

#[test]
fn turning_on_a_lit_led_changes_nothing() {
    let mut frame = [0u8; 8];
    turn_on_led(&mut frame, 2, 3);
    let once = frame;
    turn_on_led(&mut frame, 2, 3);
    assert_eq!(frame, once);
}

#[test]
fn drawing_keeps_pixels_already_lit() {
    let mut frame = [0u8; 8];
    frame[7] = 0x01;
    draw_digit(&mut frame, 7, 5, 2);
    assert_eq!(frame, [0x60, 0x5C, 0x40, 0, 0, 0, 0, 0x01]);
}

#[test]
fn blinking_alternates_lit_and_dark() {
    assert_eq!(BLINK_STEPS, 12);
    for step in 0..BLINK_STEPS {
        let expected = if step % 2 == 0 { [0xFF; 8] } else { [0x00; 8] };
        assert_eq!(blink_frame(step), expected);
    }
}
