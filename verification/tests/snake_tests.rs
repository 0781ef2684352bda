use snake_card::snake::{opposite_direction, Direction, Snake};

#[test]
fn new_initializes_head_direction_and_empty_body() {
    let snake = Snake::new(3, 5, Direction::Up);

    assert_eq!(snake.head_x, 3);
    assert_eq!(snake.head_y, 5);
    assert_eq!(snake.body_segments(), &[]);
}

#[test]
fn set_direction_updates_to_a_perpendicular_direction() {
    let mut snake = Snake::new(0, 0, Direction::Right);

    snake.set_direction(Direction::Up);
    snake.advance();

    assert_eq!(snake.head_x, 0);
    assert_eq!(snake.head_y, u8::MAX);
}

#[test]
fn set_direction_ignores_direct_reversal() {
    let mut snake = Snake::new(4, 4, Direction::Right);

    // Attempting to reverse straight into itself must be ignored.
    snake.set_direction(Direction::Left);
    snake.advance();

    // Direction should still be Right, so the head moves right, not left.
    assert_eq!(snake.head_x, 5);
    assert_eq!(snake.head_y, 4);
}

#[test]
fn set_direction_allows_reversal_after_a_turn() {
    let mut snake = Snake::new(4, 4, Direction::Right);

    snake.set_direction(Direction::Up);
    snake.set_direction(Direction::Left);
    snake.advance();

    assert_eq!(snake.head_x, 3);
    assert_eq!(snake.head_y, 4);
}

#[test]
fn advance_moves_head_in_each_direction() {
    let mut right = Snake::new(3, 3, Direction::Right);
    right.advance();
    assert_eq!((right.head_x, right.head_y), (4, 3));

    let mut left = Snake::new(3, 3, Direction::Left);
    left.advance();
    assert_eq!((left.head_x, left.head_y), (2, 3));

    let mut up = Snake::new(3, 3, Direction::Up);
    up.advance();
    assert_eq!((up.head_x, up.head_y), (3, 2));

    let mut down = Snake::new(3, 3, Direction::Down);
    down.advance();
    assert_eq!((down.head_x, down.head_y), (3, 4));
}

#[test]
fn advance_without_body_does_not_grow_trail() {
    let mut snake = Snake::new(0, 0, Direction::Right);

    snake.advance();
    snake.advance();

    assert_eq!(snake.body_segments(), &[]);
}

#[test]
fn advance_shifts_body_to_follow_the_head() {
    let mut snake = Snake::new(0, 0, Direction::Right);

    snake.advance(); // head -> (1, 0)
    snake.grow(); // body: [(1, 0)]
    snake.advance(); // head -> (2, 0), body: [(1, 0)]

    assert_eq!(snake.head_x, 2);
    assert_eq!(snake.head_y, 0);
    assert_eq!(snake.body_segments(), &[(1, 0)]);

    snake.grow(); // body: [(1, 0), (1, 0)]
    snake.advance(); // head -> (3, 0), body shifts: [(2, 0), (1, 0)]

    assert_eq!(snake.head_x, 3);
    assert_eq!(snake.head_y, 0);
    assert_eq!(snake.body_segments(), &[(2, 0), (1, 0)]);
}

#[test]
fn is_outside_detects_wraparound_past_the_left_and_top_edges() {
    let mut left_edge = Snake::new(0, 0, Direction::Left);
    left_edge.advance();
    assert!(left_edge.is_outside());

    let mut top_edge = Snake::new(0, 0, Direction::Up);
    top_edge.advance();
    assert!(top_edge.is_outside());
}

#[test]
fn is_outside_detects_overflow_past_the_right_and_bottom_edges() {
    let mut right_edge = Snake::new(7, 0, Direction::Right);
    right_edge.advance();
    assert!(right_edge.is_outside());

    let mut bottom_edge = Snake::new(0, 7, Direction::Down);
    bottom_edge.advance();
    assert!(bottom_edge.is_outside());
}

#[test]
fn is_outside_is_false_within_bounds() {
    let snake = Snake::new(7, 7, Direction::Right);
    assert!(!snake.is_outside());

    let origin = Snake::new(0, 0, Direction::Right);
    assert!(!origin.is_outside());
}

#[test]
fn grow_from_empty_body_duplicates_current_head_position() {
    let mut snake = Snake::new(2, 2, Direction::Right);

    snake.grow();

    assert_eq!(snake.body_segments(), &[(2, 2)]);
}

#[test]
fn grow_from_non_empty_body_duplicates_the_tail_segment() {
    let mut snake = Snake::new(0, 0, Direction::Right);
    snake.advance(); // head -> (1, 0)
    snake.grow(); // body: [(1, 0)]
    snake.advance(); // head -> (2, 0), body: [(1, 0)]
    snake.grow(); // body: [(1, 0), (1, 0)] duplicates current tail

    assert_eq!(snake.body_segments(), &[(1, 0), (1, 0)]);
}

#[test]
fn occupies_matches_head_position() {
    let snake = Snake::new(5, 6, Direction::Right);

    assert!(snake.occupies(5, 6));
    assert!(!snake.occupies(0, 0));
}

#[test]
fn occupies_matches_body_positions() {
    let mut snake = Snake::new(0, 0, Direction::Right);
    snake.advance(); // head -> (1, 0)
    snake.grow(); // body: [(1, 0)]

    assert!(snake.occupies(1, 0));
    assert!(!snake.occupies(2, 2));
}

#[test]
fn collides_with_self_is_false_without_overlap() {
    let mut snake = Snake::new(0, 0, Direction::Right);
    snake.advance();
    snake.grow();

    assert!(!snake.collides_with_self());
}

#[test]
fn collides_with_self_detects_overlap_after_looping_back() {
    let mut snake = Snake::new(0, 0, Direction::Right);

    snake.advance(); // head -> (1, 0)
    snake.grow(); // body: [(1, 0)]

    snake.set_direction(Direction::Down);
    snake.advance(); // head -> (1, 1)
    snake.grow(); // body: [(1, 0), (1, 0)]

    snake.set_direction(Direction::Left);
    snake.advance(); // head -> (0, 1)
    snake.grow(); // body: [(1, 1), (1, 0), (1, 0)]

    snake.set_direction(Direction::Up);
    snake.advance(); // head -> (0, 0)
    assert!(!snake.collides_with_self());
    snake.grow(); // body: [(0, 1), (1, 1), (1, 0), (1, 0)]

    snake.set_direction(Direction::Right);
    snake.advance(); // head -> (1, 0), which is now part of the body

    assert_eq!(snake.head_x, 1);
    assert_eq!(snake.head_y, 0);
    assert!(snake.collides_with_self());
}

#[test]
fn opposite_directions_pair_up() {
    for d in [Direction::Left, Direction::Right, Direction::Up, Direction::Down] {
        assert_ne!(opposite_direction(d), d);
        assert_eq!(opposite_direction(opposite_direction(d)), d);
    }
    assert_eq!(opposite_direction(Direction::Left), Direction::Right);
    assert_eq!(opposite_direction(Direction::Up), Direction::Down);
}

#[test]
fn stepping_back_returns_even_across_the_wrap() {
    let mut snake = Snake::new(0, 0, Direction::Left);
    snake.advance();
    assert_eq!((snake.head_x, snake.head_y), (u8::MAX, 0));
    // a perpendicular turn then a reversal, so the head may come back
    snake.set_direction(Direction::Up);
    snake.set_direction(Direction::Right);
    snake.advance();
    assert_eq!((snake.head_x, snake.head_y), (0, 0));
}

#[test]
fn growing_twice_then_advancing_keeps_length() {
    let mut snake = Snake::new(2, 2, Direction::Down);
    snake.grow();
    snake.grow();
    assert_eq!(snake.body_segments(), &[(2, 2), (2, 2)]);
    snake.advance();
    assert_eq!(snake.body_segments(), &[(2, 2), (2, 2)]);
    snake.advance();
    assert_eq!(snake.body_segments(), &[(2, 3), (2, 2)]);
    assert_eq!((snake.head_x, snake.head_y), (2, 4));
}

#[test]
fn body_can_hold_sixty_three_segments() {
    let mut snake = Snake::new(0, 0, Direction::Right);
    for _ in 0..63 {
        snake.grow();
    }
    assert_eq!(snake.body_segments().len(), 63);
    snake.advance();
    assert_eq!(snake.body_segments().len(), 63);
    assert_eq!(snake.body_segments()[0], (0, 0));
    assert!(snake.occupies(1, 0));
    assert!(!snake.collides_with_self());
}

#[test]
fn snake_stays_a_connected_chain() {
    fn linked(p: (u8, u8), q: (u8, u8)) -> bool {
        let dx = p.0.wrapping_sub(q.0);
        let dy = p.1.wrapping_sub(q.1);
        p == q || (p.1 == q.1 && (dx == 1 || dx == u8::MAX)) || (p.0 == q.0 && (dy == 1 || dy == u8::MAX))
    }
    let mut snake = Snake::new(0, 0, Direction::Left);
    let turns = [Direction::Down, Direction::Right, Direction::Up, Direction::Right, Direction::Down];
    for step in 0..40 {
        if step % 3 == 0 {
            snake.grow();
        }
        if step % 4 == 0 {
            snake.set_direction(turns[step / 4 % turns.len()]);
        }
        snake.advance();
        let mut cells = vec![(snake.head_x, snake.head_y)];
        cells.extend_from_slice(snake.body_segments());
        for pair in cells.windows(2) {
            assert!(linked(pair[0], pair[1]), "{:?} and {:?} are apart", pair[0], pair[1]);
        }
    }
}
