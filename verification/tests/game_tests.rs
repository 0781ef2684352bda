use snake_card::game::{rotate_for_display, Game, FOOD_DRAWS};
use snake_card::snake::Direction;

/// Draws whose first attempt lands on `(x, y)`, the rest on the snake's
/// starting corner.
fn draws_at(x: u32, y: u32) -> [u32; FOOD_DRAWS] {
    let mut d = [0u32; FOOD_DRAWS];
    d[0] = x;
    d[1] = y;
    d
}

#[test]
fn new_game_places_food_on_first_free_draw() {
    // (8, 9) reduces to (0, 1), which is free.
    let game = Game::new(&draws_at(8, 9));
    assert!(game.is_running());
    assert_eq!(game.score, 0);
    // head (0, 0) and food (0, 1), turned for the display
    assert_eq!(game.frame(), [0, 0, 0, 0, 0, 0, 0, 0xC0]);
}

#[test]
fn food_placement_skips_occupied_cells() {
    let mut d = [0u32; FOOD_DRAWS];
    // the first attempt hits the snake's head at (0, 0), the second is free
    d[2] = 3;
    d[3] = 4;
    let game = Game::new(&d);
    assert!(game.is_running());
    assert_eq!(game.frame(), [0, 0, 0, 0, 0x08, 0, 0, 0x80]);
}

#[test]
fn new_game_stops_when_every_draw_hits_the_snake() {
    let game = Game::new(&[0u32; FOOD_DRAWS]);
    assert!(!game.is_running());
    assert_eq!(game.frame(), [0u8; 8]);
}

#[test]
fn eating_food_scores_and_places_new_food() {
    let mut game = Game::new(&draws_at(1, 0));
    game.tick(&draws_at(5, 5));
    assert!(game.is_running());
    assert_eq!(game.score, 1);
    // the head and the new body segment share (1, 0); the food is at (5, 5)
    let f = game.frame();
    assert_eq!(f[6], 0x80); // head (1, 0)
    assert_eq!(f[2], 0x04); // food (5, 5)
}

#[test]
fn leaving_the_board_stops_the_game() {
    let mut game = Game::new(&draws_at(4, 4));
    game.change_direction(Direction::Up);
    game.tick(&draws_at(4, 4));
    assert!(!game.is_running());
    assert_eq!(game.frame(), [0u8; 8]);
}

#[test]
fn reversal_request_is_ignored_by_the_game() {
    let mut game = Game::new(&draws_at(4, 4));
    game.change_direction(Direction::Left);
    game.tick(&draws_at(4, 4));
    // still heading right: the head is now at (1, 0)
    assert!(game.is_running());
    assert_eq!(game.frame(), [0, 0, 0, 0x08, 0, 0, 0x80, 0]);
}

#[test]
fn stopped_game_does_not_change_on_tick() {
    let mut game = Game::new(&draws_at(4, 4));
    game.change_direction(Direction::Up);
    game.tick(&draws_at(4, 4));
    assert!(!game.is_running());
    game.tick(&draws_at(1, 1));
    assert!(!game.is_running());
    assert_eq!(game.score, 0);
}

#[test]
fn reset_starts_a_new_game() {
    let mut game = Game::new(&draws_at(1, 0));
    game.tick(&draws_at(5, 5));
    game.change_direction(Direction::Up);
    game.tick(&draws_at(5, 5));
    assert!(!game.is_running());
    game.reset(&draws_at(3, 4));
    assert!(game.is_running());
    assert_eq!(game.score, 0);
    assert_eq!(game.frame(), [0, 0, 0, 0, 0x08, 0, 0, 0x80]);
}

#[test]
fn board_is_not_full_in_a_young_game() {
    let game = Game::new(&draws_at(1, 0));
    assert!(!game.next_tick_fills_board());
}

#[test]
fn rotating_twice_restores_the_frame() {
    let frame = [0x12, 0x34, 0x56, 0x78, 0x9A, 0xBC, 0xDE, 0xF0];
    assert_eq!(rotate_for_display(&rotate_for_display(&frame)), frame);
}

#[test]
fn rotation_moves_each_pixel_across_the_anti_diagonal() {
    for y in 0..8usize {
        for x in 0..8u8 {
            let mut frame = [0u8; 8];
            frame[y] = 1 << x;
            let mut expected = [0u8; 8];
            expected[7 - x as usize] = 1 << (7 - y);
            assert_eq!(rotate_for_display(&frame), expected);
        }
    }
}

/// A cycle through all 64 cells: row 0 left to right, rows 1 to 7 in a
/// zigzag over columns 1 to 7, then column 0 back up.
fn board_cycle() -> Vec<(u8, u8)> {
    let mut p: Vec<(u8, u8)> = (0..8).map(|x| (x, 0)).collect();
    for y in 1..8u8 {
        if y % 2 == 1 {
            p.extend((1..8).rev().map(|x| (x, y)));
        } else {
            p.extend((1..8).map(|x| (x, y)));
        }
    }
    p.extend((1..8).rev().map(|y| (0, y)));
    p
}

fn direction(from: (u8, u8), to: (u8, u8)) -> Direction {
    if to.0 > from.0 {
        Direction::Right
    } else if to.0 < from.0 {
        Direction::Left
    } else if to.1 > from.1 {
        Direction::Down
    } else {
        Direction::Up
    }
}

#[test]
fn a_snake_about_to_cover_the_board_is_detected() {
    let p = board_cycle();
    assert_eq!(p.len(), 64);
    let mut game = Game::new(&draws_at(p[1].0 as u32, p[1].1 as u32));
    for k in 1..64 {
        game.change_direction(direction(p[k - 1], p[k]));
        assert!(!game.next_tick_fills_board());
        let next_food = p[(k + 1) % 64];
        game.tick(&draws_at(next_food.0 as u32, next_food.1 as u32));
        assert!(game.is_running());
        assert_eq!(game.score as usize, k);
    }
    game.change_direction(direction(p[63], p[0]));
    assert!(game.next_tick_fills_board());
}

#[test]
fn score_reads_the_eaten_food() {
    let mut game = Game::new(&draws_at(1, 0));
    assert_eq!(game.score(), 0);
    game.tick(&draws_at(3, 0));
    assert_eq!(game.score(), 1);
    game.tick(&draws_at(6, 6));
    assert_eq!(game.score(), 1);
    game.tick(&draws_at(6, 6));
    assert_eq!(game.score(), 2);
    assert_eq!(game.score(), game.score);
}
