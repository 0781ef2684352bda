//! Player input: the keys of a serial console and the direction buttons.
use vstd::prelude::*;
use crate::snake::Direction;

verus! {

/// The direction a console key asks for: the vim keys h, j, k and l, in
/// either case, for left, down, up and right.
pub open spec fn key_meaning(key: u8) -> Option<Direction> {
    if key == 0x68 || key == 0x48 {
        Some(Direction::Left)
    } else if key == 0x6a || key == 0x4a {
        Some(Direction::Down)
    } else if key == 0x6b || key == 0x4b {
        Some(Direction::Up)
    } else if key == 0x6c || key == 0x4c {
        Some(Direction::Right)
    } else {
        None
    }
}

/// The direction a console key asks for, if it is one of the vim keys.
pub fn key_direction(key: u8) -> (d: Option<Direction>)
    ensures
        d == key_meaning(key),
{
    // 'h' | 'H', 'j' | 'J', 'k' | 'K', 'l' | 'L'
    match key {
        0x68 | 0x48 => Some(Direction::Left),
        0x6a | 0x4a => Some(Direction::Down),
        0x6b | 0x4b => Some(Direction::Up),
        0x6c | 0x4c => Some(Direction::Right),
        _ => None,
    }
}

/// Milliseconds between two polls of a direction button.
pub const BUTTON_POLL_MILLIS: u64 = 100;

/// Milliseconds between two game ticks.
pub const TICK_MILLIS: u64 = 300;

/// A key and its other-case letter ask for the same direction.
pub proof fn lemma_key_case_insensitive(key: u8)
    requires
        0x41 <= key <= 0x5a,
    ensures
        key_meaning(key) == key_meaning((key + 0x20) as u8),
{
}

/// Only the eight letters h, j, k, l, H, J, K, L are directions, every
/// other byte (line feed, digits, punctuation, ...) none; each letter asks
/// for its own direction.
pub proof fn lemma_only_vim_keys_steer(key: u8)
    ensures
        key_meaning(key) is Some ==> (key == 0x68 || key == 0x6a || key == 0x6b || key == 0x6c
            || key == 0x48 || key == 0x4a || key == 0x4b || key == 0x4c),
        key_meaning(0x68) == Some(Direction::Left) && key_meaning(0x48) == Some(Direction::Left),
        key_meaning(0x6a) == Some(Direction::Down) && key_meaning(0x4a) == Some(Direction::Down),
        key_meaning(0x6b) == Some(Direction::Up) && key_meaning(0x4b) == Some(Direction::Up),
        key_meaning(0x6c) == Some(Direction::Right) && key_meaning(0x4c) == Some(Direction::Right),
{
}

} // verus!
