//! The single-pixel demo that tests the matrix and the buttons: a dot walks
//! across the matrix, wrapping at its edges, in the direction last pressed.
use vstd::prelude::*;

verus! {

/// Milliseconds between two steps of the dot.
pub const STEP_MILLIS: u64 = 150;

/// `pos` moved by `delta` around a ring of 8 cells: the position read as an
/// `i8`, plus `delta`, taken modulo 8 (the remainder is never negative).
pub fn wrap_step(pos: u8, delta: i8) -> (r: u8)
    requires
        i8::MIN <= (pos as i8) + delta <= i8::MAX,
    ensures
        r as int == ((pos as i8) + delta) % 8,
{
    let s: i8 = pos as i8 + delta;
    let t: u16 = (s as i16 + 128) as u16;
    assert(t as int == s + 128);
    assert((s + 128) % 8 == s % 8) by (nonlinear_arith);
    (t % 8) as u8
}

/// The step `(row, col)` the dot takes after reading the buttons: each
/// pressed button sets its step, later ones overriding earlier ones in the
/// order up, down, left, right; with none pressed the step stays.
pub open spec fn heading_after(
    up: bool,
    down: bool,
    left: bool,
    right: bool,
    current: (i8, i8),
) -> (i8, i8) {
    if right {
        (0i8, 1i8)
    } else if left {
        (0i8, -1i8)
    } else if down {
        (1i8, 0i8)
    } else if up {
        (-1i8, 0i8)
    } else {
        current
    }
}

/// The step the dot takes after reading the buttons.
pub fn button_heading(up: bool, down: bool, left: bool, right: bool, current: (i8, i8)) -> (r: (
    i8,
    i8,
))
    ensures
        r == heading_after(up, down, left, right, current),
{
    let mut step = current;
    if up {
        step = (-1, 0);
    }
    if down {
        step = (1, 0);
    }
    if left {
        step = (0, -1);
    }
    if right {
        step = (0, 1);
    }
    step
}

/// A dot on the ring stays on the ring and comes back after a step forth and
/// a step back.
pub proof fn lemma_step_back_returns(pos: int, delta: int)
    requires
        0 <= pos < 8,
    ensures
        0 <= (pos + delta) % 8 < 8,
        ((pos + delta) % 8 - delta) % 8 == pos,
{
    assert(((pos + delta) % 8 - delta) % 8 == pos) by (nonlinear_arith)
        requires
            0 <= pos < 8,
    ;
}

/// Each pressed button sets its own step whatever the others and the
/// current step: right wins over left, left over down, down over up; a
/// button pressed alone always takes effect; with none pressed the step
/// stays.
pub proof fn lemma_pressed_button_sets_step(
    up: bool,
    down: bool,
    left: bool,
    right: bool,
    current: (i8, i8),
)
    ensures
        right ==> heading_after(up, down, left, right, current) == (0i8, 1i8),
        !right && left ==> heading_after(up, down, left, right, current) == (0i8, -1i8),
        !right && !left && down ==> heading_after(up, down, left, right, current) == (1i8, 0i8),
        !right && !left && !down && up ==> heading_after(up, down, left, right, current) == (
            -1i8,
            0i8,
        ),
        !right && !left && !down && !up ==> heading_after(up, down, left, right, current)
            == current,
{
}

} // verus!
