//! Frames drawn for the LED matrix besides the game itself: the final score
//! in a 3x5 digit font, and the blinking that ends a game.
use vstd::prelude::*;
use crate::pixels::{bit, in_matrix, pixel, light_pixel, dark_frame, lemma_full_bits, lemma_test_bit, lemma_zero_bits, lemma_bits_determine_byte};

verus! {

/// How many frames the end-of-game blinking shows, lit and dark in turn.
pub const BLINK_STEPS: u8 = 12;

/// Milliseconds the score stays on the matrix.
pub const SCORE_MILLIS: u64 = 2000;

/// Milliseconds each blinking frame stays on the matrix.
pub const BLINK_MILLIS: u64 = 100;

/// The 3x5 font: row `row` (top first) of digit `d`, its three pixels in
/// bits 2 (left) to 0 (right).
pub open spec fn glyph_row(d: int, row: int) -> u8 {
    let rows: Seq<u8> = if d == 0 {
        seq![0b111u8, 0b101u8, 0b101u8, 0b101u8, 0b111u8]
    } else if d == 1 {
        seq![0b001u8, 0b001u8, 0b001u8, 0b001u8, 0b001u8]
    } else if d == 2 {
        seq![0b111u8, 0b001u8, 0b111u8, 0b100u8, 0b111u8]
    } else if d == 3 {
        seq![0b111u8, 0b001u8, 0b111u8, 0b001u8, 0b111u8]
    } else if d == 4 {
        seq![0b101u8, 0b101u8, 0b111u8, 0b001u8, 0b001u8]
    } else if d == 5 {
        seq![0b111u8, 0b100u8, 0b111u8, 0b001u8, 0b111u8]
    } else if d == 6 {
        seq![0b111u8, 0b100u8, 0b111u8, 0b101u8, 0b111u8]
    } else if d == 7 {
        seq![0b111u8, 0b001u8, 0b010u8, 0b010u8, 0b010u8]
    } else if d == 8 {
        seq![0b111u8, 0b101u8, 0b111u8, 0b101u8, 0b111u8]
    } else {
        seq![0b111u8, 0b101u8, 0b111u8, 0b001u8, 0b001u8]
    };
    rows[row]
}

/// Drawing digit `d` with its top-left corner at `(x_offset, y_offset)`
/// lights the pixel in row `r`, column `c`: the LED at screen position
/// `(x, y)` is the pixel in row `7 - x`, column `y`, and font row `fy` is
/// drawn at `y = y_offset + 4 - fy`.
pub open spec fn digit_lights(d: int, x_offset: int, y_offset: int, r: int, c: int) -> bool {
    let fx = 7 - r - x_offset;
    let fy = y_offset + 4 - c;
    &&& 0 <= fx < 3
    &&& 0 <= fy < 5
    &&& bit(glyph_row(d, fy), (2 - fx) as u8)
}

/// The pixels of the score frame: two digits for a score from 10 on, the
/// ones digit alone below that.
pub open spec fn score_lights(score: int, r: int, c: int) -> bool {
    if score >= 10 {
        digit_lights(score / 10, 1, 2, r, c) || digit_lights(score % 10, 5, 2, r, c)
    } else {
        digit_lights(score % 10, 5, 2, r, c)
    }
}

/// The rows of digit `digit` in the 3x5 font.
fn glyph(digit: usize) -> (g: [u8; 5])
    requires
        digit < 10,
    ensures
        forall|row: int| 0 <= row < 5 ==> #[trigger] g@[row] == glyph_row(digit as int, row),
{
    let g = match digit {
        0 => [0b111, 0b101, 0b101, 0b101, 0b111],
        1 => [0b001, 0b001, 0b001, 0b001, 0b001],
        2 => [0b111, 0b001, 0b111, 0b100, 0b111],
        3 => [0b111, 0b001, 0b111, 0b001, 0b111],
        4 => [0b101, 0b101, 0b111, 0b001, 0b001],
        5 => [0b111, 0b100, 0b111, 0b001, 0b111],
        6 => [0b111, 0b100, 0b111, 0b101, 0b111],
        7 => [0b111, 0b001, 0b010, 0b010, 0b010],
        8 => [0b111, 0b101, 0b111, 0b101, 0b111],
        _ => [0b111, 0b101, 0b111, 0b001, 0b001],
    };
    g
}

/// Turns on the LED at screen position `(x, y)`, which the matrix wires to
/// row `7 - x`, column `y` of the frame.
pub fn turn_on_led(frame: &mut [u8; 8], x: u8, y: u8)
    requires
        x < 8,
        y < 8,
    ensures
        final(frame)@ == old(frame)@.update(7 - x, old(frame)@[7 - x] | (1u8 << y)),
        forall|r: int, c: int|
            in_matrix(r, c) ==> #[trigger] pixel(final(frame)@, r, c) == (pixel(old(frame)@, r, c)
                || (r == 7 - x && c == y)),
{
    let hardware_x = y;
    let hardware_y = 7 - x;
    light_pixel(frame, hardware_y as usize, hardware_x);
}

/// Draws digit `digit` with its top-left corner at `(x_offset, y_offset)`,
/// adding its pixels to those already lit.
pub fn draw_digit(frame: &mut [u8; 8], digit: usize, x_offset: u8, y_offset: u8)
    requires
        digit < 10,
        x_offset <= 5,
        y_offset <= 3,
    ensures
        forall|r: int, c: int|
            in_matrix(r, c) ==> #[trigger] pixel(final(frame)@, r, c) == (pixel(old(frame)@, r, c)
                || digit_lights(digit as int, x_offset as int, y_offset as int, r, c)),
{
    let g = glyph(digit);
    let mut y: u8 = 0;
    while y < 5
        invariant
            y <= 5,
            digit < 10,
            x_offset <= 5,
            y_offset <= 3,
            forall|row: int| 0 <= row < 5 ==> #[trigger] g@[row] == glyph_row(digit as int, row),
            forall|r: int, c: int|
                in_matrix(r, c) ==> #[trigger] pixel(frame@, r, c) == (pixel(old(frame)@, r, c) || (
                digit_lights(digit as int, x_offset as int, y_offset as int, r, c) && y_offset + 4
                    - c < y)),
        decreases 5 - y,
    {
        let mut x: u8 = 0;
        while x < 3
            invariant
                x <= 3,
                y < 5,
                digit < 10,
                x_offset <= 5,
                y_offset <= 3,
                forall|row: int| 0 <= row < 5 ==> #[trigger] g@[row] == glyph_row(digit as int, row),
                forall|r: int, c: int|
                    in_matrix(r, c) ==> #[trigger] pixel(frame@, r, c) == (pixel(old(frame)@, r, c)
                        || (digit_lights(digit as int, x_offset as int, y_offset as int, r, c) && (
                    y_offset + 4 - c < y || (y_offset + 4 - c == y && 7 - r - x_offset < x)))),
            decreases 3 - x,
        {
            proof {
                lemma_test_bit(g@[y as int], (2 - x) as u8);
            }
            if g[y as usize] & (1u8 << (2 - x)) != 0 {
                let ghost before = frame@;
                turn_on_led(frame, x_offset + x, y_offset + (4 - y));
                proof {
                    assert forall|r: int, c: int| in_matrix(r, c) implies #[trigger] pixel(frame@, r, c)
                        == (pixel(old(frame)@, r, c) || (digit_lights(
                        digit as int,
                        x_offset as int,
                        y_offset as int,
                        r,
                        c,
                    ) && (y_offset + 4 - c < y || (y_offset + 4 - c == y && 7 - r - x_offset < x
                        + 1)))) by {
                        assert(pixel(frame@, r, c) == (pixel(before, r, c) || (r == 7 - (x_offset
                            + x) && c == y_offset + (4 - y))));
                    }
                }
            }
            x = x + 1;
        }
        y = y + 1;
    }
}

/// The frame that shows `score`: tens and ones side by side from 10 on,
/// the ones digit alone on the right below that.
pub fn score_frame(score: u8) -> (f: [u8; 8])
    requires
        score < 100,
    ensures
        forall|r: int, c: int|
            in_matrix(r, c) ==> #[trigger] pixel(f@, r, c) == score_lights(score as int, r, c),
{
    let tens = score / 10;
    let ones = score % 10;
    let has_tens = tens > 0;
    let mut frame = dark_frame();
    if has_tens {
        draw_digit(&mut frame, tens as usize, 1, 2);
        draw_digit(&mut frame, ones as usize, 5, 2);
    } else {
        draw_digit(&mut frame, ones as usize, 5, 2);
    }
    frame
}

/// Frame `step` of the end-of-game blinking: all lit on even steps, all
/// dark on odd ones.
pub fn blink_frame(step: u8) -> (f: [u8; 8])
    ensures
        forall|i: int| 0 <= i < 8 ==> f@[i] == if step % 2 == 0 {
            0xffu8
        } else {
            0u8
        },
        forall|r: int, c: int| in_matrix(r, c) ==> #[trigger] pixel(f@, r, c) == (step % 2 == 0),
{
    let f = if step % 2 == 0 {
        [0xffu8; 8]
    } else {
        dark_frame()
    };
    proof {
        assert forall|r: int, c: int| in_matrix(r, c) implies #[trigger] pixel(f@, r, c) == (step % 2
            == 0) by {
            if step % 2 == 0 {
                lemma_full_bits(c as u8);
            }
        }
    }
    f
}


/// The 3x5 font, row by row from the top, each row's pixels in bits 2
/// (left) to 0 (right):
/// 0 `111 101 101 101 111`, 1 `001 001 001 001 001`, 2 `111 001 111 100 111`,
/// 3 `111 001 111 001 111`, 4 `101 101 111 001 001`, 5 `111 100 111 001 111`,
/// 6 `111 100 111 101 111`, 7 `111 001 010 010 010`, 8 `111 101 111 101 111`,
/// 9 `111 101 111 001 001`.
pub proof fn lemma_font_table()
    ensures
        glyph_row(0, 0) == 0b111, glyph_row(0, 1) == 0b101, glyph_row(0, 2) == 0b101, glyph_row(0, 3) == 0b101, glyph_row(0, 4) == 0b111,
        glyph_row(1, 0) == 0b001, glyph_row(1, 1) == 0b001, glyph_row(1, 2) == 0b001, glyph_row(1, 3) == 0b001, glyph_row(1, 4) == 0b001,
        glyph_row(2, 0) == 0b111, glyph_row(2, 1) == 0b001, glyph_row(2, 2) == 0b111, glyph_row(2, 3) == 0b100, glyph_row(2, 4) == 0b111,
        glyph_row(3, 0) == 0b111, glyph_row(3, 1) == 0b001, glyph_row(3, 2) == 0b111, glyph_row(3, 3) == 0b001, glyph_row(3, 4) == 0b111,
        glyph_row(4, 0) == 0b101, glyph_row(4, 1) == 0b101, glyph_row(4, 2) == 0b111, glyph_row(4, 3) == 0b001, glyph_row(4, 4) == 0b001,
        glyph_row(5, 0) == 0b111, glyph_row(5, 1) == 0b100, glyph_row(5, 2) == 0b111, glyph_row(5, 3) == 0b001, glyph_row(5, 4) == 0b111,
        glyph_row(6, 0) == 0b111, glyph_row(6, 1) == 0b100, glyph_row(6, 2) == 0b111, glyph_row(6, 3) == 0b101, glyph_row(6, 4) == 0b111,
        glyph_row(7, 0) == 0b111, glyph_row(7, 1) == 0b001, glyph_row(7, 2) == 0b010, glyph_row(7, 3) == 0b010, glyph_row(7, 4) == 0b010,
        glyph_row(8, 0) == 0b111, glyph_row(8, 1) == 0b101, glyph_row(8, 2) == 0b111, glyph_row(8, 3) == 0b101, glyph_row(8, 4) == 0b111,
        glyph_row(9, 0) == 0b111, glyph_row(9, 1) == 0b101, glyph_row(9, 2) == 0b111, glyph_row(9, 3) == 0b001, glyph_row(9, 4) == 0b001,
{
}

/// Every font row is three pixels wide.
proof fn lemma_rows_narrow(d: int, row: int)
    requires
        0 <= d < 10,
        0 <= row < 5,
    ensures
        glyph_row(d, row) < 8,
{
    lemma_font_table();
}

/// Distinct digits have distinct glyphs: some row differs.
pub proof fn lemma_digits_differ(a: int, b: int)
    requires
        0 <= a < 10,
        0 <= b < 10,
        a != b,
    ensures
        exists|row: int| 0 <= row < 5 && #[trigger] glyph_row(a, row) != glyph_row(b, row),
{
    lemma_font_table();
    assert(glyph_row(a, 0) == glyph_row(a, 0) && glyph_row(b, 0) == glyph_row(b, 0));
    assert(glyph_row(a, 1) == glyph_row(a, 1) && glyph_row(b, 1) == glyph_row(b, 1));
    assert(glyph_row(a, 2) == glyph_row(a, 2) && glyph_row(b, 2) == glyph_row(b, 2));
    assert(glyph_row(a, 3) == glyph_row(a, 3) && glyph_row(b, 3) == glyph_row(b, 3));
    assert(glyph_row(a, 4) == glyph_row(a, 4) && glyph_row(b, 4) == glyph_row(b, 4));
}


/// Bits 3 to 7 of a font row are clear.
proof fn lemma_narrow_high_bits(v: u8, k: u8)
    requires
        v < 8,
        3 <= k < 8,
    ensures
        !bit(v, k),
{
    assert(!bit(v, k)) by (bit_vector)
        requires
            v < 8,
            3 <= k < 8,
    ;
}

/// Two different font rows differ in one of their three pixels.
proof fn lemma_rows_differ_in_a_pixel(v: u8, w: u8)
    requires
        v < 8,
        w < 8,
        v != w,
    ensures
        exists|k: u8| k < 3 && #[trigger] bit(v, k) != bit(w, k),
{
    if forall|k: u8| k < 3 ==> #[trigger] bit(v, k) == bit(w, k) {
        assert forall|i: u8| i < 8 implies bit(v, i) == bit(w, i) by {
            if i >= 3 {
                lemma_narrow_high_bits(v, i);
                lemma_narrow_high_bits(w, i);
            }
        }
        lemma_bits_determine_byte(v, w);
    }
}

/// The pixel of font row `fy`, bit `k`, of the ones digit of a score; no
/// pixel of the tens digit lies there.
proof fn lemma_ones_pixel(d: int, t: int, fy: int, k: u8)
    requires
        0 <= fy < 5,
        k < 3,
    ensures
        digit_lights(d, 5, 2, k as int, 6 - fy) == bit(glyph_row(d, fy), k),
        !digit_lights(t, 1, 2, k as int, 6 - fy),
{
}

/// The pixel of font row `fy`, bit `k`, of the tens digit of a score; no
/// pixel of the ones digit lies there.
proof fn lemma_tens_pixel(d: int, t: int, fy: int, k: u8)
    requires
        0 <= fy < 5,
        k < 3,
    ensures
        digit_lights(d, 1, 2, k + 4, 6 - fy) == bit(glyph_row(d, fy), k),
        !digit_lights(t, 5, 2, k + 4, 6 - fy),
{
}

/// Different scores below 100 are shown by different pixels.
pub proof fn lemma_scores_look_different(a: int, b: int)
    requires
        0 <= a < 100,
        0 <= b < 100,
        a != b,
    ensures
        exists|r: int, c: int| in_matrix(r, c) && #[trigger] score_lights(a, r, c) != score_lights(b, r, c),
{
    lemma_font_table();
    if a % 10 != b % 10 {
        lemma_digits_differ(a % 10, b % 10);
        let fy = choose|row: int| 0 <= row < 5 && #[trigger] glyph_row(a % 10, row) != glyph_row(b % 10, row);
        lemma_rows_narrow(a % 10, fy);
        lemma_rows_narrow(b % 10, fy);
        lemma_rows_differ_in_a_pixel(glyph_row(a % 10, fy), glyph_row(b % 10, fy));
        let k = choose|k: u8| k < 3 && #[trigger] bit(glyph_row(a % 10, fy), k) != bit(glyph_row(b % 10, fy), k);
        lemma_ones_pixel(a % 10, a / 10, fy, k);
        lemma_ones_pixel(b % 10, b / 10, fy, k);
        assert(score_lights(a, k as int, 6 - fy) != score_lights(b, k as int, 6 - fy));
    } else if a >= 10 && b >= 10 {
        assert(a / 10 != b / 10);
        lemma_digits_differ(a / 10, b / 10);
        let fy = choose|row: int| 0 <= row < 5 && #[trigger] glyph_row(a / 10, row) != glyph_row(b / 10, row);
        lemma_rows_narrow(a / 10, fy);
        lemma_rows_narrow(b / 10, fy);
        lemma_rows_differ_in_a_pixel(glyph_row(a / 10, fy), glyph_row(b / 10, fy));
        let k = choose|k: u8| k < 3 && #[trigger] bit(glyph_row(a / 10, fy), k) != bit(glyph_row(b / 10, fy), k);
        lemma_tens_pixel(a / 10, a % 10, fy, k);
        lemma_tens_pixel(b / 10, b % 10, fy, k);
        assert(score_lights(a, k + 4, 6 - fy) != score_lights(b, k + 4, 6 - fy));
    } else {
        // one score has a tens digit, the other has none
        let t = if a >= 10 { a / 10 } else { b / 10 };
        let o = if a >= 10 { b % 10 } else { a % 10 };
        assert(1 <= t < 10);
        lemma_rows_narrow(t, 0);
        lemma_rows_differ_in_a_pixel(glyph_row(t, 0), 0u8);
        let k = choose|k: u8| k < 3 && #[trigger] bit(glyph_row(t, 0), k) != bit(0u8, k);
        lemma_zero_bits(k);
        lemma_tens_pixel(t, o, 0, k);
        assert(score_lights(a, k + 4, 6) != score_lights(b, k + 4, 6));
    }
}

/// Score frames of different scores below 100 differ.
pub proof fn lemma_score_frames_differ(a: int, b: int, f: Seq<u8>, g: Seq<u8>)
    requires
        0 <= a < 100,
        0 <= b < 100,
        a != b,
        forall|r: int, c: int| in_matrix(r, c) ==> #[trigger] pixel(f, r, c) == score_lights(a, r, c),
        forall|r: int, c: int| in_matrix(r, c) ==> #[trigger] pixel(g, r, c) == score_lights(b, r, c),
    ensures
        f != g,
{
    lemma_scores_look_different(a, b);
    let (r, c) = choose|r: int, c: int| in_matrix(r, c) && #[trigger] score_lights(a, r, c) != score_lights(b, r, c);
    assert(pixel(f, r, c) != pixel(g, r, c));
}

} // verus!
