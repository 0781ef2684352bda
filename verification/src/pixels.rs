//! Bits of an 8x8 LED frame: one byte per row, bit `c` of a row byte is the
//! pixel in column `c`.
use vstd::prelude::*;

verus! {

/// Side length of the square LED matrix.
pub const BOARD_SIZE: u8 = 8;

/// Bit `i` of the byte `b` is set.
pub open spec fn bit(b: u8, i: u8) -> bool {
    (b >> i) & 1u8 == 1u8
}

/// The pixel in row `row` and column `col` of a frame is lit.
pub open spec fn pixel(frame: Seq<u8>, row: int, col: int) -> bool {
    bit(frame[row], col as u8)
}

/// A row and column index of the matrix.
pub open spec fn in_matrix(row: int, col: int) -> bool {
    0 <= row < 8 && 0 <= col < 8
}

/// Turns on the pixel in row `row` and column `col`; every other pixel keeps
/// its state.
pub fn light_pixel(frame: &mut [u8; 8], row: usize, col: u8)
    requires
        row < 8,
        col < 8,
    ensures
        final(frame)@ == old(frame)@.update(row as int, old(frame)@[row as int] | (1u8 << col)),
        forall|r: int, c: int|
            in_matrix(r, c) ==> #[trigger] pixel(final(frame)@, r, c) == (pixel(old(frame)@, r, c)
                || (r == row && c == col)),
{
    let v = frame[row] | (1u8 << col);
    frame[row] = v;
    proof {
        assert forall|r: int, c: int| in_matrix(r, c) implies #[trigger] pixel(frame@, r, c) == (
        pixel(old(frame)@, r, c) || (r == row && c == col)) by {
            if r == row {
                lemma_set_bit(old(frame)@[r], col, c as u8);
            }
        }
    }
}

/// The all-dark frame.
pub fn dark_frame() -> (f: [u8; 8])
    ensures
        forall|i: int| 0 <= i < 8 ==> f@[i] == 0,
        forall|r: int, c: int| in_matrix(r, c) ==> !#[trigger] pixel(f@, r, c),
{
    let f = [0u8; 8];
    proof {
        assert forall|r: int, c: int| in_matrix(r, c) implies !#[trigger] pixel(f@, r, c) by {
            lemma_zero_bits(c as u8);
        }
    }
    f
}

/// Setting bit `k` leaves every other bit as it was and turns bit `k` on.
pub proof fn lemma_set_bit(b: u8, k: u8, i: u8)
    requires
        k < 8,
        i < 8,
    ensures
        bit(b | (1u8 << k), i) == (bit(b, i) || i == k),
{
    assert(bit(b | (1u8 << k), i) == (bit(b, i) || i == k)) by (bit_vector)
        requires
            k < 8,
            i < 8,
    ;
}

/// Masking with a single bit tests that bit.
pub proof fn lemma_test_bit(b: u8, k: u8)
    requires
        k < 8,
    ensures
        (b & (1u8 << k) != 0) == bit(b, k),
{
    assert((b & (1u8 << k) != 0) == bit(b, k)) by (bit_vector)
        requires
            k < 8,
    ;
}

/// The zero byte has no bit set.
pub proof fn lemma_zero_bits(i: u8)
    requires
        i < 8,
    ensures
        !bit(0u8, i),
{
    assert(!bit(0u8, i)) by (bit_vector)
        requires
            i < 8,
    ;
}

/// The byte with every bit set.
pub proof fn lemma_full_bits(i: u8)
    requires
        i < 8,
    ensures
        bit(0xffu8, i),
{
    assert(bit(0xffu8, i)) by (bit_vector)
        requires
            i < 8,
    ;
}

/// Two bytes with the same eight bits are equal.
pub proof fn lemma_bits_determine_byte(a: u8, b: u8)
    requires
        forall|i: u8| i < 8 ==> bit(a, i) == bit(b, i),
    ensures
        a == b,
{
    assert(bit(a, 0) == bit(b, 0));
    assert(bit(a, 1) == bit(b, 1));
    assert(bit(a, 2) == bit(b, 2));
    assert(bit(a, 3) == bit(b, 3));
    assert(bit(a, 4) == bit(b, 4));
    assert(bit(a, 5) == bit(b, 5));
    assert(bit(a, 6) == bit(b, 6));
    assert(bit(a, 7) == bit(b, 7));
    assert(a == b) by (bit_vector)
        requires
            bit(a, 0) == bit(b, 0),
            bit(a, 1) == bit(b, 1),
            bit(a, 2) == bit(b, 2),
            bit(a, 3) == bit(b, 3),
            bit(a, 4) == bit(b, 4),
            bit(a, 5) == bit(b, 5),
            bit(a, 6) == bit(b, 6),
            bit(a, 7) == bit(b, 7),
    ;
}

/// Two frames of eight rows with the same pixels are equal.
pub proof fn lemma_pixels_determine_frame(f: Seq<u8>, g: Seq<u8>)
    requires
        f.len() == 8,
        g.len() == 8,
        forall|r: int, c: int| in_matrix(r, c) ==> #[trigger] pixel(f, r, c) == pixel(g, r, c),
    ensures
        f == g,
{
    assert forall|r: int| 0 <= r < 8 implies f[r] == g[r] by {
        assert forall|i: u8| i < 8 implies bit(f[r], i) == bit(g[r], i) by {
            assert(pixel(f, r, i as int) == pixel(g, r, i as int));
        }
        lemma_bits_determine_byte(f[r], g[r]);
    }
    assert(f =~= g);
}

} // verus!
