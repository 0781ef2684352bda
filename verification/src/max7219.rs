//! The MAX7219 LED driver's serial protocol: every command is a two-byte
//! frame, a register address followed by the value to write there.
use vstd::prelude::*;

verus! {

/// Register that turns BCD decoding on or off.
pub const REG_DECODE_MODE: u8 = 0x09;

/// Register that sets the LED brightness.
pub const REG_INTENSITY: u8 = 0x0A;

/// Register that sets how many digit rows are scanned.
pub const REG_SCAN_LIMIT: u8 = 0x0B;

/// Register that puts the chip into or out of shutdown.
pub const REG_SHUTDOWN: u8 = 0x0C;

/// Register that lights every LED for testing.
pub const REG_DISPLAY_TEST: u8 = 0x0F;

/// The frame that writes `data` into register `reg`.
pub open spec fn command(reg: u8, data: u8) -> Seq<u8> {
    seq![reg, data]
}

/// The configuration written at start-up: display test off, shutdown off,
/// all eight rows scanned, no decoding, medium intensity.
pub open spec fn config_commands() -> Seq<Seq<u8>> {
    seq![
        command(REG_DISPLAY_TEST, 0x00),
        command(REG_SHUTDOWN, 0x01),
        command(REG_SCAN_LIMIT, 0x07),
        command(REG_DECODE_MODE, 0x00),
        command(REG_INTENSITY, 0x08),
    ]
}

/// The views of a list of frames.
pub open spec fn frames_view(v: Seq<[u8; 2]>) -> Seq<Seq<u8>> {
    v.map_values(|f: [u8; 2]| f@)
}

/// The frame that writes `data` into register `reg`.
pub fn register_frame(reg: u8, data: u8) -> (f: [u8; 2])
    ensures
        f@ == command(reg, data),
{
    let f = [reg, data];
    assert(f@ =~= command(reg, data));
    f
}

/// The frames that configure the chip when it starts.
pub fn config_frames() -> (v: Vec<[u8; 2]>)
    ensures
        frames_view(v@) == config_commands(),
{
    let mut v: Vec<[u8; 2]> = Vec::new();
    v.push(register_frame(REG_DISPLAY_TEST, 0x00));
    v.push(register_frame(REG_SHUTDOWN, 0x01));
    v.push(register_frame(REG_SCAN_LIMIT, 0x07));
    v.push(register_frame(REG_DECODE_MODE, 0x00));
    v.push(register_frame(REG_INTENSITY, 0x08));
    assert(frames_view(v@) =~= config_commands());
    v
}

/// The frames that switch every LED off: rows 1 to 8 (the chip numbers its
/// rows from 1) written with 0, in that order.
pub fn clear_frames() -> (v: Vec<[u8; 2]>)
    ensures
        v@.len() == 8,
        forall|i: int| 0 <= i < 8 ==> #[trigger] v@[i]@ == command((i + 1) as u8, 0),
{
    let mut v: Vec<[u8; 2]> = Vec::new();
    let mut row: u8 = 1;
    while row <= 8
        invariant
            1 <= row <= 9,
            v@.len() == row - 1,
            forall|i: int| 0 <= i < v@.len() ==> #[trigger] v@[i]@ == command((i + 1) as u8, 0),
        decreases 9 - row,
    {
        v.push(register_frame(row, 0x00));
        row = row + 1;
    }
    v
}

/// The frame that shows the single pixel in column `col` of row `row`
/// (both counted from 0) and darkens the rest of that row.
pub fn pixel_frame(row: u8, col: u8) -> (f: [u8; 2])
    requires
        row < 255,
        col < 8,
    ensures
        f@ == command((row + 1) as u8, 1u8 << col),
{
    let value: u8 = 1u8 << col;
    register_frame(row + 1, value)
}

} // verus!
