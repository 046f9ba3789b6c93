//! How a guest passes arguments to a display service.

use vstd::prelude::*;

use crate::lcd::Outcome;
use crate::machine::MachineState;
use crate::memory::{offset, read32};
use crate::surface::{law_coordinate_is_signed, signed16};

verus! {

/// The low half of a register or a word holds a coordinate.
pub open spec fn holds(value: u32, coord: int) -> bool {
    -32768 <= coord < 32768 && value as int % 65536 == coord % 65536
}

/// A register holds a column in its lower half and a row in its upper half.
pub open spec fn holds_point(value: u32, x: int, y: int) -> bool {
    &&& -32768 <= x < 32768
    &&& -32768 <= y < 32768
    &&& value == y % 65536 * 65536 + x % 65536
}

/// The word on the guest's stack at a place.
pub open spec fn stacked(state: MachineState, place: int) -> u32 {
    read32(state.memory, offset(state.registers[13], place))
}

/// A coordinate is read as it was put in.
pub proof fn lemma_coord(value: u32, coord: int)
    requires
        holds(value, coord),
    ensures
        signed16(value) == coord,
{
    law_coordinate_is_signed(value, coord);
}

/// The halves of a packed point are read as they were put in.
pub proof fn lemma_point(value: u32, x: int, y: int)
    requires
        holds_point(value, x, y),
    ensures
        signed16(value) == x,
        signed16(value / 65536) == y,
{
    assert(value / 65536 == y % 65536);
    assert(value as int % 65536 == x % 65536);
    law_coordinate_is_signed(value, x);
    law_coordinate_is_signed(value / 65536, y);
}

/// A service that draws returns one and leaves nothing to do.
pub proof fn lemma_draws(state: MachineState, index: u32)
    requires
        9 <= index <= 13 || 16 <= index <= 19 || 24 <= index <= 32,
    ensures
        state.lcd_service(index) == (state.drawing_service(index).with_result(1), Outcome::Done),
{
}

} // verus!
