//! How the frame buffer is turned for display.

use vstd::prelude::*;

use crate::surface::{FRAME_HEIGHT, FRAME_WIDTH};

verus! {

/// The quarter turns by which the frame buffer is shown.
#[derive(Clone, Copy, Debug, PartialEq, Eq, Structural)]
pub enum Rotation {
    Upright,
    Clockwise,
    UpsideDown,
    CounterClockwise,
}

impl Rotation {
    /// The display is as wide as the frame buffer is high.
    pub open spec fn swapped(self) -> bool {
        self == Rotation::Clockwise || self == Rotation::CounterClockwise
    }

    /// Width of the display.
    pub open spec fn display_width(self) -> int {
        if self.swapped() {
            FRAME_HEIGHT as int
        } else {
            FRAME_WIDTH as int
        }
    }

    /// Height of the display.
    pub open spec fn display_height(self) -> int {
        if self.swapped() {
            FRAME_WIDTH as int
        } else {
            FRAME_HEIGHT as int
        }
    }

    /// Where the frame buffer's pixel (`x`, `y`) is shown.
    pub open spec fn shown_at(self, x: int, y: int) -> (int, int) {
        match self {
            Rotation::Upright => (x, y),
            Rotation::Clockwise => (FRAME_HEIGHT - 1 - y, x),
            Rotation::UpsideDown => (FRAME_WIDTH - 1 - x, FRAME_HEIGHT - 1 - y),
            Rotation::CounterClockwise => (y, FRAME_WIDTH - 1 - x),
        }
    }

    /// The display is as wide as the frame buffer is high.
    pub fn swaps_dimensions(self) -> (swaps: bool)
        ensures
            swaps == self.swapped(),
    {
        match self {
            Rotation::Upright => false,
            Rotation::Clockwise => true,
            Rotation::UpsideDown => false,
            Rotation::CounterClockwise => true,
        }
    }

    /// The pixel of the frame buffer that is shown at (`x`, `y`) of the display.
    pub fn unrotate(self, x: i32, y: i32) -> (pixel: (i32, i32))
        requires
            0 <= x < self.display_width(),
            0 <= y < self.display_height(),
        ensures
            0 <= pixel.0 < FRAME_WIDTH,
            0 <= pixel.1 < FRAME_HEIGHT,
            self.shown_at(pixel.0 as int, pixel.1 as int) == (x as int, y as int),
    {
        match self {
            Rotation::Upright => (x, y),
            Rotation::Clockwise => (y, FRAME_HEIGHT - 1 - x),
            Rotation::UpsideDown => (FRAME_WIDTH - 1 - x, FRAME_HEIGHT - 1 - y),
            Rotation::CounterClockwise => (FRAME_WIDTH - 1 - y, x),
        }
    }
}

/// Every pixel of the frame buffer is shown on the display, and no two at one place.
pub proof fn law_rotation_is_one_to_one(
    rotation: Rotation,
    x: int,
    y: int,
    other_x: int,
    other_y: int,
)
    ensures
        0 <= x < FRAME_WIDTH && 0 <= y < FRAME_HEIGHT <==> 0 <= rotation.shown_at(x, y).0
            < rotation.display_width() && 0 <= rotation.shown_at(x, y).1
            < rotation.display_height(),
        rotation.shown_at(x, y) == rotation.shown_at(other_x, other_y) <==> x == other_x && y
            == other_y,
{
}

/// How the frame buffer is turned: where its upper left pixel is shown, and that a step to the
/// right or down in the frame buffer is a step of one pixel on the display, turned by as much.
pub proof fn law_rotation_turns_steps(rotation: Rotation, x: int, y: int)
    ensures
        ({
            let (left, top) = rotation.shown_at(0, 0);
            let (at_x, at_y) = rotation.shown_at(x, y);
            let (right_x, right_y) = rotation.shown_at(x + 1, y);
            let (down_x, down_y) = rotation.shown_at(x, y + 1);
            let right = (right_x - at_x, right_y - at_y);
            let down = (down_x - at_x, down_y - at_y);
            match rotation {
                Rotation::Upright => (left, top) == (0int, 0int) && right == (1int, 0int) && down
                    == (0int, 1int),
                Rotation::Clockwise => (left, top) == (399int, 0int) && right == (0int, 1int)
                    && down == (-1int, 0int),
                Rotation::UpsideDown => (left, top) == (239int, 399int) && right == (-1int, 0int)
                    && down == (0int, -1int),
                Rotation::CounterClockwise => (left, top) == (0int, 239int) && right == (
                    0int,
                    -1int,
                ) && down == (1int, 0int),
            }
        }),
        rotation == Rotation::Clockwise || rotation == Rotation::CounterClockwise
            ==> rotation.display_width() == 400 && rotation.display_height() == 240,
        rotation == Rotation::Upright || rotation == Rotation::UpsideDown
            ==> rotation.display_width() == 240 && rotation.display_height() == 400,
{
}

} // verus!
