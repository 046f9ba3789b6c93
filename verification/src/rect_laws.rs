//! What drawing a rectangle does to each pixel, told from the arguments of the service.

use vstd::prelude::*;

use crate::arguments::{holds, holds_point, lemma_coord, lemma_draws, lemma_point, stacked};
use crate::blit_laws::law_target_is_image_or_frame;
use crate::drawing::{
    box_ink, larger, law_fill_reads_back, law_fill_stays_on_frame, law_rect_stays_on_surface,
    rect_painted, screen_rect_ink, smaller,
};
use crate::lcd::Outcome;
use crate::machine::MachineState;
use crate::memory::{law_offset_steps_on, offset, read16, read32, read8};
use crate::surface::{
    law_bare_pixel_keeps_its_colour, law_painted_pixel_reads_back, pitch_of, pixel_address,
    signed16, Surface,
};

verus! {

/// Place and size of a rectangle.
pub struct Area {
    pub x: int,
    pub y: int,
    pub width: int,
    pub height: int,
}

impl Area {
    /// The point belongs to the part of the area that lies on a surface of the given size.
    pub open spec fn covers(self, surface: Surface, x: int, y: int) -> bool {
        &&& self.x <= x < self.x + self.width
        &&& self.y <= y < self.y + self.height
        &&& 0 <= x < surface.width
        &&& 0 <= y < surface.height
    }

    /// One of the point's four neighbours does not belong to that part.
    pub open spec fn ends_at(self, surface: Surface, x: int, y: int) -> bool {
        ||| !self.covers(surface, x - 1, y)
        ||| !self.covers(surface, x + 1, y)
        ||| !self.covers(surface, x, y - 1)
        ||| !self.covers(surface, x, y + 1)
    }
}

/// The address of a pixel of a surface.
pub open spec fn place_on(surface: Surface, x: int, y: int) -> u32 {
    pixel_address(surface.pixels, pitch_of(surface.width as int), x, y)
}

/// The pixel lies on the surface, which is no larger than the frame, and is mapped.
pub open spec fn pixel_is_there(m: Map<u32, u8>, surface: Surface, x: int, y: int) -> bool {
    &&& 0 <= x < surface.width <= 240
    &&& 0 <= y < surface.height <= 400
    &&& m.dom().contains(place_on(surface, x, y))
    &&& m.dom().contains(place_on(surface, x, y).wrapping_add(1))
}

/// The frame buffer.
pub open spec fn frame_of(state: MachineState) -> Surface {
    Surface { pixels: state.layout.screen_image, width: 240, height: 400 }
}

/// A filled rectangle paints every pixel of it that is on the surface. An outline paints those of
/// them that have a neighbour which is not: the border of the part that is on the surface. Every
/// other pixel keeps its colour.
pub proof fn law_rectangle_paints_area_or_border(
    m: Map<u32, u8>,
    surface: Surface,
    area: Area,
    color: u16,
    outline: bool,
    x: int,
    y: int,
)
    requires
        pixel_is_there(m, surface, x, y),
    ensures
        read16(
            rect_painted(m, surface, area.x, area.y, area.width, area.height, color, outline),
            place_on(surface, x, y),
        ) == if area.covers(surface, x, y) && (!outline || area.ends_at(surface, x, y)) {
            color
        } else {
            read16(m, place_on(surface, x, y))
        },
{
    let left = larger(area.x, 0);
    let top = larger(area.y, 0);
    let right = smaller(area.x + area.width, surface.width as int);
    let bottom = smaller(area.y + area.height, surface.height as int);
    let ink = box_ink(left, top, right - left, bottom - top, color, outline);
    let pitch = pitch_of(surface.width as int);
    assert(y * pitch <= 400 * 240) by (nonlinear_arith)
        requires
            0 <= y <= 400,
            0 <= pitch <= 240,
    ;
    if ink(x, y) is Some {
        law_painted_pixel_reads_back(m, surface.pixels, pitch, ink, x, y);
    } else {
        law_bare_pixel_keeps_its_colour(m, surface.pixels, pitch, ink, x, y);
    }
}

/// The service for outlines, or that for filled rectangles, with packed corners in the first two
/// registers and the colour in the third. Both corners belong to the rectangle, whichever comes
/// first. A pixel of the frame gets the colour if it lies between the corners, for an outline only
/// on the border of what is on the frame; every other pixel keeps its own. The corners have to be
/// near the frame, and one of them at least outside the first row.
pub proof fn law_corner_rectangle_pixels(
    state: MachineState,
    outline: bool,
    u0: int,
    v0: int,
    u1: int,
    v1: int,
    x: int,
    y: int,
)
    requires
        state.wf(),
        holds_point(state.registers[0], u0, v0),
        holds_point(state.registers[1], u1, v1),
        -240 <= u0 <= 480,
        -240 <= u1 <= 480,
        -400 <= v0 <= 800,
        -400 <= v1 <= 800,
        v0 != 0 || v1 != 0,
        pixel_is_there(state.memory, frame_of(state), x, y),
    ensures
        ({
            let (after, outcome) = state.lcd_service(if outline {
                16
            } else {
                18
            });
            let area = Area {
                x: if u0 < u1 {
                    u0
                } else {
                    u1
                },
                y: if v0 < v1 {
                    v0
                } else {
                    v1
                },
                width: if u0 < u1 {
                    u1 - u0 + 1
                } else {
                    u0 - u1 + 1
                },
                height: if v0 < v1 {
                    v1 - v0 + 1
                } else {
                    v0 - v1 + 1
                },
            };
            let frame = frame_of(state);
            let at = place_on(frame, x, y);
            &&& area.covers(frame, x, y) <==> (u0 <= x <= u1 || u1 <= x <= u0) && (v0 <= y <= v1
                || v1 <= y <= v0)
            &&& read16(after.memory, at) == if area.covers(frame, x, y) && (!outline
                || area.ends_at(frame, x, y)) {
                (state.registers[2] % 65536) as u16
            } else {
                read16(state.memory, at)
            }
            &&& after.registers[0] == 1
            &&& outcome == Outcome::Done
        }),
{
    let index: u32 = if outline {
        16
    } else {
        18
    };
    lemma_draws(state, index);
    lemma_point(state.registers[0], u0, v0);
    lemma_point(state.registers[1], u1, v1);
    lemma_rows_need_upper_half(state.registers[0], u0, v0);
    lemma_rows_need_upper_half(state.registers[1], u1, v1);
    assert(state.has_packed_corners());
    assert(state.drawing_service(index) == state.packed_rect_drawn(outline));
    let area = Area {
        x: smaller(u0, u1),
        y: smaller(v0, v1),
        width: larger(u0, u1) - smaller(u0, u1) + 1,
        height: larger(v0, v1) - smaller(v0, v1) + 1,
    };
    law_rectangle_paints_area_or_border(
        state.memory,
        frame_of(state),
        area,
        (state.registers[2] % 65536) as u16,
        outline,
        x,
        y,
    );
}

/// A packed point outside the first row takes up the upper half.
proof fn lemma_rows_need_upper_half(value: u32, x: int, y: int)
    requires
        holds_point(value, x, y),
    ensures
        value >= 65536 <==> y != 0,
{
}

/// The service for outlines, or that for filled rectangles, in its other form: where the first two
/// registers hold no packed corners near the frame, they hold column and row, the third the width,
/// and the stack height and colour. A pixel of the frame gets the colour if it lies in the
/// rectangle, for an outline only on the border of what is on the frame; every other keeps its own.
pub proof fn law_stack_rectangle_pixels(
    state: MachineState,
    outline: bool,
    area: Area,
    v0: int,
    v1: int,
    x: int,
    y: int,
)
    requires
        state.wf(),
        holds_point(state.registers[0], area.x, v0),
        holds_point(state.registers[1], area.y, v1),
        holds(state.registers[2], area.width),
        holds(stacked(state, 0), area.height),
        (v0 == 0 && v1 == 0) || area.x < -240 || area.x > 480 || area.y < -240 || area.y > 480 || v0
            < -400 || v0 > 800 || v1 < -400 || v1 > 800,
        pixel_is_there(state.memory, frame_of(state), x, y),
    ensures
        ({
            let (after, outcome) = state.lcd_service(if outline {
                16
            } else {
                18
            });
            let frame = frame_of(state);
            let at = place_on(frame, x, y);
            &&& read16(after.memory, at) == if area.covers(frame, x, y) && (!outline
                || area.ends_at(frame, x, y)) {
                (stacked(state, 4) % 65536) as u16
            } else {
                read16(state.memory, at)
            }
            &&& after.registers[0] == 1
            &&& outcome == Outcome::Done
        }),
{
    let index: u32 = if outline {
        16
    } else {
        18
    };
    lemma_draws(state, index);
    law_offset_steps_on(state.registers[13], 0, 0);
    lemma_point(state.registers[0], area.x, v0);
    lemma_point(state.registers[1], area.y, v1);
    lemma_rows_need_upper_half(state.registers[0], area.x, v0);
    lemma_rows_need_upper_half(state.registers[1], area.y, v1);
    lemma_coord(state.registers[2], area.width);
    lemma_coord(stacked(state, 0), area.height);
    assert(!state.has_packed_corners());
    assert(state.drawing_service(index) == state.rect_drawn(false, outline));
    law_rectangle_paints_area_or_border(
        state.memory,
        frame_of(state),
        area,
        (stacked(state, 4) % 65536) as u16,
        outline,
        x,
        y,
    );
}

/// The service for outlines on an image, or that for filled rectangles with an image: the first
/// register names the image, the next three hold column, row and width, and the stack height and
/// colour. A pixel of the surface that the image stands for gets the colour if it lies in the
/// rectangle, for an outline only on the border of what is on the surface; every other pixel keeps
/// its own. The filling service reads its arguments so only where they do not make up a rectangle
/// near the frame.
pub proof fn law_image_rectangle_pixels(
    state: MachineState,
    outline: bool,
    area: Area,
    x: int,
    y: int,
)
    requires
        state.wf(),
        holds(state.registers[1], area.x),
        holds(state.registers[2], area.y),
        holds(state.registers[3], area.width),
        holds(stacked(state, 0), area.height),
        !outline ==> state.registers[0] > 65535 || !(239 >= state.registers[0]
            || state.registers[0] >= 65536 - 239) || !(-399 <= area.x <= 399) || !(-239 <= area.y
            <= 240) || !(-399 <= area.width <= 400),
        pixel_is_there(state.memory, state.target(state.registers[0]), x, y),
    ensures
        ({
            let (after, outcome) = state.lcd_service(if outline {
                17
            } else {
                19
            });
            let surface = state.target(state.registers[0]);
            let at = place_on(surface, x, y);
            &&& read16(after.memory, at) == if area.covers(surface, x, y) && (!outline
                || area.ends_at(surface, x, y)) {
                (stacked(state, 4) % 65536) as u16
            } else {
                read16(state.memory, at)
            }
            &&& after.registers[0] == 1
            &&& outcome == Outcome::Done
        }),
{
    let index: u32 = if outline {
        17
    } else {
        19
    };
    lemma_draws(state, index);
    law_offset_steps_on(state.registers[13], 0, 0);
    lemma_coord(state.registers[1], area.x);
    lemma_coord(state.registers[2], area.y);
    lemma_coord(state.registers[3], area.width);
    lemma_coord(stacked(state, 0), area.height);
    if !outline {
        lemma_near_column(state.registers[0]);
        assert(!state.has_plain_rect());
    }
    assert(state.drawing_service(index) == state.rect_drawn(true, outline));
    law_rectangle_paints_area_or_border(
        state.memory,
        state.target(state.registers[0]),
        area,
        (stacked(state, 4) % 65536) as u16,
        outline,
        x,
        y,
    );
}

/// Which registers hold a column near the frame and nothing else.
proof fn lemma_near_column(value: u32)
    ensures
        value <= 65535 && -239 <= signed16(value) < 240 <==> value <= 239 || (
        65536 - 239 <= value <= 65535),
{
}

/// The service for filled rectangles where the four registers hold column, row, width and height of
/// a rectangle near the frame, and the stack its colour: a pixel of the frame gets the colour if it
/// lies in the rectangle, and every other pixel keeps its own.
pub proof fn law_plain_rectangle_pixels(state: MachineState, area: Area, x: int, y: int)
    requires
        state.wf(),
        state.registers[0] <= 65535,
        holds(state.registers[0], area.x),
        holds(state.registers[1], area.y),
        holds(state.registers[2], area.width),
        holds(state.registers[3], area.height),
        -239 <= area.x < 240,
        -399 <= area.y < 400,
        -239 <= area.width <= 240,
        -399 <= area.height <= 400,
        pixel_is_there(state.memory, frame_of(state), x, y),
    ensures
        ({
            let (after, outcome) = state.lcd_service(19);
            let frame = frame_of(state);
            let at = place_on(frame, x, y);
            &&& read16(after.memory, at) == if area.covers(frame, x, y) {
                (stacked(state, 0) % 65536) as u16
            } else {
                read16(state.memory, at)
            }
            &&& after.registers[0] == 1
            &&& outcome == Outcome::Done
        }),
{
    lemma_draws(state, 19);
    law_offset_steps_on(state.registers[13], 0, 0);
    lemma_coord(state.registers[0], area.x);
    lemma_coord(state.registers[1], area.y);
    lemma_coord(state.registers[2], area.width);
    lemma_coord(state.registers[3], area.height);
    assert(state.has_plain_rect());
    assert(state.drawing_service(19) == state.filled_rect_drawn());
    let color = (stacked(state, 0) % 65536) as u16;
    law_fill_paints_area(state, area, color, x, y);
}

/// Filling a rectangle of the frame buffer gives its colour to every pixel of the frame that lies
/// in it, and to no other.
pub proof fn law_fill_paints_area(state: MachineState, area: Area, color: u16, x: int, y: int)
    requires
        pixel_is_there(state.memory, frame_of(state), x, y),
    ensures
        ({
            let after = state.screen_painted(
                screen_rect_ink(area.x, area.y, area.width, area.height, color),
            );
            let at = place_on(frame_of(state), x, y);
            read16(after.memory, at) == if area.covers(frame_of(state), x, y) {
                color
            } else {
                read16(state.memory, at)
            }
        }),
{
    assert(pitch_of(240) == 240);
    law_fill_reads_back(
        state,
        area.x,
        area.y,
        area.width,
        area.height,
        color,
        x,
        y,
    );
}

/// Drawing a rectangle changes no byte but those of the surface's pixels.
pub proof fn law_rectangle_services_stay_on_surface(state: MachineState, index: u32, a: u32)
    requires
        state.wf(),
        16 <= index <= 19,
        a.wrapping_sub(state.layout.screen_image) >= 192000,
        index == 17 || index == 19 ==> {
            let surface = state.target(state.registers[0]);
            let pitch = pitch_of(surface.width as int);
            let place = a.wrapping_sub(surface.pixels) as int;
            place >= surface.height * pitch * 2 || place / 2 % pitch >= surface.width
        },
    ensures
        read8(state.lcd_service(index).0.memory, a) == read8(
            state.memory,
            a,
        ),
{
    lemma_draws(state, index);
    law_target_is_image_or_frame(state, state.registers[0]);
    let stack = state.registers[13];
    law_offset_steps_on(stack, 0, 0);
    assert(frame_of(state) == state.screen());
    assert(240 * 400 * 2 == 192000);
    assert(pitch_of(240) == 240);
    assert(frame_of(state).leaves_out(a));
    if index == 16 || index == 18 {
        let outline = index == 16;
        assert(state.drawing_service(index) == state.screen_rect_drawn(outline));
        if state.has_packed_corners() {
            lemma_packed_stays(state, outline, a);
        } else {
            lemma_stack_stays(state, false, outline, a);
        }
    } else if index == 19 && state.has_plain_rect() {
        assert(state.drawing_service(19) == state.filled_rect_drawn());
        law_fill_stays_on_frame(
            state,
            signed16(state.registers[0]) as int,
            signed16(state.registers[1]) as int,
            signed16(state.registers[2]) as int,
            signed16(state.registers[3]) as int,
            (read32(state.memory, stack) % 65536) as u16,
            a,
        );
    } else {
        assert(state.drawing_service(index) == state.rect_drawn(true, index == 17));
        lemma_stack_stays(state, true, index == 17, a);
    }
}

/// A rectangle with packed corners stays on the frame.
proof fn lemma_packed_stays(state: MachineState, outline: bool, a: u32)
    requires
        state.screen().leaves_out(a),
    ensures
        read8(state.packed_rect_drawn(outline).memory, a) == read8(
            state.memory,
            a,
        ),
{
    let x0 = signed16(state.registers[0]) as int;
    let y0 = signed16(state.registers[0] / 65536) as int;
    let x1 = signed16(state.registers[1]) as int;
    let y1 = signed16(state.registers[1] / 65536) as int;
    law_rect_stays_on_surface(
        state.memory,
        state.screen(),
        smaller(x0, x1),
        smaller(y0, y1),
        larger(x0, x1) - smaller(x0, x1) + 1,
        larger(y0, y1) - smaller(y0, y1) + 1,
        (state.registers[2] % 65536) as u16,
        outline,
        a,
    );
}

/// A rectangle with arguments on the stack stays on its surface.
proof fn lemma_stack_stays(state: MachineState, has_destination: bool, outline: bool, a: u32)
    requires
        ({
            let surface = if has_destination {
                state.target(state.registers[0])
            } else {
                state.screen()
            };
            surface.leaves_out(a) && surface.width > 0
        }),
    ensures
        read8(state.rect_drawn(has_destination, outline).memory, a)
            == read8(state.memory, a),
{
    let first = if has_destination {
        1
    } else {
        0
    };
    let surface = if has_destination {
        state.target(state.registers[0])
    } else {
        state.screen()
    };
    law_rect_stays_on_surface(
        state.memory,
        surface,
        signed16(state.registers[first]) as int,
        signed16(state.registers[first + 1]) as int,
        signed16(state.registers[first + 2]) as int,
        signed16(read32(state.memory, state.stack())) as int,
        (read32(state.memory, offset(state.stack(), 4)) % 65536) as u16,
        outline,
        a,
    );
}

} // verus!
