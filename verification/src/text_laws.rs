//! What drawing text does to each pixel, told from the string and the arguments of the service.

use vstd::prelude::*;

use crate::arguments::{holds, lemma_coord, lemma_draws, stacked};
use crate::font::{
    glyph_covers, glyphs_of, law_pen_moves_by_glyph_widths, line_covers, pen_offset, unifont_glyph,
    Glyph,
};
use crate::lcd::{converted_units, Outcome};
use crate::lcd_laws::{law_conversion_stays_in_buffer, law_converted_text_reads_back};
use crate::lettering::{glyph_ink, law_text_stays_on_frame, line_ink, text_place};
use crate::machine::MachineState;
use crate::memory::{c_bytes, law_little_endian, offset, read16, read8};
use crate::rect_laws::{frame_of, pixel_is_there, place_on};
use crate::rotation::Rotation;
use crate::surface::{
    law_bare_pixel_keeps_its_colour, law_painted_pixel_reads_back, lemma_frame_place,
    lemma_same_ink, pitch_of, signed16,
};
use crate::text::{first_units, gbk_text, law_cut_off_units_are_a_start, utf16};

verus! {

/// Where on the display a pixel of the frame buffer is seen by someone who reads text: quarter
/// turns count, a half turn does not.
pub open spec fn seen_at(rotation: Rotation, x: int, y: int) -> (int, int) {
    match rotation {
        Rotation::Upright => (x, y),
        Rotation::UpsideDown => (x, y),
        Rotation::Clockwise => (399 - y, x),
        Rotation::CounterClockwise => (y, 239 - x),
    }
}

/// The text of a C string in memory, of which 4096 bytes at most are looked at.
pub open spec fn string_at(m: Map<u32, u8>, address: u32) -> Seq<char> {
    gbk_text(c_bytes(m, address, 4096))
}

/// How far the first `k` characters of a text reach.
pub open spec fn reach(text: Seq<char>, k: int) -> int
    decreases k,
{
    if k <= 0 {
        0
    } else {
        reach(text, k - 1) + match unifont_glyph(text[k - 1]) {
            Some(Glyph::Halfwidth(_)) => 8int,
            _ => 16int,
        }
    }
}

/// The pen is where the characters before reach to.
proof fn lemma_pen_is_reach(text: Seq<char>, k: int)
    requires
        0 <= k <= text.len(),
    ensures
        pen_offset(glyphs_of(text), k) == reach(text, k),
    decreases k,
{
    if k > 0 {
        lemma_pen_is_reach(text, k - 1);
        law_pen_moves_by_glyph_widths(text, k - 1);
    }
}

/// The dot (`x`, `y`) of the display belongs to the `k`th character of a text that starts at
/// (`left`, `top`).
pub open spec fn dotted(text: Seq<char>, left: int, top: int, k: int, x: int, y: int) -> bool {
    unifont_glyph(text[k]) matches Some(glyph) && glyph.pixel(x - left - reach(text, k), y - top)
}

/// Drawing a line of glyphs gives its colour to each pixel of the frame in which a dot of one of
/// them is seen, and to no other. Each glyph stands as far right as the widths of those before it.
pub proof fn law_glyph_line_pixels(
    state: MachineState,
    glyphs: Seq<Option<Glyph>>,
    left: int,
    top: int,
    color: u16,
    x: int,
    y: int,
)
    requires
        pixel_is_there(state.memory, frame_of(state), x, y),
    ensures
        ({
            let (dx, dy) = seen_at(state.rotation, x, y);
            let after = state.screen_painted(line_ink(state.rotation, glyphs, left, top, color));
            let at = place_on(frame_of(state), x, y);
            read16(after.memory, at) == if exists|k: int|
                0 <= k < glyphs.len() && (#[trigger] glyphs[k] matches Some(glyph) && glyph.pixel(
                    dx - left - pen_offset(glyphs, k),
                    dy - top,
                )) {
                color
            } else {
                read16(state.memory, at)
            }
        }),
{
    let (dx, dy) = seen_at(state.rotation, x, y);
    assert(text_place(state.rotation, x, y) == (dx, dy));
    assert(pitch_of(240) == 240);
    lemma_frame_place(x, y);
    let ink = line_ink(state.rotation, glyphs, left, top, color);
    let some = exists|k: int|
        0 <= k < glyphs.len() && (#[trigger] glyphs[k] matches Some(glyph) && glyph.pixel(
            dx - left - pen_offset(glyphs, k),
            dy - top,
        ));
    if some {
        let k = choose|k: int|
            0 <= k < glyphs.len() && (#[trigger] glyphs[k] matches Some(glyph) && glyph.pixel(
                dx - left - pen_offset(glyphs, k),
                dy - top,
            ));
        assert(glyph_covers(glyphs, left, top, k, dx, dy));
    }
    if line_covers(glyphs, left, top, dx, dy) {
        let k = choose|k: int|
            0 <= k < glyphs.len() && #[trigger] glyph_covers(glyphs, left, top, k, dx, dy);
        assert(glyphs[k] is Some);
    }
    assert(some == line_covers(glyphs, left, top, dx, dy));
    if ink(x, y) is Some {
        law_painted_pixel_reads_back(state.memory, state.layout.screen_image, 240, ink, x, y);
    } else {
        law_bare_pixel_keeps_its_colour(state.memory, state.layout.screen_image, 240, ink, x, y);
    }
}

/// Drawing one glyph is drawing a line that has no other.
pub proof fn law_glyph_is_a_line_of_one(
    state: MachineState,
    glyph: Glyph,
    left: int,
    top: int,
    color: u16,
)
    ensures
        state.screen_painted(glyph_ink(state.rotation, glyph, left, top, color))
            == state.screen_painted(
            line_ink(state.rotation, seq![Some(glyph)], left, top, color),
        ),
{
    let line = seq![Some(glyph)];
    let one = glyph_ink(state.rotation, glyph, left, top, color);
    let all = line_ink(state.rotation, line, left, top, color);
    assert forall|x: int, y: int| 0 <= x < 240 && 0 <= y implies #[trigger] one(x, y) == all(
        x,
        y,
    ) by {
        let (dx, dy) = text_place(state.rotation, x, y);
        assert(glyph_covers(line, left, top, 0, dx, dy) == glyph.pixel(dx - left, dy - top));
        if line_covers(line, left, top, dx, dy) {
            let k = choose|k: int|
                0 <= k < line.len() && #[trigger] glyph_covers(line, left, top, k, dx, dy);
            assert(k == 0);
        }
    }
    lemma_same_ink(state.memory, state.layout.screen_image, 240, one, all);
}

/// Drawing a string gives its colour to each pixel of the frame in which a dot of one of its
/// characters is seen, and to no other. Each character stands as far right as those before it
/// reach.
pub proof fn law_text_pixels(
    state: MachineState,
    address: u32,
    left: i32,
    top: i32,
    color: u16,
    x: int,
    y: int,
)
    requires
        pixel_is_there(state.memory, frame_of(state), x, y),
    ensures
        ({
            let text = string_at(state.memory, address);
            let (dx, dy) = seen_at(state.rotation, x, y);
            let at = place_on(frame_of(state), x, y);
            read16(state.text_drawn(address, left, top, color).memory, at) == if exists|k: int|
                0 <= k < text.len() && #[trigger] dotted(
                    text,
                    left as int,
                    top as int,
                    k,
                    dx,
                    dy,
                ) {
                color
            } else {
                read16(state.memory, at)
            }
        }),
{
    let text = string_at(state.memory, address);
    let glyphs = glyphs_of(text);
    let (dx, dy) = seen_at(state.rotation, x, y);
    law_glyph_line_pixels(state, glyphs, left as int, top as int, color, x, y);
    assert forall|k: int| 0 <= k < text.len() implies #[trigger] dotted(
        text,
        left as int,
        top as int,
        k,
        dx,
        dy,
    ) == (glyphs[k] matches Some(glyph) && glyph.pixel(
        dx - left - pen_offset(glyphs, k),
        dy - top,
    )) by {
        lemma_pen_is_reach(text, k);
    }
    let some = exists|k: int|
        0 <= k < glyphs.len() && (#[trigger] glyphs[k] matches Some(glyph) && glyph.pixel(
            dx - left - pen_offset(glyphs, k),
            dy - top,
        ));
    if some {
        let k = choose|k: int|
            0 <= k < glyphs.len() && (#[trigger] glyphs[k] matches Some(glyph) && glyph.pixel(
                dx - left - pen_offset(glyphs, k),
                dy - top,
            ));
        assert(dotted(text, left as int, top as int, k, dx, dy));
    }
    if exists|k: int|
        0 <= k < text.len() && #[trigger] dotted(text, left as int, top as int, k, dx, dy) {
        let k = choose|k: int|
            0 <= k < text.len() && #[trigger] dotted(text, left as int, top as int, k, dx, dy);
        assert(glyphs[k] is Some);
    }
}

/// What a text service has to paint: the string at an address, from a place on, in a colour.
pub open spec fn text_shows(
    before: MachineState,
    after: MachineState,
    address: u32,
    left: int,
    top: int,
    color: int,
    x: int,
    y: int,
) -> bool {
    let text = string_at(before.memory, address);
    let (dx, dy) = seen_at(before.rotation, x, y);
    let at = place_on(frame_of(before), x, y);
    read16(after.memory, at) == if exists|k: int|
        0 <= k < text.len() && #[trigger] dotted(text, left, top, k, dx, dy) {
        color
    } else {
        read16(before.memory, at) as int
    }
}

/// Service 9 draws the string in the first register at the column and row in the next two, in the
/// colour of the low half of the fourth.
pub proof fn law_text_service_pixels(
    state: MachineState,
    left: i32,
    top: i32,
    x: int,
    y: int,
)
    requires
        state.wf(),
        holds(state.registers[1], left as int),
        holds(state.registers[2], top as int),
        pixel_is_there(state.memory, frame_of(state), x, y),
    ensures
        ({
            let (after, outcome) = state.lcd_service(9);
            let color = (state.registers[3] % 65536) as u16;
            &&& (after, outcome) == (
                state.text_drawn(state.registers[0], left, top, color).with_result(1),
                Outcome::Done,
            )
            &&& text_shows(
                state,
                after,
                state.registers[0],
                left as int,
                top as int,
                state.registers[3] as int % 65536,
                x,
                y,
            )
            &&& after.registers[0] == 1
        }),
{
    lemma_draws(state, 9);
    lemma_coord(state.registers[1], left as int);
    lemma_coord(state.registers[2], top as int);
    let color = (state.registers[3] % 65536) as u16;
    law_text_pixels(state, state.registers[0], left, top, color, x, y);
}

/// Service 10 draws the string in the second register at the column and row in the next two, or at
/// the kept origin if both are zero, in the colour of the halfword on the stack.
pub proof fn law_placed_text_service_pixels(
    state: MachineState,
    left: i32,
    top: i32,
    x: int,
    y: int,
)
    requires
        state.wf(),
        holds(state.registers[2], left as int),
        holds(state.registers[3], top as int),
        pixel_is_there(state.memory, frame_of(state), x, y),
    ensures
        ({
            let (after, outcome) = state.lcd_service(10);
            let (at_x, at_y) = if left == 0 && top == 0 {
                state.text_origin
            } else {
                (left, top)
            };
            &&& text_shows(
                state,
                after,
                state.registers[1],
                at_x as int,
                at_y as int,
                read16(state.memory, state.registers[13]) as int,
                x,
                y,
            )
            &&& after.registers[0] == 1
            &&& outcome == Outcome::Done
        }),
{
    lemma_draws(state, 10);
    lemma_coord(state.registers[2], left as int);
    lemma_coord(state.registers[3], top as int);
    let (at_x, at_y) = if left == 0 && top == 0 {
        state.text_origin
    } else {
        (left, top)
    };
    law_text_pixels(
        state,
        state.registers[1],
        at_x,
        at_y,
        read16(state.memory, state.registers[13]),
        x,
        y,
    );
}

/// Services 11 to 13 draw the string in the first register if it points to one that is not empty:
/// at the column and row in the next two, in the colour of the second word on the stack. Else they
/// draw the string in the second, at the place in the next two, in the colour of the fifth word.
pub proof fn law_styled_text_service_pixels(
    state: MachineState,
    index: u32,
    left: i32,
    top: i32,
    x: int,
    y: int,
)
    requires
        state.wf(),
        11 <= index <= 13,
        ({
            let first: int = if read8(state.memory, state.registers[0]) != 0 {
                0
            } else {
                1
            };
            holds(state.registers[first + 1], left as int) && holds(
                state.registers[first + 2],
                top as int,
            )
        }),
        pixel_is_there(state.memory, frame_of(state), x, y),
    ensures
        ({
            let (after, outcome) = state.lcd_service(index);
            let direct = read8(state.memory, state.registers[0]) != 0;
            &&& text_shows(
                state,
                after,
                if direct {
                    state.registers[0]
                } else {
                    state.registers[1]
                },
                left as int,
                top as int,
                if direct {
                    stacked(state, 4) as int % 65536
                } else {
                    stacked(state, 16) as int % 65536
                },
                x,
                y,
            )
            &&& after.registers[0] == 1
            &&& outcome == Outcome::Done
        }),
{
    lemma_draws(state, index);
    assert(state.drawing_service(index) == state.styled_text_drawn());
    law_little_endian(
        state.memory,
        offset(state.registers[13], 16),
        0,
        0,
    );
    if read8(state.memory, state.registers[0]) != 0 {
        lemma_coord(state.registers[1], left as int);
        lemma_coord(state.registers[2], top as int);
        let color = (stacked(state, 4) % 65536) as u16;
        law_text_pixels(state, state.registers[0], left, top, color, x, y);
    } else {
        lemma_coord(state.registers[2], left as int);
        lemma_coord(state.registers[3], top as int);
        let color = read16(state.memory, offset(state.registers[13], 16));
        law_text_pixels(state, state.registers[1], left, top, color, x, y);
    }
}

/// Service 7 returns how far the string in the first register reaches, and changes nothing else.
pub proof fn law_measured_width_is_reach(state: MachineState)
    ensures
        ({
            let text = string_at(state.memory, state.registers[0]);
            let (after, outcome) = state.lcd_service(7);
            &&& after == (MachineState {
                registers: state.registers.update(
                    0,
                    (reach(text, text.len() as int) % 0x1_0000_0000) as u32,
                ),
                ..state
            })
            &&& outcome == Outcome::Done
        }),
{
    let text = string_at(state.memory, state.registers[0]);
    lemma_pen_is_reach(text, text.len() as int);
    assert(state.lcd_service(7) == (state.with_result(state.query_service(7)), Outcome::Done));
}

/// Service 38 turns the string in the first register into UTF-16 in the buffer that the second
/// names and the third gives the size of: as many of its units as leave room for a zero, in order,
/// and the zero. It returns their number. No other byte changes.
pub proof fn law_conversion_service(state: MachineState, a: u32)
    requires
        state.wf(),
        state.registers[0] != 0,
        state.registers[1] != 0,
        0 < state.registers[2],
        ({
            let units = utf16(string_at(state.memory, state.registers[0]));
            let count: int = if units.len() < state.registers[2] {
                units.len() as int
            } else {
                state.registers[2] - 1
            };
            &&& count < 0x8000_0000
            &&& forall|k: int|
                0 <= k < 2 * count + 2 ==> state.memory.dom().contains(
                    #[trigger] offset(state.registers[1], k),
                )
        }),
    ensures
        ({
            let units = utf16(string_at(state.memory, state.registers[0]));
            let (after, outcome) = state.lcd_service(38);
            let count: int = if units.len() < state.registers[2] {
                units.len() as int
            } else {
                state.registers[2] - 1
            };
            &&& after.registers[0] == count
            &&& forall|i: int|
                0 <= i < count ==> read16(after.memory, offset(state.registers[1], 2 * i))
                    == #[trigger] units[i]
            &&& read16(after.memory, offset(state.registers[1], 2 * count)) == 0
            &&& a.wrapping_sub(state.registers[1]) >= 2 * count + 2 ==> read8(after.memory, a)
                == read8(state.memory, a)
            &&& outcome == Outcome::Done
        }),
{
    let source = state.registers[0];
    let destination = state.registers[1];
    let capacity = state.registers[2];
    let all = utf16(string_at(state.memory, source));
    let units = converted_units(state.memory, source, capacity);
    assert(units == first_units(all, capacity - 1));
    law_cut_off_units_are_a_start(all, capacity - 1);
    law_converted_text_reads_back(state, source, destination, capacity);
    assert(state.lcd_service(38) == (
        state.text_converted(source, destination, capacity),
        Outcome::Done,
    ));
    if a.wrapping_sub(destination) >= 2 * units.len() + 2 {
        law_conversion_stays_in_buffer(state, source, destination, capacity, a);
    }
    let after = state.text_converted(source, destination, capacity);
    assert forall|i: int| 0 <= i < units.len() implies read16(
        after.memory,
        offset(destination, 2 * i),
    ) == #[trigger] all[i] by {
        assert(units[i] == all[i]);
    }
}

/// Without a string, a buffer or room in it, nothing is converted and zero is returned.
pub proof fn law_conversion_service_refuses(state: MachineState)
    requires
        state.registers[0] == 0 || state.registers[1] == 0 || state.registers[2] == 0,
    ensures
        state.lcd_service(38) == (
            MachineState { registers: state.registers.update(0, 0), ..state },
            Outcome::Done,
        ),
{
}

/// The services that draw text change no byte outside the frame buffer.
pub proof fn law_text_services_stay_on_frame(state: MachineState, index: u32, a: u32)
    requires
        state.wf(),
        9 <= index <= 13,
        a.wrapping_sub(state.layout.screen_image) >= 192000,
    ensures
        read8(state.lcd_service(index).0.memory, a) == read8(state.memory, a),
{
    lemma_draws(state, index);
    let stack = state.registers[13];
    assert(240 * 400 * 2 == 192000);
    if index == 9 {
        law_text_stays_on_frame(
            state,
            state.registers[0],
            signed16(state.registers[1]),
            signed16(state.registers[2]),
            (state.registers[3] % 65536) as u16,
            a,
        );
    } else if index == 10 {
        let (x, y) = state.text_position(
            signed16(state.registers[2]),
            signed16(state.registers[3]),
        );
        law_text_stays_on_frame(
            state,
            state.registers[1],
            x,
            y,
            read16(state.memory, stack),
            a,
        );
    } else {
        assert(state.drawing_service(index) == state.styled_text_drawn());
        law_text_stays_on_frame(
            state,
            state.registers[0],
            signed16(state.registers[1]),
            signed16(state.registers[2]),
            (stacked(state, 4) % 65536) as u16,
            a,
        );
        law_text_stays_on_frame(
            state,
            state.registers[1],
            signed16(state.registers[2]),
            signed16(state.registers[3]),
            read16(state.memory, offset(stack, 16)),
            a,
        );
    }
}

} // verus!
