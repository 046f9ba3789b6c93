//! What drawing an image does to each pixel, told from the request alone.

use vstd::prelude::*;

use crate::arguments::{holds, holds_point, lemma_coord, lemma_draws, lemma_point, stacked};
use crate::blit::{law_blit_between_separate_images, law_copy_is_inside, BlitRequest, PixelCopy};
use crate::lcd::Outcome;
use crate::machine::MachineState;
use crate::memory::{law_halfword_read_back, law_offset_steps_on, offset, read16, read32};
use crate::surface::{
    law_bare_pixel_keeps_its_colour, law_clip_is_exact, law_painted_pixel_reads_back,
    law_pixels_lie_in_rows, lemma_grid_inverse, pitch_of, pixel_address,
};

verus! {

/// The surface that an image header stands for as a target of drawing: its own pixels if it has
/// some and is no larger than the frame, and else the frame buffer, whose own header always
/// stands for it.
pub proof fn law_target_is_image_or_frame(state: MachineState, image: u32)
    ensures
        ({
            let pixels = read32(state.memory, image);
            let width = read16(state.memory, offset(image, 4));
            let height = read16(state.memory, offset(image, 6));
            let own = image != state.layout.screen_image_struct && pixels != 0 && 1 <= width <= 240
                && 1 <= height <= 400;
            let target = state.target(image);
            &&& own ==> target.pixels == pixels && target.width == width && target.height == height
            &&& !own ==> target.pixels == state.layout.screen_image && target.width == 240
                && target.height == 400
        }),
{
}

/// The pixel that lies `i` columns and `j` rows into a request is drawn: it belongs to the
/// request, its source to the source image and its place to the target.
pub open spec fn drawn(state: MachineState, request: BlitRequest, i: int, j: int) -> bool {
    let target = state.target(request.destination);
    &&& read32(state.memory, request.source) != 0
    &&& 0 <= i < request.width
    &&& 0 <= j < request.height
    &&& 0 <= request.source_x + i < read16(state.memory, offset(request.source, 4))
    &&& 0 <= request.source_y + j < read16(state.memory, offset(request.source, 6))
    &&& 0 <= request.destination_x + i < target.width
    &&& 0 <= request.destination_y + j < target.height
}

/// Where the pixel of a request is read.
pub open spec fn read_place(state: MachineState, request: BlitRequest, i: int, j: int) -> u32 {
    pixel_address(
        read32(state.memory, request.source),
        pitch_of(read16(state.memory, offset(request.source, 4)) as int),
        request.source_x + i,
        request.source_y + j,
    )
}

/// Where the pixel of a request is drawn.
pub open spec fn drawn_place(state: MachineState, request: BlitRequest, i: int, j: int) -> u32 {
    let target = state.target(request.destination);
    pixel_address(
        target.pixels,
        pitch_of(target.width as int),
        request.destination_x + i,
        request.destination_y + j,
    )
}

/// The pixels that are drawn share no byte with those that they are read from.
pub open spec fn reads_apart(state: MachineState, request: BlitRequest) -> bool {
    forall|i: int, j: int, k: int, l: int|
        #![trigger read_place(state, request, i, j), drawn_place(state, request, k, l)]
        drawn(state, request, i, j) && drawn(state, request, k, l) ==> {
            let from = read_place(state, request, i, j);
            let to = drawn_place(state, request, k, l);
            from != to && from != to.wrapping_add(1) && from.wrapping_add(1) != to
        }
}

/// What is left of a request after clipping starts as far into the source as into the target.
proof fn lemma_copy_keeps_distance(state: MachineState, request: BlitRequest)
    requires
        state.copy_for(request) is Some,
    ensures
        ({
            let copy = state.copy_for(request)->0;
            &&& copy.source_x - request.source_x == copy.destination_x - request.destination_x
            &&& copy.source_y - request.source_y == copy.destination_y - request.destination_y
        }),
{
    lemma_axes(state, request, 0, 0);
}

/// Clipping keeps exactly the pixels that are drawn.
proof fn lemma_axes(state: MachineState, request: BlitRequest, i: int, j: int)
    ensures
        state.copy_for(request) is None ==> !drawn(state, request, i, j),
        state.copy_for(request) matches Some(copy) ==> {
            &&& drawn(state, request, i, j) <==> 0 <= request.destination_x + i - copy.destination_x
                < copy.width && 0 <= request.destination_y + j - copy.destination_y < copy.height
            &&& copy.source_x - request.source_x == copy.destination_x - request.destination_x
            &&& copy.source_y - request.source_y == copy.destination_y - request.destination_y
        },
{
    let source_width = read16(state.memory, offset(request.source, 4)) as i32;
    let source_height = read16(state.memory, offset(request.source, 6)) as i32;
    let target = state.target(request.destination);
    law_clip_is_exact(
        request.source_x,
        request.width,
        request.destination_x,
        source_width,
        target.width,
        i,
    );
    law_clip_is_exact(
        request.source_y,
        request.height,
        request.destination_y,
        source_height,
        target.height,
        j,
    );
}

/// Drawing an image gives each target pixel that lies in the request, and whose source pixel lies
/// in the source image, the colour of that very source pixel; a transparent request leaves out
/// colour zero. Every other pixel of the target keeps its colour. The pixels that are drawn must
/// not be among those that are read, and the target pixel must be mapped.
pub proof fn law_drawn_pixel_has_its_source_colour(
    state: MachineState,
    request: BlitRequest,
    x: int,
    y: int,
)
    requires
        reads_apart(state, request),
        ({
            let target = state.target(request.destination);
            let at = pixel_address(target.pixels, pitch_of(target.width as int), x, y);
            &&& 0 <= x < target.width
            &&& 0 <= y < target.height
            &&& state.memory.dom().contains(at)
            &&& state.memory.dom().contains(at.wrapping_add(1))
        }),
    ensures
        ({
            let target = state.target(request.destination);
            let at = pixel_address(target.pixels, pitch_of(target.width as int), x, y);
            let i = x - request.destination_x;
            let j = y - request.destination_y;
            let source_x = request.source_x + i;
            let source_y = request.source_y + j;
            let source_pixels = read32(state.memory, request.source);
            let source_width = read16(state.memory, offset(request.source, 4)) as int;
            let source_height = read16(state.memory, offset(request.source, 6)) as int;
            let color = read16(
                state.memory,
                pixel_address(source_pixels, pitch_of(source_width), source_x, source_y),
            );
            let shown = source_pixels != 0 && 0 <= i < request.width && 0 <= j < request.height
                && 0 <= source_x < source_width && 0 <= source_y < source_height && !(
            request.transparent && color == 0);
            read16(state.blitted(request).memory, at) == if shown {
                color
            } else {
                read16(state.memory, at)
            }
        }),
{
    let i = x - request.destination_x;
    let j = y - request.destination_y;
    lemma_axes(state, request, i, j);
    if let Some(copy) = state.copy_for(request) {
        law_copy_is_inside(state, request);
        lemma_separate(state, request);
        law_blit_between_separate_images(state, request);
        let ink = copy.ink(state.memory);
        lemma_small_grid(x, y, copy.destination_pitch);
        if ink(x, y) is Some {
            law_painted_pixel_reads_back(
                state.memory,
                copy.destination_pixels,
                copy.destination_pitch,
                ink,
                x,
                y,
            );
        } else {
            law_bare_pixel_keeps_its_colour(
                state.memory,
                copy.destination_pixels,
                copy.destination_pitch,
                ink,
                x,
                y,
            );
        }
    }
}

/// Pixels of a surface no larger than the frame lie well inside the address space.
proof fn lemma_small_grid(x: int, y: int, pitch: int)
    requires
        0 <= x < 240,
        0 <= y < 65536,
        0 <= pitch <= 240,
    ensures
        (y * pitch + x) * 2 + 1 < 0x1_0000_0000,
{
    assert(y * pitch <= 65536 * 240) by (nonlinear_arith)
        requires
            0 <= y < 65536,
            0 <= pitch <= 240,
    ;
}

/// A request whose pixels are read apart from where they are drawn is a copy of that kind.
proof fn lemma_separate(state: MachineState, request: BlitRequest)
    requires
        reads_apart(state, request),
        state.copy_for(request) is Some,
    ensures
        (state.copy_for(request)->0).separate(),
{
    let copy = state.copy_for(request)->0;
    lemma_copy_keeps_distance(state, request);
    let dx = copy.destination_x - request.destination_x;
    let dy = copy.destination_y - request.destination_y;
    assert forall|column: int, row: int, other_column: int, other_row: int|
        #![trigger
            copy.source_address(column, row),
            copy.destination_address(other_column, other_row)
        ]
        0 <= column < copy.width && 0 <= row < copy.height && 0 <= other_column < copy.width && 0
            <= other_row < copy.height implies {
        let from = copy.source_address(column, row);
        let to = copy.destination_address(other_column, other_row);
        from != to && from != to.wrapping_add(1) && from.wrapping_add(1) != to
    } by {
        lemma_axes(state, request, column + dx, row + dy);
        lemma_axes(state, request, other_column + dx, other_row + dy);
        let from = read_place(state, request, column + dx, row + dy);
        let to = drawn_place(state, request, other_column + dx, other_row + dy);
        assert(from == copy.source_address(column, row));
        assert(to == copy.destination_address(other_column, other_row));
    }
}

impl PixelCopy {
    /// Memory when the copy has come to pixel (`column`, `row`).
    spec fn reached(self, m: Map<u32, u8>, column: int, row: int) -> Map<u32, u8> {
        self.row_copied(self.rows_copied(m, row), column, row)
    }

    /// The copy goes from one place to another of one image.
    spec fn within(self) -> bool {
        &&& self.fits()
        &&& self.source_pixels == self.destination_pixels
        &&& self.source_pitch == self.destination_pitch
        &&& self.destination_pitch <= 240
        &&& self.destination_y + self.height <= 400
        &&& 0 <= self.source_x
        &&& 0 <= self.source_y
        &&& self.source_x + self.width <= self.destination_pitch
        &&& self.source_y + self.height <= 65536
    }

    /// The colour of a pixel of the image.
    spec fn colour_at(self, m: Map<u32, u8>, x: int, y: int) -> u16 {
        read16(m, pixel_address(self.destination_pixels, self.destination_pitch, x, y))
    }

    /// Copying a pixel keeps the colour of every other.
    proof fn lemma_pixel_frames(
        self,
        m: Map<u32, u8>,
        column: int,
        row: int,
        x: int,
        y: int,
    )
        requires
            self.within(),
            0 <= column < self.width,
            0 <= row < self.height,
            0 <= x < self.destination_pitch,
            0 <= y < 65536,
            x != self.destination_x + column || y != self.destination_y + row,
        ensures
            self.colour_at(self.pixel_copied(m, column, row), x, y) == self.colour_at(m, x, y),
    {
        let pixels = self.destination_pixels;
        let pitch = self.destination_pitch;
        let to_x = self.destination_x + column;
        let to_y = self.destination_y + row;
        lemma_small_grid(x, y, pitch);
        lemma_small_grid(to_x, to_y, pitch);
        law_pixels_lie_in_rows(pixels, pitch, x, y);
        law_pixels_lie_in_rows(pixels, pitch, to_x, to_y);
        lemma_grid_inverse(x, y, pitch);
        lemma_grid_inverse(to_x, to_y, pitch);
        let at = pixel_address(pixels, pitch, x, y);
        let to = pixel_address(pixels, pitch, to_x, to_y);
        lemma_apart(pixels, at, to, y * pitch + x, to_y * pitch + to_x);
        let color = read16(m, self.source_address(column, row));
        law_halfword_read_back(m, to, color, at);
        law_halfword_read_back(m, to, color, at.wrapping_add(1));
    }

    /// Going on in a row keeps the colour of pixels that are not come to.
    proof fn lemma_row_frames(
        self,
        m: Map<u32, u8>,
        from: int,
        to: int,
        row: int,
        x: int,
        y: int,
    )
        requires
            self.within(),
            0 <= from <= to <= self.width,
            0 <= row < self.height,
            0 <= x < self.destination_pitch,
            0 <= y < 65536,
            y != self.destination_y + row || x < self.destination_x + from || x
                >= self.destination_x + to,
        ensures
            self.colour_at(self.row_copied(m, to, row), x, y) == self.colour_at(
                self.row_copied(m, from, row),
                x,
                y,
            ),
        decreases to - from,
    {
        if from < to {
            self.lemma_row_frames(m, from, to - 1, row, x, y);
            self.lemma_pixel_frames(self.row_copied(m, to - 1, row), to - 1, row, x, y);
        }
    }

    /// Going on by rows keeps the colour of pixels that are not come to.
    proof fn lemma_rows_frame(self, m: Map<u32, u8>, from: int, to: int, x: int, y: int)
        requires
            self.within(),
            0 <= from <= to <= self.height,
            0 <= x < self.destination_pitch,
            0 <= y < 65536,
            y < self.destination_y + from || y >= self.destination_y + to || x < self.destination_x
                || x >= self.destination_x + self.width,
        ensures
            self.colour_at(self.rows_copied(m, to), x, y) == self.colour_at(
                self.rows_copied(m, from),
                x,
                y,
            ),
        decreases to - from,
    {
        if from < to {
            self.lemma_rows_frame(m, from, to - 1, x, y);
            self.lemma_row_frames(
                self.rows_copied(m, to - 1),
                0,
                self.width,
                to - 1,
                x,
                y,
            );
        }
    }

    /// A pixel that the copy has not come to has its first colour; one that it has come to has its
    /// last.
    proof fn lemma_reached(
        self,
        m: Map<u32, u8>,
        column: int,
        row: int,
        x: int,
        y: int,
    )
        requires
            self.within(),
            0 <= column <= self.width,
            0 <= row < self.height,
            0 <= x < self.destination_pitch,
            0 <= y < 65536,
        ensures
            ({
                let i = x - self.destination_x;
                let j = y - self.destination_y;
                let inside = 0 <= i < self.width && 0 <= j < self.height;
                let done = inside && (j < row || (j == row && i < column));
                let now = self.colour_at(self.reached(m, column, row), x, y);
                &&& !done ==> now == self.colour_at(m, x, y)
                &&& done || !inside ==> now == self.colour_at(
                    self.rows_copied(m, self.height),
                    x,
                    y,
                )
            }),
    {
        let i = x - self.destination_x;
        let j = y - self.destination_y;
        let inside = 0 <= i < self.width && 0 <= j < self.height;
        let done = inside && (j < row || (j == row && i < column));
        let above = self.rows_copied(m, row);
        if !done {
            self.lemma_row_frames(above, 0, column, row, x, y);
            self.lemma_rows_frame(m, 0, row, x, y);
        }
        if done || !inside {
            self.lemma_row_frames(above, column, self.width, row, x, y);
            self.lemma_rows_frame(m, row + 1, self.height, x, y);
        }
    }
}

/// Pixels with different numbers share no byte.
proof fn lemma_apart(pixels: u32, at: u32, to: u32, n: int, k: int)
    requires
        n != k,
        0 <= n && n * 2 + 1 < 0x1_0000_0000,
        0 <= k && k * 2 + 1 < 0x1_0000_0000,
        at.wrapping_sub(pixels) == n * 2,
        to.wrapping_sub(pixels) == k * 2,
    ensures
        at != to,
        at != to.wrapping_add(1),
        at.wrapping_add(1) != to,
        at.wrapping_add(1) != to.wrapping_add(1),
{
}

/// Drawing part of an image on the image itself. Pixels are copied one by one, row by row from
/// the top left. A part that is moved down, or right in its row, therefore reads what it has drawn
/// already: each pixel gets the colour that its source has in the end. Moved up, or left in its
/// row, each gets the colour that its source had before. A transparent request leaves out colour
/// zero, and every other pixel keeps its colour.
pub proof fn law_image_drawn_on_itself(
    state: MachineState,
    request: BlitRequest,
    x: int,
    y: int,
)
    requires
        ({
            let target = state.target(request.destination);
            let pitch = pitch_of(target.width as int);
            &&& read32(state.memory, request.source) == target.pixels
            &&& pitch_of(read16(state.memory, offset(request.source, 4)) as int) == pitch
            &&& 0 <= x < target.width
            &&& 0 <= y < target.height
            &&& forall|u: int, v: int|
                0 <= u < target.width && 0 <= v < target.height ==> {
                    let at = #[trigger] pixel_address(target.pixels, pitch, u, v);
                    state.memory.dom().contains(at) && state.memory.dom().contains(
                        at.wrapping_add(1),
                    )
                }
        }),
    ensures
        ({
            let target = state.target(request.destination);
            let pitch = pitch_of(target.width as int);
            let i = x - request.destination_x;
            let j = y - request.destination_y;
            let source_x = request.source_x + i;
            let source_y = request.source_y + j;
            let right = request.destination_x - request.source_x;
            let down = request.destination_y - request.source_y;
            let at = pixel_address(target.pixels, pitch, x, y);
            let from = pixel_address(target.pixels, pitch, source_x, source_y);
            let after = state.blitted(request).memory;
            let color = if down > 0 || (down == 0 && right > 0) {
                read16(after, from)
            } else {
                read16(state.memory, from)
            };
            read16(after, at) == if drawn(state, request, i, j) && !(request.transparent && color
                == 0) {
                color
            } else {
                read16(state.memory, at)
            }
        }),
{
    let i = x - request.destination_x;
    let j = y - request.destination_y;
    lemma_axes(state, request, i, j);
    if let Some(copy) = state.copy_for(request) {
        law_copy_is_inside(state, request);
        let m = state.memory;
        let last = copy.rows_copied(m, copy.height);
        let column = x - copy.destination_x;
        let row = y - copy.destination_y;
        let pitch = copy.destination_pitch;
        assert(copy.within());
        if drawn(state, request, i, j) {
            let source_x = request.source_x + i;
            let source_y = request.source_y + j;
            let before = copy.reached(m, column, row);
            copy.lemma_reached(m, column, row, source_x, source_y);
            copy.lemma_reached(m, column, row, x, y);
            copy.lemma_reached(m, column + 1, row, x, y);
            assert(copy.reached(m, column + 1, row) == copy.pixel_copied(before, column, row));
            let color = copy.colour_at(before, source_x, source_y);
            assert(color == read16(before, copy.source_address(column, row)));
            let at = pixel_address(copy.destination_pixels, pitch, x, y);
            assert(at == copy.destination_address(column, row));
            copy.lemma_row_keeps_all(m, column, row);
            law_halfword_read_back(before, at, color, 0);
        } else {
            copy.lemma_rows_frame(m, 0, copy.height, x, y);
        }
    }
}

impl PixelCopy {
    /// What the copy has come to maps the same bytes.
    proof fn lemma_row_keeps_all(self, m: Map<u32, u8>, column: int, row: int)
        ensures
            self.reached(m, column, row).dom() == m.dom(),
    {
        self.lemma_copy_keeps_mapping(m, row);
        self.lemma_row_keeps_mapping(self.rows_copied(m, row), column, row);
    }
}

/// The services 24 and 25 draw part of the image in the second register on the image in the first:
/// from the column and row in the next two, as wide and as high and at the place that the stack
/// says. The second is transparent.
pub proof fn law_clip_services(
    state: MachineState,
    transparent: bool,
    source_x: i32,
    source_y: i32,
    width: i32,
    height: i32,
    x: i32,
    y: i32,
)
    requires
        holds(state.registers[2], source_x as int),
        holds(state.registers[3], source_y as int),
        holds(stacked(state, 0), width as int),
        holds(stacked(state, 4), height as int),
        holds(stacked(state, 8), x as int),
        holds(stacked(state, 12), y as int),
    ensures
        state.lcd_service(if transparent {
            25
        } else {
            24
        }) == (
            state.blitted(
                BlitRequest {
                    destination: state.registers[0],
                    source: state.registers[1],
                    source_x,
                    source_y,
                    width,
                    height,
                    destination_x: x,
                    destination_y: y,
                    transparent,
                },
            ).with_result(1),
            Outcome::Done,
        ),
{
    let index: u32 = if transparent {
        25
    } else {
        24
    };
    lemma_draws(state, index);
    law_offset_steps_on(state.registers[13], 0, 0);
    lemma_coord(state.registers[2], source_x as int);
    lemma_coord(state.registers[3], source_y as int);
    lemma_coord(stacked(state, 0), width as int);
    lemma_coord(stacked(state, 4), height as int);
    lemma_coord(stacked(state, 8), x as int);
    lemma_coord(stacked(state, 12), y as int);
    assert(state.drawing_service(index) == state.blitted(state.clip_request(transparent)));
}

/// The services 26 to 28 draw all of the image in the first register on the frame buffer. The
/// first and the last take the place packed into the second register, the other takes column and
/// row from the next two. Only the last is transparent.
pub proof fn law_whole_image_services(state: MachineState, x: i32, y: i32, index: u32)
    requires
        26 <= index <= 28,
        index == 27 ==> holds(state.registers[1], x as int) && holds(
            state.registers[2],
            y as int,
        ),
        index != 27 ==> holds_point(state.registers[1], x as int, y as int),
    ensures
        state.lcd_service(index) == (
            state.blitted(
                BlitRequest {
                    destination: state.layout.screen_image_struct,
                    source: state.registers[0],
                    source_x: 0,
                    source_y: 0,
                    width: read16(state.memory, offset(state.registers[0], 4)) as i32,
                    height: read16(state.memory, offset(state.registers[0], 6)) as i32,
                    destination_x: x,
                    destination_y: y,
                    transparent: index == 28,
                },
            ).with_result(1),
            Outcome::Done,
        ),
{
    lemma_draws(state, index);
    if index == 27 {
        lemma_coord(state.registers[1], x as int);
        lemma_coord(state.registers[2], y as int);
    } else {
        lemma_point(state.registers[1], x as int, y as int);
    }
}

/// The services 29 and 31 draw part of the image in the first register on the frame buffer: from
/// the point in the second register, between the corners in the next two, which both belong to it.
/// The second is transparent.
pub proof fn law_packed_image_services(
    state: MachineState,
    transparent: bool,
    source_x: i32,
    source_y: i32,
    left: i32,
    top: i32,
    right: i32,
    bottom: i32,
)
    requires
        holds_point(state.registers[1], source_x as int, source_y as int),
        holds_point(state.registers[2], left as int, top as int),
        holds_point(state.registers[3], right as int, bottom as int),
    ensures
        state.lcd_service(if transparent {
            31
        } else {
            29
        }) == (
            state.blitted(
                BlitRequest {
                    destination: state.layout.screen_image_struct,
                    source: state.registers[0],
                    source_x,
                    source_y,
                    width: (right - left + 1) as i32,
                    height: (bottom - top + 1) as i32,
                    destination_x: left,
                    destination_y: top,
                    transparent,
                },
            ).with_result(1),
            Outcome::Done,
        ),
{
    let index: u32 = if transparent {
        31
    } else {
        29
    };
    lemma_draws(state, index);
    lemma_point(state.registers[1], source_x as int, source_y as int);
    lemma_point(state.registers[2], left as int, top as int);
    lemma_point(state.registers[3], right as int, bottom as int);
}

/// The services 30 and 32 draw part of the image in the first register on the frame buffer: from
/// the column and row in the next two, as wide as the fourth says, as high and at the place that
/// the stack says. The second is transparent.
pub proof fn law_full_clip_services(
    state: MachineState,
    transparent: bool,
    source_x: i32,
    source_y: i32,
    width: i32,
    height: i32,
    x: i32,
    y: i32,
)
    requires
        holds(state.registers[1], source_x as int),
        holds(state.registers[2], source_y as int),
        holds(state.registers[3], width as int),
        holds(stacked(state, 0), height as int),
        holds(stacked(state, 4), x as int),
        holds(stacked(state, 8), y as int),
    ensures
        state.lcd_service(if transparent {
            32
        } else {
            30
        }) == (
            state.blitted(
                BlitRequest {
                    destination: state.layout.screen_image_struct,
                    source: state.registers[0],
                    source_x,
                    source_y,
                    width,
                    height,
                    destination_x: x,
                    destination_y: y,
                    transparent,
                },
            ).with_result(1),
            Outcome::Done,
        ),
{
    let index: u32 = if transparent {
        32
    } else {
        30
    };
    lemma_draws(state, index);
    law_offset_steps_on(state.registers[13], 0, 0);
    lemma_coord(state.registers[1], source_x as int);
    lemma_coord(state.registers[2], source_y as int);
    lemma_coord(state.registers[3], width as int);
    lemma_coord(stacked(state, 0), height as int);
    lemma_coord(stacked(state, 4), x as int);
    lemma_coord(stacked(state, 8), y as int);
    assert(state.drawing_service(index) == state.blitted(state.full_clip_request(transparent)));
}

} // verus!
