//! Copying images onto surfaces.

use vstd::prelude::*;

use crate::machine::{MachineState, NicaiMachine};
use crate::memory::{
    address_at, law_halfword_read_back, offset, read16, read32, read8, write16,
};
use crate::surface::{
    address_of_pixel, clip_axis, clipped, ink_until, lemma_grid, lemma_grid_inverse,
    lemma_paint_nothing, lemma_paint_pixel, lemma_same_ink, painted, pitch_of, pixel_address,
    row_pitch, signed16, signed_coord, Surface,
};

verus! {

/// A copy of a rectangle of pixels that needs no more clipping.
pub struct PixelCopy {
    pub source_pixels: u32,
    pub source_pitch: int,
    pub source_x: int,
    pub source_y: int,
    pub destination_pixels: u32,
    pub destination_pitch: int,
    pub destination_x: int,
    pub destination_y: int,
    pub width: int,
    pub height: int,
    pub transparent: bool,
}

impl PixelCopy {
    /// The address that pixel (`column`, `row`) is read from.
    pub open spec fn source_address(self, column: int, row: int) -> u32 {
        pixel_address(
            self.source_pixels,
            self.source_pitch,
            self.source_x + column,
            self.source_y + row,
        )
    }

    /// The address that pixel (`column`, `row`) goes to.
    pub open spec fn destination_address(self, column: int, row: int) -> u32 {
        pixel_address(
            self.destination_pixels,
            self.destination_pitch,
            self.destination_x + column,
            self.destination_y + row,
        )
    }

    /// Memory after one pixel is copied. A transparent copy leaves out pixels of colour zero.
    pub open spec fn pixel_copied(self, m: Map<u32, u8>, column: int, row: int) -> Map<u32, u8> {
        let color = read16(m, self.source_address(column, row));
        if self.transparent && color == 0 {
            m
        } else {
            write16(m, self.destination_address(column, row), color)
        }
    }

    /// Memory after the first `columns` pixels of a row are copied, from left to right.
    pub open spec fn row_copied(self, m: Map<u32, u8>, columns: int, row: int) -> Map<u32, u8>
        decreases columns,
    {
        if columns <= 0 {
            m
        } else {
            self.pixel_copied(self.row_copied(m, columns - 1, row), columns - 1, row)
        }
    }

    /// Memory after the first `rows` rows are copied, from top to bottom.
    pub open spec fn rows_copied(self, m: Map<u32, u8>, rows: int) -> Map<u32, u8>
        decreases rows,
    {
        if rows <= 0 {
            m
        } else {
            self.row_copied(self.rows_copied(m, rows - 1), self.width, rows - 1)
        }
    }
}

/// What a guest asks for when it draws an image.
pub struct BlitRequest {
    pub destination: u32,
    pub source: u32,
    pub source_x: i32,
    pub source_y: i32,
    pub width: i32,
    pub height: i32,
    pub destination_x: i32,
    pub destination_y: i32,
    pub transparent: bool,
}

impl MachineState {
    /// What there is to copy once a request is clipped to the source image and to the surface
    /// that it asks to draw on.
    pub open spec fn copy_for(self, request: BlitRequest) -> Option<PixelCopy> {
        let source_pixels = read32(self.memory, request.source);
        let source_width = read16(self.memory, offset(request.source, 4)) as int;
        let source_height = read16(self.memory, offset(request.source, 6)) as int;
        let target = self.target(request.destination);
        let across = clipped(
            request.source_x as int,
            request.width as int,
            request.destination_x as int,
            source_width,
            target.width as int,
        );
        let down = clipped(
            request.source_y as int,
            request.height as int,
            request.destination_y as int,
            source_height,
            target.height as int,
        );
        if source_pixels == 0 {
            None
        } else {
            match (across, down) {
                (Some(across), Some(down)) => Some(
                    PixelCopy {
                        source_pixels,
                        source_pitch: pitch_of(source_width),
                        source_x: across.source as int,
                        source_y: down.source as int,
                        destination_pixels: target.pixels,
                        destination_pitch: pitch_of(target.width as int),
                        destination_x: across.destination as int,
                        destination_y: down.destination as int,
                        width: across.length as int,
                        height: down.length as int,
                        transparent: request.transparent,
                    },
                ),
                _ => None,
            }
        }
    }

    /// The machine after an image is drawn.
    pub open spec fn blitted(self, request: BlitRequest) -> MachineState {
        match self.copy_for(request) {
            Some(copy) => self.with_memory(copy.rows_copied(self.memory, copy.height)),
            None => self,
        }
    }

    /// Draws all of an image on the frame buffer.
    pub open spec fn whole_image_request(
        self,
        source: u32,
        x: i32,
        y: i32,
        transparent: bool,
    ) -> BlitRequest {
        BlitRequest {
            destination: self.layout.screen_image_struct,
            source,
            source_x: 0,
            source_y: 0,
            width: read16(self.memory, offset(source, 4)) as i32,
            height: read16(self.memory, offset(source, 6)) as i32,
            destination_x: x,
            destination_y: y,
            transparent,
        }
    }

    /// Draws part of an image on another; all but the first four arguments are on the stack.
    pub open spec fn clip_request(self, transparent: bool) -> BlitRequest {
        let stack = self.stack();
        BlitRequest {
            destination: self.registers[0],
            source: self.registers[1],
            source_x: signed16(self.registers[2]),
            source_y: signed16(self.registers[3]),
            width: signed16(read32(self.memory, stack)),
            height: signed16(read32(self.memory, offset(stack, 4))),
            destination_x: signed16(read32(self.memory, offset(stack, 8))),
            destination_y: signed16(read32(self.memory, offset(stack, 12))),
            transparent,
        }
    }

    /// Draws part of an image on the frame buffer, between two corners that both belong to it.
    pub open spec fn packed_request(self, transparent: bool) -> BlitRequest {
        let x = signed16(self.registers[2]);
        let y = signed16(self.registers[2] / 65536);
        BlitRequest {
            destination: self.layout.screen_image_struct,
            source: self.registers[0],
            source_x: signed16(self.registers[1]),
            source_y: signed16(self.registers[1] / 65536),
            width: (signed16(self.registers[3]) - x + 1) as i32,
            height: (signed16(self.registers[3] / 65536) - y + 1) as i32,
            destination_x: x,
            destination_y: y,
            transparent,
        }
    }

    /// Draws part of an image on the frame buffer; the height and the place are on the stack.
    pub open spec fn full_clip_request(self, transparent: bool) -> BlitRequest {
        let stack = self.stack();
        BlitRequest {
            destination: self.layout.screen_image_struct,
            source: self.registers[0],
            source_x: signed16(self.registers[1]),
            source_y: signed16(self.registers[2]),
            width: signed16(self.registers[3]),
            height: signed16(read32(self.memory, stack)),
            destination_x: signed16(read32(self.memory, offset(stack, 4))),
            destination_y: signed16(read32(self.memory, offset(stack, 8))),
            transparent,
        }
    }
}

impl NicaiMachine {
    /// Copies a rectangle of an image to the surface that `destination` stands for. Both are
    /// cut off at their edges. Pixels are copied one by one, row by row from the top left, so
    /// that a copy within one image reads what it has written already.
    pub fn blit_image(
        &mut self,
        destination: u32,
        source: u32,
        source_x: i32,
        source_y: i32,
        width: i32,
        height: i32,
        destination_x: i32,
        destination_y: i32,
        transparent: bool,
    )
        requires
            old(self).wf(),
        ensures
            final(self).wf(),
            final(self)@ == old(self)@.blitted(
                BlitRequest {
                    destination,
                    source,
                    source_x,
                    source_y,
                    width,
                    height,
                    destination_x,
                    destination_y,
                    transparent,
                },
            ),
    {
        let ghost request = BlitRequest {
            destination,
            source,
            source_x,
            source_y,
            width,
            height,
            destination_x,
            destination_y,
            transparent,
        };
        let source_pixels: u32 = self.memory.r32(source);
        let source_width: i32 = self.memory.r16(address_at(source, 4)) as i32;
        let source_height: i32 = self.memory.r16(address_at(source, 6)) as i32;
        let target = self.target_surface(destination);
        if source_pixels == 0 {
            return ;
        }
        let across = clip_axis(source_x, width, destination_x, source_width, target.width);
        let down = clip_axis(source_y, height, destination_y, source_height, target.height);
        if let (Some(across), Some(down)) = (across, down) {
            let source_pitch: u32 = row_pitch(source_width as u32);
            let destination_pitch: u32 = row_pitch(target.width as u32);
            let ghost copy = self@.copy_for(request)->0;
            let ghost m = self@.memory;
            let mut row: u32 = 0;
            while row < down.length as u32
                invariant
                    self.wf(),
                    self@ == old(self)@.with_memory(copy.rows_copied(m, row as int)),
                    m == old(self)@.memory,
                    old(self)@.copy_for(request) == Some(copy),
                    0 < across.length,
                    0 <= across.source <= 65535,
                    0 <= across.destination <= 400,
                    across.source + across.length <= 65535,
                    across.destination + across.length <= 400,
                    0 < down.length,
                    0 <= down.source <= 65535,
                    0 <= down.destination <= 400,
                    down.source + down.length <= 65535,
                    down.destination + down.length <= 400,
                    source_pitch <= 65536,
                    destination_pitch <= 65536,
                    row <= down.length,
                    copy == (PixelCopy {
                        source_pixels,
                        source_pitch: source_pitch as int,
                        source_x: across.source as int,
                        source_y: down.source as int,
                        destination_pixels: target.pixels,
                        destination_pitch: destination_pitch as int,
                        destination_x: across.destination as int,
                        destination_y: down.destination as int,
                        width: across.length as int,
                        height: down.length as int,
                        transparent,
                    }),
                decreases down.length - row,
            {
                let ghost above = copy.rows_copied(m, row as int);
                let mut column: u32 = 0;
                while column < across.length as u32
                    invariant
                        self.wf(),
                        self@ == old(self)@.with_memory(
                            copy.row_copied(above, column as int, row as int),
                        ),
                        0 < across.length,
                        0 <= across.source <= 65535,
                        0 <= across.destination <= 400,
                        across.source + across.length <= 65535,
                        across.destination + across.length <= 400,
                        0 <= down.source <= 65535,
                        0 <= down.destination <= 400,
                        down.source + down.length <= 65535,
                        down.destination + down.length <= 400,
                        source_pitch <= 65536,
                        destination_pitch <= 65536,
                        row < down.length,
                        column <= across.length,
                        copy == (PixelCopy {
                            source_pixels,
                            source_pitch: source_pitch as int,
                            source_x: across.source as int,
                            source_y: down.source as int,
                            destination_pixels: target.pixels,
                            destination_pitch: destination_pitch as int,
                            destination_x: across.destination as int,
                            destination_y: down.destination as int,
                            width: across.length as int,
                            height: down.length as int,
                            transparent,
                        }),
                    decreases across.length - column,
                {
                    let ghost before = self@.memory;
                    let color: u16 = self.memory.r16(
                        address_of_pixel(
                            source_pixels,
                            source_pitch,
                            across.source as u32 + column,
                            down.source as u32 + row,
                        ),
                    );
                    if !transparent || color != 0 {
                        let address: u32 = address_of_pixel(
                            target.pixels,
                            destination_pitch,
                            across.destination as u32 + column,
                            down.destination as u32 + row,
                        );
                        self.memory.w16(address, color);
                    }
                    assert(self@ =~= old(self)@.with_memory(
                        copy.pixel_copied(before, column as int, row as int),
                    ));
                    column += 1;
                }
                row += 1;
            }
        }
    }

    /// Draws part of an image on another.
    pub fn draw_image_clip(&mut self, transparent: bool)
        requires
            old(self).wf(),
        ensures
            final(self).wf(),
            final(self)@ == old(self)@.blitted(old(self)@.clip_request(transparent)),
    {
        let destination: u32 = self.register(0);
        let source: u32 = self.register(1);
        let source_x: i32 = signed_coord(self.register(2));
        let source_y: i32 = signed_coord(self.register(3));
        let stack: u32 = self.stack_pointer();
        let width: i32 = signed_coord(self.memory.r32(stack));
        let height: i32 = signed_coord(self.memory.r32(address_at(stack, 4)));
        let destination_x: i32 = signed_coord(self.memory.r32(address_at(stack, 8)));
        let destination_y: i32 = signed_coord(self.memory.r32(address_at(stack, 12)));
        self.blit_image(
            destination,
            source,
            source_x,
            source_y,
            width,
            height,
            destination_x,
            destination_y,
            transparent,
        );
    }

    /// Draws all of an image on the frame buffer.
    pub fn draw_image_at(&mut self, source: u32, x: i32, y: i32, transparent: bool)
        requires
            old(self).wf(),
        ensures
            final(self).wf(),
            final(self)@ == old(self)@.blitted(
                old(self)@.whole_image_request(source, x, y, transparent),
            ),
    {
        let width: i32 = self.memory.r16(address_at(source, 4)) as i32;
        let height: i32 = self.memory.r16(address_at(source, 6)) as i32;
        self.blit_image(
            self.layout.screen_image_struct,
            source,
            0,
            0,
            width,
            height,
            x,
            y,
            transparent,
        );
    }

    /// Draws part of an image on the frame buffer, between two packed corners.
    pub fn draw_image_packed(&mut self, transparent: bool)
        requires
            old(self).wf(),
        ensures
            final(self).wf(),
            final(self)@ == old(self)@.blitted(old(self)@.packed_request(transparent)),
    {
        let source: u32 = self.register(0);
        let source_start: u32 = self.register(1);
        let destination_start: u32 = self.register(2);
        let destination_end: u32 = self.register(3);
        let source_x: i32 = signed_coord(source_start);
        let source_y: i32 = signed_coord(source_start / 65536);
        let destination_x: i32 = signed_coord(destination_start);
        let destination_y: i32 = signed_coord(destination_start / 65536);
        let width: i32 = signed_coord(destination_end) - destination_x + 1;
        let height: i32 = signed_coord(destination_end / 65536) - destination_y + 1;
        self.blit_image(
            self.layout.screen_image_struct,
            source,
            source_x,
            source_y,
            width,
            height,
            destination_x,
            destination_y,
            transparent,
        );
    }

    /// Draws part of an image on the frame buffer.
    pub fn draw_image_full_clip(&mut self, transparent: bool)
        requires
            old(self).wf(),
        ensures
            final(self).wf(),
            final(self)@ == old(self)@.blitted(old(self)@.full_clip_request(transparent)),
    {
        let source: u32 = self.register(0);
        let source_x: i32 = signed_coord(self.register(1));
        let source_y: i32 = signed_coord(self.register(2));
        let width: i32 = signed_coord(self.register(3));
        let stack: u32 = self.stack_pointer();
        let height: i32 = signed_coord(self.memory.r32(stack));
        let destination_x: i32 = signed_coord(self.memory.r32(address_at(stack, 4)));
        let destination_y: i32 = signed_coord(self.memory.r32(address_at(stack, 8)));
        self.blit_image(
            self.layout.screen_image_struct,
            source,
            source_x,
            source_y,
            width,
            height,
            destination_x,
            destination_y,
            transparent,
        );
    }
}

impl PixelCopy {
    /// The rectangle that is drawn lies inside its image, whose pixels all have addresses of
    /// their own.
    pub open spec fn fits(self) -> bool {
        &&& 0 <= self.width
        &&& 0 <= self.height
        &&& 0 <= self.destination_x
        &&& 0 <= self.destination_y
        &&& self.destination_x + self.width <= self.destination_pitch
        &&& (self.destination_y + self.height) * self.destination_pitch * 2 <= 0x1_0000_0000
    }

    /// No byte that is read is a byte that is written.
    pub open spec fn separate(self) -> bool {
        forall|column: int, row: int, other_column: int, other_row: int|
            #![trigger
                self.source_address(column, row),
                self.destination_address(other_column, other_row)
            ]
            0 <= column < self.width && 0 <= row < self.height && 0 <= other_column < self.width
                && 0 <= other_row < self.height ==> {
                let from = self.source_address(column, row);
                let to = self.destination_address(other_column, other_row);
                from != to && from != to.wrapping_add(1) && from.wrapping_add(1) != to
            }
    }

    /// The ink of a copy: each pixel of the rectangle has the colour of its source. A
    /// transparent copy leaves out pixels of colour zero.
    pub open spec fn ink(self, m: Map<u32, u8>) -> spec_fn(int, int) -> Option<u16> {
        |x: int, y: int|
            {
                let column = x - self.destination_x;
                let row = y - self.destination_y;
                let color = read16(m, self.source_address(column, row));
                if 0 <= column < self.width && 0 <= row < self.height && !(self.transparent
                    && color == 0) {
                    Some(color)
                } else {
                    None
                }
            }
    }

    /// A source pixel keeps its colour while the rectangle is being drawn.
    proof fn lemma_source_untouched(
        self,
        m: Map<u32, u8>,
        partial: spec_fn(int, int) -> Option<u16>,
        column: int,
        row: int,
    )
        requires
            self.fits(),
            self.separate(),
            0 <= column < self.width,
            0 <= row < self.height,
            forall|x: int, y: int|
                #[trigger] partial(x, y) is Some ==> self.ink(m)(x, y) is Some,
        ensures
            read16(
                painted(m, self.destination_pixels, self.destination_pitch, partial),
                self.source_address(column, row),
            ) == read16(m, self.source_address(column, row)),
    {
        let from = self.source_address(column, row);
        self.lemma_byte_untouched(m, partial, column, row, from);
        self.lemma_byte_untouched(m, partial, column, row, from.wrapping_add(1));
    }

    proof fn lemma_byte_untouched(
        self,
        m: Map<u32, u8>,
        partial: spec_fn(int, int) -> Option<u16>,
        column: int,
        row: int,
        a: u32,
    )
        requires
            self.fits(),
            self.separate(),
            0 <= column < self.width,
            0 <= row < self.height,
            a == self.source_address(column, row) || a == self.source_address(
                column,
                row,
            ).wrapping_add(1),
            forall|x: int, y: int|
                #[trigger] partial(x, y) is Some ==> self.ink(m)(x, y) is Some,
        ensures
            read8(painted(m, self.destination_pixels, self.destination_pitch, partial), a)
                == read8(m, a),
    {
        let place = a.wrapping_sub(self.destination_pixels) as int;
        let pitch = self.destination_pitch;
        lemma_grid(place / 2, pitch);
        let x = place / 2 % pitch;
        let y = place / 2 / pitch;
        if partial(x, y) is Some {
            assert(self.ink(m)(x, y) is Some);
            let to = self.destination_address(x - self.destination_x, y - self.destination_y);
            assert(y * pitch + x == place / 2);
            assert(a == to || a == to.wrapping_add(1));
            assert(self.source_address(column, row) != to);
            assert(false);
        }
    }

    proof fn lemma_row_is_painted(self, m: Map<u32, u8>, columns: int, row: int)
        requires
            self.fits(),
            self.separate(),
            0 <= columns <= self.width,
            0 <= row < self.height,
        ensures
            self.row_copied(
                painted(
                    m,
                    self.destination_pixels,
                    self.destination_pitch,
                    ink_until(self.ink(m), self.destination_x, self.destination_y + row),
                ),
                columns,
                row,
            ) == painted(
                m,
                self.destination_pixels,
                self.destination_pitch,
                ink_until(self.ink(m), self.destination_x + columns, self.destination_y + row),
            ),
        decreases columns,
    {
        if columns > 0 {
            self.lemma_row_is_painted(m, columns - 1, row);
            let pixels = self.destination_pixels;
            let pitch = self.destination_pitch;
            let ink = self.ink(m);
            let x = self.destination_x + columns - 1;
            let y = self.destination_y + row;
            let before = ink_until(ink, x, y);
            let after = ink_until(ink, x + 1, y);
            self.lemma_source_untouched(m, before, columns - 1, row);
            let color = read16(m, self.source_address(columns - 1, row));
            if self.transparent && color == 0 {
                lemma_same_ink(m, pixels, pitch, before, after);
            } else {
                assert((y * pitch + x) * 2 + 1 < 0x1_0000_0000) by (nonlinear_arith)
                    requires
                        y + 1 <= self.destination_y + self.height,
                        0 <= y,
                        0 <= x < pitch,
                        pitch == self.destination_pitch,
                        (self.destination_y + self.height) * self.destination_pitch * 2
                            <= 0x1_0000_0000,
                ;
                lemma_paint_pixel(
                    m,
                    pixels,
                    pitch,
                    before,
                    after,
                    x,
                    y,
                    color,
                    self.destination_address(columns - 1, row),
                );
            }
        }
    }

    proof fn lemma_rows_are_painted(self, m: Map<u32, u8>, rows: int)
        requires
            self.fits(),
            self.separate(),
            0 <= rows <= self.height,
        ensures
            self.rows_copied(m, rows) == painted(
                m,
                self.destination_pixels,
                self.destination_pitch,
                ink_until(self.ink(m), 0, self.destination_y + rows),
            ),
        decreases rows,
    {
        let pixels = self.destination_pixels;
        let pitch = self.destination_pitch;
        let ink = self.ink(m);
        let y = self.destination_y + rows;
        if rows == 0 {
            lemma_paint_nothing(m, pixels, pitch, ink_until(ink, 0, y));
        } else {
            self.lemma_rows_are_painted(m, rows - 1);
            if self.width > 0 {
                lemma_same_ink(
                    m,
                    pixels,
                    pitch,
                    ink_until(ink, 0, y - 1),
                    ink_until(ink, self.destination_x, y - 1),
                );
                self.lemma_row_is_painted(m, self.width, rows - 1);
                lemma_same_ink(
                    m,
                    pixels,
                    pitch,
                    ink_until(ink, self.destination_x + self.width, y - 1),
                    ink_until(ink, 0, y),
                );
            } else {
                lemma_paint_nothing(m, pixels, pitch, ink_until(ink, 0, y - 1));
                lemma_paint_nothing(m, pixels, pitch, ink_until(ink, 0, y));
            }
        }
    }
}

/// What is left of a request after clipping is not empty, comes from inside the source image
/// and goes inside the surface that it is drawn on.
pub proof fn law_copy_is_inside(state: MachineState, request: BlitRequest)
    requires
        state.copy_for(request) is Some,
    ensures
        ({
            let copy = state.copy_for(request)->0;
            let target = state.target(request.destination);
            &&& copy.fits()
            &&& copy.width > 0 && copy.height > 0
            &&& 0 <= copy.source_x && copy.source_x + copy.width <= read16(
                state.memory,
                offset(request.source, 4),
            )
            &&& 0 <= copy.source_y && copy.source_y + copy.height <= read16(
                state.memory,
                offset(request.source, 6),
            )
            &&& copy.destination_x + copy.width <= target.width
            &&& copy.destination_y + copy.height <= target.height
        }),
{
    let copy = state.copy_for(request)->0;
    assert((copy.destination_y + copy.height) * copy.destination_pitch <= 400 * 240)
        by (nonlinear_arith)
        requires
            0 <= copy.destination_y + copy.height <= 400,
            0 <= copy.destination_pitch <= 240,
    ;
}

/// Where source and destination share no byte, drawing an image gives every pixel of the
/// rectangle the colour that its source pixel had, leaves out colour zero if the copy is
/// transparent, and changes nothing else.
pub proof fn law_blit_between_separate_images(state: MachineState, request: BlitRequest)
    requires
        state.copy_for(request) is Some,
        (state.copy_for(request)->0).separate(),
    ensures
        ({
            let copy = state.copy_for(request)->0;
            state.blitted(request) == state.with_memory(
                painted(
                    state.memory,
                    copy.destination_pixels,
                    copy.destination_pitch,
                    copy.ink(state.memory),
                ),
            )
        }),
{
    let copy = state.copy_for(request)->0;
    law_copy_is_inside(state, request);
    copy.lemma_rows_are_painted(state.memory, copy.height);
    lemma_same_ink(
        state.memory,
        copy.destination_pixels,
        copy.destination_pitch,
        ink_until(copy.ink(state.memory), 0, copy.destination_y + copy.height),
        copy.ink(state.memory),
    );
}

impl PixelCopy {
    /// The rectangle that is drawn lies on the surface.
    spec fn goes_to(self, target: Surface) -> bool {
        &&& self.fits()
        &&& target.fits()
        &&& self.destination_pixels == target.pixels
        &&& self.destination_pitch == pitch_of(target.width as int)
        &&& self.destination_x + self.width <= target.width
        &&& self.destination_y + self.height <= target.height
    }

    /// Copying a pixel keeps every byte outside the surface that it is drawn on.
    proof fn lemma_pixel_stays(
        self,
        m: Map<u32, u8>,
        column: int,
        row: int,
        target: Surface,
        a: u32,
    )
        requires
            0 <= column < self.width,
            0 <= row < self.height,
            self.goes_to(target),
            target.leaves_out(a),
        ensures
            read8(self.pixel_copied(m, column, row), a) == read8(m, a),
            self.pixel_copied(m, column, row).dom() == m.dom(),
    {
        let x = self.destination_x + column;
        let y = self.destination_y + row;
        let pitch = self.destination_pitch;
        let n = y * pitch + x;
        assert(0 <= n * 2 && n * 2 + 2 <= target.height * pitch * 2) by (nonlinear_arith)
            requires
                0 <= x < pitch,
                0 <= y < target.height,
                n == y * pitch + x,
        ;
        lemma_grid_inverse(x, y, pitch);
        let to = self.destination_address(column, row);
        assert(to.wrapping_sub(self.destination_pixels) == n * 2);
        assert(to.wrapping_add(1).wrapping_sub(self.destination_pixels) == n * 2 + 1);
        assert(a != to && a != to.wrapping_add(1));
        let color = read16(m, self.source_address(column, row));
        law_halfword_read_back(m, self.destination_address(column, row), color, a);
    }

    /// Copying a row keeps every byte outside the surface that it is drawn on.
    proof fn lemma_row_stays(self, m: Map<u32, u8>, columns: int, row: int, target: Surface, a: u32)
        requires
            columns <= self.width,
            0 <= row < self.height,
            self.goes_to(target),
            target.leaves_out(a),
        ensures
            read8(self.row_copied(m, columns, row), a) == read8(m, a),
        decreases columns,
    {
        if columns > 0 {
            self.lemma_row_stays(m, columns - 1, row, target, a);
            self.lemma_pixel_stays(
                self.row_copied(m, columns - 1, row),
                columns - 1,
                row,
                target,
                a,
            );
        }
    }

    /// Copying rows keeps every byte outside the surface that they are drawn on.
    proof fn lemma_rows_stay(self, m: Map<u32, u8>, done: int, target: Surface, a: u32)
        requires
            done <= self.height,
            self.goes_to(target),
            target.leaves_out(a),
        ensures
            read8(self.rows_copied(m, done), a) == read8(m, a),
        decreases done,
    {
        if done > 0 {
            self.lemma_rows_stay(m, done - 1, target, a);
            self.lemma_row_stays(self.rows_copied(m, done - 1), self.width, done - 1, target, a);
        }
    }

    /// Copying maps and unmaps nothing.
    pub proof fn lemma_copy_keeps_mapping(self, m: Map<u32, u8>, rows: int)
        ensures
            self.rows_copied(m, rows).dom() == m.dom(),
        decreases rows,
    {
        if rows > 0 {
            self.lemma_copy_keeps_mapping(m, rows - 1);
            self.lemma_row_keeps_mapping(self.rows_copied(m, rows - 1), self.width, rows - 1);
        }
    }

    pub proof fn lemma_row_keeps_mapping(self, m: Map<u32, u8>, columns: int, row: int)
        ensures
            self.row_copied(m, columns, row).dom() == m.dom(),
        decreases columns,
    {
        if columns > 0 {
            self.lemma_row_keeps_mapping(m, columns - 1, row);
            let before = self.row_copied(m, columns - 1, row);
            let color = read16(before, self.source_address(columns - 1, row));
            law_halfword_read_back(
                before,
                self.destination_address(columns - 1, row),
                color,
                0,
            );
        }
    }
}

/// Drawing an image changes no byte outside the surface that it is drawn on, nor one of the
/// padding between the surface's rows, even where source and destination overlap.
pub proof fn law_blit_stays_on_target(state: MachineState, request: BlitRequest, a: u32)
    requires
        state.target(request.destination).leaves_out(a),
    ensures
        read8(state.blitted(request).memory, a) == read8(state.memory, a),
{
    if let Some(copy) = state.copy_for(request) {
        let target = state.target(request.destination);
        law_copy_is_inside(state, request);
        assert(target.height * copy.destination_pitch <= 400 * 240) by (nonlinear_arith)
            requires
                0 <= target.height <= 400,
                0 <= copy.destination_pitch <= 240,
        ;
        copy.lemma_rows_stay(state.memory, copy.height, target, a);
    }
}

/// An image whose header has no pixels draws nothing.
pub proof fn law_image_without_pixels_draws_nothing(state: MachineState, request: BlitRequest)
    requires
        read32(state.memory, request.source) == 0,
    ensures
        state.blitted(request) == state,
{
}

/// A request without width or height draws nothing.
pub proof fn law_empty_request_draws_nothing(state: MachineState, request: BlitRequest)
    requires
        request.width <= 0 || request.height <= 0,
    ensures
        state.blitted(request) == state,
{
}

} // verus!
