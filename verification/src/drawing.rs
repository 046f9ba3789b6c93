//! Rectangles on the frame buffer and on guest images.

use vstd::prelude::*;

use crate::machine::{MachineState, NicaiMachine};
use crate::memory::{address_at, offset, read16, read32, read8, GuestMemory};
use crate::surface::{
    address_of_pixel, clip_axis, ink_over, ink_until, law_bare_pixel_keeps_its_colour,
    law_paint_twice, law_painted_pixel_reads_back, law_painting_keeps_padding,
    law_painting_stays_inside, lemma_frame_place, lemma_paint_nothing, lemma_paint_pixel,
    lemma_same_ink, painted, pitch_of, pixel_address, row_pitch, signed16, signed_coord, Surface,
    FRAME_HEIGHT, FRAME_WIDTH,
};

verus! {

/// The ink of a rectangle: all of its pixels, or its outermost ones alone.
pub open spec fn box_ink(
    left: int,
    top: int,
    width: int,
    height: int,
    color: u16,
    outline: bool,
) -> spec_fn(int, int) -> Option<u16> {
    |x: int, y: int|
        if left <= x < left + width && top <= y < top + height && (!outline || x == left || x
            == left + width - 1 || y == top || y == top + height - 1) {
            Some(color)
        } else {
            None
        }
}

/// Paints a rectangle that lies inside its image.
fn paint_box(
    memory: &mut GuestMemory,
    pixels: u32,
    pitch: u32,
    left: i32,
    top: i32,
    width: i32,
    height: i32,
    color: u16,
    outline: bool,
)
    requires
        old(memory).wf(),
        pitch <= 0x8000_0000,
        0 <= left,
        0 <= top,
        left + width <= pitch,
        0 <= width,
        0 <= height,
        left + width <= i32::MAX,
        top + height <= i32::MAX,
        (top + height) * pitch * 2 <= 0x1_0000_0000,
        pitch > 0,
    ensures
        final(memory).wf(),
        final(memory).spans() == old(memory).spans(),
        final(memory)@ == painted(
            old(memory)@,
            pixels,
            pitch as int,
            box_ink(left as int, top as int, width as int, height as int, color, outline),
        ),
{
    let ghost m = memory@;
    let ghost ink = box_ink(
        left as int,
        top as int,
        width as int,
        height as int,
        color,
        outline,
    );
    let right: i32 = left + width;
    let bottom: i32 = top + height;
    let mut y: i32 = top;
    proof {
        lemma_paint_nothing(m, pixels, pitch as int, ink_until(ink, 0, top as int));
    }
    while y < bottom
        invariant
            memory.wf(),
            memory.spans() == old(memory).spans(),
            m == old(memory)@,
            ink == box_ink(
                left as int,
                top as int,
                width as int,
                height as int,
                color,
                outline,
            ),
            0 < pitch <= 0x8000_0000,
            0 <= left,
            0 <= top <= y <= bottom,
            right == left + width,
            bottom == top + height,
            left <= right <= pitch,
            bottom * pitch * 2 <= 0x1_0000_0000,
            memory@ == painted(m, pixels, pitch as int, ink_until(ink, 0, y as int)),
        decreases bottom - y,
    {
        let mut x: i32 = left;
        proof {
            lemma_same_ink(
                m,
                pixels,
                pitch as int,
                ink_until(ink, 0, y as int),
                ink_until(ink, left as int, y as int),
            );
            assert((y + 1) * pitch <= bottom * pitch) by (nonlinear_arith)
                requires
                    y + 1 <= bottom,
                    pitch > 0,
            ;
            assert((y + 1) * pitch == y * pitch + pitch) by (nonlinear_arith);
        }
        while x < right
            invariant
                memory.wf(),
                memory.spans() == old(memory).spans(),
                m == old(memory)@,
                ink == box_ink(
                    left as int,
                    top as int,
                    width as int,
                    height as int,
                    color,
                    outline,
                ),
                0 < pitch <= 0x8000_0000,
                0 <= left <= x <= right,
                0 <= top <= y < bottom,
                right == left + width,
                bottom == top + height,
                right <= pitch,
                (y * pitch + pitch) * 2 <= 0x1_0000_0000,
                memory@ == painted(m, pixels, pitch as int, ink_until(ink, x as int, y as int)),
            decreases right - x,
        {
            let inked = !outline || x == left || x == right - 1 || y == top || y == bottom - 1;
            if inked {
                let address: u32 = address_of_pixel(pixels, pitch, x as u32, y as u32);
                memory.w16(address, color);
                proof {
                    lemma_paint_pixel(
                        m,
                        pixels,
                        pitch as int,
                        ink_until(ink, x as int, y as int),
                        ink_until(ink, x + 1, y as int),
                        x as int,
                        y as int,
                        color,
                        address,
                    );
                }
            } else {
                proof {
                    lemma_same_ink(
                        m,
                        pixels,
                        pitch as int,
                        ink_until(ink, x as int, y as int),
                        ink_until(ink, x + 1, y as int),
                    );
                }
            }
            x += 1;
        }
        proof {
            lemma_same_ink(
                m,
                pixels,
                pitch as int,
                ink_until(ink, right as int, y as int),
                ink_until(ink, 0, y + 1),
            );
        }
        y += 1;
    }
    proof {
        lemma_same_ink(m, pixels, pitch as int, ink_until(ink, 0, bottom as int), ink);
    }
}

/// The pixel lies inside the frame buffer.
pub open spec fn on_frame(x: int, y: int) -> bool {
    0 <= x < FRAME_WIDTH && 0 <= y < FRAME_HEIGHT
}

/// The ink of a rectangle on the frame buffer: those of its pixels that are on the frame.
pub open spec fn screen_rect_ink(
    x: int,
    y: int,
    width: int,
    height: int,
    color: u16,
) -> spec_fn(int, int) -> Option<u16> {
    |px: int, py: int|
        if on_frame(px, py) && x <= px < x + width && y <= py < y + height {
            Some(color)
        } else {
            None
        }
}

impl MachineState {
    /// The machine after painting on the frame buffer.
    pub open spec fn screen_painted(
        self,
        ink: spec_fn(int, int) -> Option<u16>,
    ) -> MachineState {
        self.with_memory(painted(self.memory, self.layout.screen_image, FRAME_WIDTH as int, ink))
    }
}

impl NicaiMachine {
    /// Fills a rectangle of the frame buffer; what lies outside the frame is cut off.
    pub fn fill_screen_rect(&mut self, x: i32, y: i32, width: i32, height: i32, color: u16)
        requires
            old(self).wf(),
        ensures
            final(self).wf(),
            final(self)@ == old(self)@.screen_painted(
                screen_rect_ink(x as int, y as int, width as int, height as int, color),
            ),
    {
        let left: i32 = clamp(x as i64, FRAME_WIDTH);
        let top: i32 = clamp(y as i64, FRAME_HEIGHT);
        let right: i32 = clamp(x as i64 + width as i64, FRAME_WIDTH);
        let bottom: i32 = clamp(y as i64 + height as i64, FRAME_HEIGHT);
        let ghost ink = screen_rect_ink(x as int, y as int, width as int, height as int, color);
        let ghost screen = self.layout.screen_image;
        if left < right && top < bottom {
            paint_box(
                &mut self.memory,
                self.layout.screen_image,
                FRAME_WIDTH as u32,
                left,
                top,
                right - left,
                bottom - top,
                color,
                false,
            );
            proof {
                lemma_same_ink(
                    old(self).memory@,
                    screen,
                    FRAME_WIDTH as int,
                    box_ink(
                        left as int,
                        top as int,
                        right - left,
                        bottom - top,
                        color,
                        false,
                    ),
                    ink,
                );
            }
        } else {
            proof {
                lemma_paint_nothing(self.memory@, screen, FRAME_WIDTH as int, ink);
            }
        }
        assert(self@ =~= old(self)@.screen_painted(ink));
    }
}

/// The larger of two numbers.
pub open spec fn larger(a: int, b: int) -> int {
    if a < b {
        b
    } else {
        a
    }
}

/// The smaller of two numbers.
pub open spec fn smaller(a: int, b: int) -> int {
    if a < b {
        a
    } else {
        b
    }
}

/// Memory after a rectangle is drawn on a surface. The rectangle is cut off at the surface's
/// edges first, so that an outline runs along them where it is.
pub open spec fn rect_painted(
    m: Map<u32, u8>,
    surface: Surface,
    x: int,
    y: int,
    width: int,
    height: int,
    color: u16,
    outline: bool,
) -> Map<u32, u8> {
    let left = larger(x, 0);
    let top = larger(y, 0);
    let right = smaller(x + width, surface.width as int);
    let bottom = smaller(y + height, surface.height as int);
    painted(
        m,
        surface.pixels,
        pitch_of(surface.width as int),
        box_ink(left, top, right - left, bottom - top, color, outline),
    )
}

impl Surface {
    /// The pixels of the surface lie at different addresses.
    pub open spec fn fits(self) -> bool {
        self.width > 0 && self.height > 0 ==> self.height * pitch_of(self.width as int) * 2
            <= 0x1_0000_0000
    }

    /// The byte at `a` belongs to no pixel of the surface: it lies behind its last row, or in a
    /// column at or beyond its width.
    pub open spec fn leaves_out(self, a: u32) -> bool {
        let pitch = pitch_of(self.width as int);
        let place = a.wrapping_sub(self.pixels) as int;
        place >= self.height * pitch * 2 || place / 2 % pitch >= self.width
    }
}

impl MachineState {
    /// The frame buffer.
    pub open spec fn screen(self) -> Surface {
        Surface {
            pixels: self.layout.screen_image,
            width: FRAME_WIDTH,
            height: FRAME_HEIGHT,
        }
    }

    /// The surface that an image header asks to draw on. The frame buffer stands in where the
    /// header is the frame buffer's own, has no pixels or is larger than the frame.
    pub open spec fn target(self, image: u32) -> Surface {
        let pixels = read32(self.memory, image);
        let width = read16(self.memory, offset(image, 4));
        let height = read16(self.memory, offset(image, 6));
        if image == self.layout.screen_image_struct || pixels == 0 || width == 0 || height == 0
            || width > FRAME_WIDTH || height > FRAME_HEIGHT {
            self.screen()
        } else {
            Surface { pixels, width: width as i32, height: height as i32 }
        }
    }

    /// The effect of a rectangle call with its height and colour on the stack. With
    /// `has_destination` the first register names the image to draw on.
    pub open spec fn rect_drawn(self, has_destination: bool, outline: bool) -> MachineState {
        let first = if has_destination {
            1
        } else {
            0
        };
        let surface = if has_destination {
            self.target(self.registers[0])
        } else {
            self.screen()
        };
        self.with_memory(
            rect_painted(
                self.memory,
                surface,
                signed16(self.registers[first]) as int,
                signed16(self.registers[first + 1]) as int,
                signed16(self.registers[first + 2]) as int,
                signed16(read32(self.memory, self.stack())) as int,
                (read32(self.memory, offset(self.stack(), 4)) % 65536) as u16,
                outline,
            ),
        )
    }

    /// The first two registers hold the corners of a rectangle near the frame, each with its
    /// row in the upper half and its column in the lower.
    pub open spec fn has_packed_corners(self) -> bool {
        let first = self.registers[0];
        let second = self.registers[1];
        &&& first >= 65536 || second >= 65536
        &&& -240 <= signed16(first) <= 480
        &&& -240 <= signed16(second) <= 480
        &&& -400 <= signed16(first / 65536) <= 800
        &&& -400 <= signed16(second / 65536) <= 800
    }

    /// The effect of a rectangle call with packed corners, both of which belong to it.
    pub open spec fn packed_rect_drawn(self, outline: bool) -> MachineState {
        let x0 = signed16(self.registers[0]) as int;
        let y0 = signed16(self.registers[0] / 65536) as int;
        let x1 = signed16(self.registers[1]) as int;
        let y1 = signed16(self.registers[1] / 65536) as int;
        self.with_memory(
            rect_painted(
                self.memory,
                self.screen(),
                smaller(x0, x1),
                smaller(y0, y1),
                larger(x0, x1) - smaller(x0, x1) + 1,
                larger(y0, y1) - smaller(y0, y1) + 1,
                (self.registers[2] % 65536) as u16,
                outline,
            ),
        )
    }
}

impl NicaiMachine {
    /// Draws a rectangle, or its outline, on a surface; what lies outside is cut off.
    pub fn paint_rect(
        &mut self,
        x: i32,
        y: i32,
        width: i32,
        height: i32,
        color: u16,
        outline: bool,
        destination_width: i32,
        destination_height: i32,
        pixels: u32,
    )
        requires
            old(self).wf(),
            (Surface { pixels, width: destination_width, height: destination_height }).fits(),
        ensures
            final(self).wf(),
            final(self)@ == old(self)@.with_memory(
                rect_painted(
                    old(self)@.memory,
                    Surface { pixels, width: destination_width, height: destination_height },
                    x as int,
                    y as int,
                    width as int,
                    height as int,
                    color,
                    outline,
                ),
            ),
    {
        let across = clip_axis(0, width, x, i32::MAX, destination_width);
        let down = clip_axis(0, height, y, i32::MAX, destination_height);
        let ghost surface = Surface {
            pixels,
            width: destination_width,
            height: destination_height,
        };
        let ghost left = larger(x as int, 0);
        let ghost top = larger(y as int, 0);
        let ghost right = smaller(x + width, destination_width as int);
        let ghost bottom = smaller(y + height, destination_height as int);
        let ghost ink = box_ink(left, top, right - left, bottom - top, color, outline);
        if let (Some(across), Some(down)) = (across, down) {
            let pitch: u32 = row_pitch(destination_width as u32);
            proof {
                assert(pitch * 2 <= 0x1_0000_0000 && (top + down.length) * pitch * 2
                    <= 0x1_0000_0000) by (nonlinear_arith)
                    requires
                        0 < pitch,
                        0 < top + down.length <= destination_height,
                        destination_height * pitch * 2 <= 0x1_0000_0000,
                ;
            }
            paint_box(
                &mut self.memory,
                pixels,
                pitch,
                across.destination,
                down.destination,
                across.length,
                down.length,
                color,
                outline,
            );
        } else {
            proof {
                lemma_paint_nothing(
                    self.memory@,
                    pixels,
                    pitch_of(destination_width as int),
                    ink,
                );
            }
        }
        assert(self@ =~= old(self)@.with_memory(
            rect_painted(
                old(self)@.memory,
                surface,
                x as int,
                y as int,
                width as int,
                height as int,
                color,
                outline,
            ),
        ));
    }

    /// Finds the surface that an image header asks to draw on.
    pub fn target_surface(&self, image: u32) -> (surface: Surface)
        requires
            self.wf(),
        ensures
            surface == self@.target(image),
            surface.fits(),
            0 < surface.width <= FRAME_WIDTH,
            0 < surface.height <= FRAME_HEIGHT,
    {
        let pixels: u32 = self.memory.r32(image);
        let width: i32 = self.memory.r16(address_at(image, 4)) as i32;
        let height: i32 = self.memory.r16(address_at(image, 6)) as i32;
        let surface = if image == self.layout.screen_image_struct || pixels == 0 || width <= 0
            || height <= 0 || width > FRAME_WIDTH || height > FRAME_HEIGHT {
            Surface { pixels: self.layout.screen_image, width: FRAME_WIDTH, height: FRAME_HEIGHT }
        } else {
            Surface { pixels, width, height }
        };
        proof {
            lemma_small_surface_fits(surface);
        }
        surface
    }

    /// Draws a rectangle whose height and colour are on the stack.
    pub fn draw_rect(&mut self, has_destination: bool, outline: bool)
        requires
            old(self).wf(),
        ensures
            final(self).wf(),
            final(self)@ == old(self)@.rect_drawn(has_destination, outline),
    {
        let (destination, x, y, width): (u32, i32, i32, i32) = if has_destination {
            (
                self.register(0),
                signed_coord(self.register(1)),
                signed_coord(self.register(2)),
                signed_coord(self.register(3)),
            )
        } else {
            (
                self.layout.screen_image_struct,
                signed_coord(self.register(0)),
                signed_coord(self.register(1)),
                signed_coord(self.register(2)),
            )
        };
        let stack: u32 = self.stack_pointer();
        let height: i32 = signed_coord(self.memory.r32(stack));
        let color: u16 = (self.memory.r32(address_at(stack, 4)) % 65536) as u16;
        let surface = self.target_surface(destination);
        self.paint_rect(
            x,
            y,
            width,
            height,
            color,
            outline,
            surface.width,
            surface.height,
            surface.pixels,
        );
    }

    /// Draws a rectangle of the frame buffer whose corners are packed into the first two
    /// registers and whose colour is in the third. Does nothing and returns false where the
    /// registers hold no such corners.
    pub fn draw_packed_screen_rect(&mut self, outline: bool) -> (drawn: bool)
        requires
            old(self).wf(),
        ensures
            final(self).wf(),
            drawn == old(self)@.has_packed_corners(),
            drawn ==> final(self)@ == old(self)@.packed_rect_drawn(outline),
            !drawn ==> final(self)@ == old(self)@,
    {
        let first: u32 = self.register(0);
        let second: u32 = self.register(1);
        if first < 65536 && second < 65536 {
            return false;
        }
        let x0: i32 = signed_coord(first);
        let y0: i32 = signed_coord(first / 65536);
        let x1: i32 = signed_coord(second);
        let y1: i32 = signed_coord(second / 65536);
        let horizontally_plausible = -240 <= x0 && x0 <= 480 && -240 <= x1 && x1 <= 480;
        let vertically_plausible = -400 <= y0 && y0 <= 800 && -400 <= y1 && y1 <= 800;
        if !horizontally_plausible || !vertically_plausible {
            return false;
        }
        let (left, right): (i32, i32) = if x0 < x1 {
            (x0, x1)
        } else {
            (x1, x0)
        };
        let (top, bottom): (i32, i32) = if y0 < y1 {
            (y0, y1)
        } else {
            (y1, y0)
        };
        let color: u16 = (self.register(2) % 65536) as u16;
        proof {
            lemma_small_surface_fits(self@.screen());
        }
        self.paint_rect(
            left,
            top,
            right - left + 1,
            bottom - top + 1,
            color,
            outline,
            FRAME_WIDTH,
            FRAME_HEIGHT,
            self.layout.screen_image,
        );
        true
    }
}

/// A surface no larger than the frame fits into the address space.
proof fn lemma_small_surface_fits(surface: Surface)
    requires
        surface.width <= FRAME_WIDTH,
        surface.height <= FRAME_HEIGHT,
    ensures
        surface.fits(),
{
    if surface.width > 0 && surface.height > 0 {
        let pitch = pitch_of(surface.width as int);
        assert(surface.height * pitch <= 400 * 240) by (nonlinear_arith)
            requires
                0 < surface.height <= 400,
                0 < pitch <= 240,
        ;
    }
}

/// The number between 0 and `limit` that is nearest to `value`.
fn clamp(value: i64, limit: i32) -> (nearest: i32)
    requires
        0 <= limit,
    ensures
        0 <= nearest <= limit,
        0 <= value <= limit ==> nearest == value,
        value < 0 ==> nearest == 0,
        value > limit ==> nearest == limit,
{
    if value < 0 {
        0
    } else if value > limit as i64 {
        limit
    } else {
        value as i32
    }
}

/// Bytes that the frame buffer takes.
pub open spec fn frame_bytes() -> int {
    FRAME_WIDTH * FRAME_HEIGHT * 2
}

/// Drawing that stays on the frame changes no byte outside the frame buffer.
pub proof fn law_screen_drawing_stays_on_frame(
    state: MachineState,
    ink: spec_fn(int, int) -> Option<u16>,
    a: u32,
)
    requires
        forall|x: int, y: int| #[trigger] ink(x, y) is Some ==> on_frame(x, y),
        a.wrapping_sub(state.layout.screen_image) >= frame_bytes(),
    ensures
        read8(state.screen_painted(ink).memory, a) == read8(state.memory, a),
{
    law_painting_stays_inside(
        state.memory,
        state.layout.screen_image,
        FRAME_WIDTH as int,
        FRAME_HEIGHT as int,
        ink,
        a,
    );
}

/// Filling a rectangle changes no byte outside the frame buffer.
pub proof fn law_fill_stays_on_frame(
    state: MachineState,
    x: int,
    y: int,
    width: int,
    height: int,
    color: u16,
    a: u32,
)
    requires
        a.wrapping_sub(state.layout.screen_image) >= frame_bytes(),
    ensures
        read8(state.screen_painted(screen_rect_ink(x, y, width, height, color)).memory, a)
            == read8(state.memory, a),
{
    law_screen_drawing_stays_on_frame(state, screen_rect_ink(x, y, width, height, color), a);
}

/// After a rectangle is filled, each pixel of a mapped frame buffer has the rectangle's colour
/// if it lies in the rectangle, and its old colour otherwise.
pub proof fn law_fill_reads_back(
    state: MachineState,
    x: int,
    y: int,
    width: int,
    height: int,
    color: u16,
    px: int,
    py: int,
)
    requires
        on_frame(px, py),
        ({
            let address = pixel_address(state.layout.screen_image, FRAME_WIDTH as int, px, py);
            state.memory.dom().contains(address) && state.memory.dom().contains(
                address.wrapping_add(1),
            )
        }),
    ensures
        ({
            let address = pixel_address(state.layout.screen_image, FRAME_WIDTH as int, px, py);
            let after = state.screen_painted(screen_rect_ink(x, y, width, height, color));
            read16(after.memory, address) == if x <= px < x + width && y <= py < y + height {
                color
            } else {
                read16(state.memory, address)
            }
        }),
{
    let ink = screen_rect_ink(x, y, width, height, color);
    let screen = state.layout.screen_image;
    lemma_frame_place(px, py);
    if ink(px, py) is Some {
        law_painted_pixel_reads_back(state.memory, screen, FRAME_WIDTH as int, ink, px, py);
    } else {
        law_bare_pixel_keeps_its_colour(state.memory, screen, FRAME_WIDTH as int, ink, px, py);
    }
}

/// Of two fills of one rectangle only the later shows.
pub proof fn law_last_fill_wins(
    state: MachineState,
    x: int,
    y: int,
    width: int,
    height: int,
    first: u16,
    last: u16,
)
    ensures
        state.screen_painted(screen_rect_ink(x, y, width, height, first)).screen_painted(
            screen_rect_ink(x, y, width, height, last),
        ) == state.screen_painted(screen_rect_ink(x, y, width, height, last)),
{
    let one = screen_rect_ink(x, y, width, height, first);
    let two = screen_rect_ink(x, y, width, height, last);
    let screen = state.layout.screen_image;
    law_paint_twice(state.memory, screen, FRAME_WIDTH as int, one, two);
    lemma_same_ink(state.memory, screen, FRAME_WIDTH as int, ink_over(two, one), two);
}

/// A rectangle without width or height, or outside the frame, leaves the machine as it is.
pub proof fn law_invisible_fill_does_nothing(
    state: MachineState,
    x: int,
    y: int,
    width: int,
    height: int,
    color: u16,
)
    requires
        width <= 0 || height <= 0 || x >= FRAME_WIDTH || y >= FRAME_HEIGHT || x + width <= 0 || y
            + height <= 0,
    ensures
        state.screen_painted(screen_rect_ink(x, y, width, height, color)) == state,
{
    lemma_paint_nothing(
        state.memory,
        state.layout.screen_image,
        FRAME_WIDTH as int,
        screen_rect_ink(x, y, width, height, color),
    );
}

/// A rectangle changes no byte outside the surface that it is drawn on, nor one of the padding
/// between the surface's rows.
pub proof fn law_rect_stays_on_surface(
    m: Map<u32, u8>,
    surface: Surface,
    x: int,
    y: int,
    width: int,
    height: int,
    color: u16,
    outline: bool,
    a: u32,
)
    requires
        surface.width > 0,
        surface.leaves_out(a),
    ensures
        read8(rect_painted(m, surface, x, y, width, height, color, outline), a) == read8(m, a),
{
    let left = larger(x, 0);
    let top = larger(y, 0);
    let right = smaller(x + width, surface.width as int);
    let bottom = smaller(y + height, surface.height as int);
    let pitch = pitch_of(surface.width as int);
    let ink = box_ink(left, top, right - left, bottom - top, color, outline);
    if a.wrapping_sub(surface.pixels) >= surface.height * pitch * 2 {
        law_painting_stays_inside(m, surface.pixels, pitch, surface.height as int, ink, a);
    } else {
        law_painting_keeps_padding(m, surface.pixels, pitch, surface.width as int, ink, a);
    }
}

/// A filled rectangle covers its outline.
pub proof fn law_fill_covers_outline(
    m: Map<u32, u8>,
    surface: Surface,
    x: int,
    y: int,
    width: int,
    height: int,
    edge: u16,
    color: u16,
)
    requires
        surface.width > 0,
    ensures
        rect_painted(
            rect_painted(m, surface, x, y, width, height, edge, true),
            surface,
            x,
            y,
            width,
            height,
            color,
            false,
        ) == rect_painted(m, surface, x, y, width, height, color, false),
{
    let left = larger(x, 0);
    let top = larger(y, 0);
    let right = smaller(x + width, surface.width as int);
    let bottom = smaller(y + height, surface.height as int);
    let one = box_ink(left, top, right - left, bottom - top, edge, true);
    let two = box_ink(left, top, right - left, bottom - top, color, false);
    let pitch = pitch_of(surface.width as int);
    law_paint_twice(m, surface.pixels, pitch, one, two);
    lemma_same_ink(m, surface.pixels, pitch, ink_over(two, one), two);
}

/// It does not matter which of two opposite corners comes first.
pub proof fn law_packed_corners_commute(state: MachineState, outline: bool)
    requires
        state.wf(),
    ensures
        ({
            let swapped = MachineState {
                registers: state.registers.update(0, state.registers[1]).update(
                    1,
                    state.registers[0],
                ),
                ..state
            };
            &&& swapped.has_packed_corners() == state.has_packed_corners()
            &&& swapped.packed_rect_drawn(outline).memory == state.packed_rect_drawn(
                outline,
            ).memory
        }),
{
}

/// Both packed corners are painted where they are on the frame and the frame buffer is mapped.
pub proof fn law_packed_corners_are_painted(state: MachineState, outline: bool, second: bool)
    requires
        state.wf(),
        ({
            let corner = state.registers[if second {
                1int
            } else {
                0int
            }];
            let x = signed16(corner) as int;
            let y = signed16(corner / 65536) as int;
            let address = pixel_address(state.layout.screen_image, FRAME_WIDTH as int, x, y);
            &&& on_frame(x, y)
            &&& state.memory.dom().contains(address)
            &&& state.memory.dom().contains(address.wrapping_add(1))
        }),
    ensures
        ({
            let corner = state.registers[if second {
                1int
            } else {
                0int
            }];
            let x = signed16(corner) as int;
            let y = signed16(corner / 65536) as int;
            let address = pixel_address(state.layout.screen_image, FRAME_WIDTH as int, x, y);
            read16(state.packed_rect_drawn(outline).memory, address) == state.registers[2] % 65536
        }),
{
    let x0 = signed16(state.registers[0]) as int;
    let y0 = signed16(state.registers[0] / 65536) as int;
    let x1 = signed16(state.registers[1]) as int;
    let y1 = signed16(state.registers[1] / 65536) as int;
    let (x, y) = if second {
        (x1, y1)
    } else {
        (x0, y0)
    };
    let left = larger(smaller(x0, x1), 0);
    let top = larger(smaller(y0, y1), 0);
    let right = smaller(larger(x0, x1) + 1, FRAME_WIDTH as int);
    let bottom = smaller(larger(y0, y1) + 1, FRAME_HEIGHT as int);
    let color = (state.registers[2] % 65536) as u16;
    let ink = box_ink(left, top, right - left, bottom - top, color, outline);
    assert(ink(x, y) == Some(color));
    assert(pitch_of(FRAME_WIDTH as int) == FRAME_WIDTH);
    lemma_frame_place(x, y);
    law_painted_pixel_reads_back(
        state.memory,
        state.layout.screen_image,
        FRAME_WIDTH as int,
        ink,
        x,
        y,
    );
}

} // verus!
