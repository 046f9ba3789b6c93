//! Drawing text on the frame buffer.
//!
//! Text is placed in the space of the display. Where the display is turned by a quarter, each
//! dot is mapped back into the frame buffer.

use vstd::prelude::*;

use crate::drawing::{frame_bytes, law_screen_drawing_stays_on_frame, on_frame};
use crate::font::{
    glyph_covers, glyphs_of, law_pen_advances, law_pen_offsets_add_up, line_covers, pen_offset,
    text_glyphs, Glyph,
};
use crate::machine::{MachineState, NicaiMachine};
use crate::memory::{c_bytes, law_c_string, offset, read16, read8};
use crate::rotation::Rotation;
use crate::surface::{
    address_of_pixel, ink_over, law_paint_twice, law_painted_pixel_reads_back, lemma_frame_place,
    lemma_paint_nothing, lemma_paint_pixel, lemma_same_ink, painted, pixel_address, FRAME_HEIGHT,
    FRAME_WIDTH,
};
use crate::text::{all_ascii_bytes, ascii_text, decodes_plainly, gbk_text, guest_text};

verus! {

/// The most bytes of a guest string that are looked at.
pub const TEXT_LIMIT: usize = 4096;

/// Where text has to put a dot so that it shows up in pixel (`x`, `y`) of the frame buffer.
pub open spec fn text_place(rotation: Rotation, x: int, y: int) -> (int, int) {
    if rotation.swapped() {
        rotation.shown_at(x, y)
    } else {
        (x, y)
    }
}

/// The ink of one glyph whose upper left corner is at (`left`, `top`).
pub open spec fn glyph_ink(
    rotation: Rotation,
    glyph: Glyph,
    left: int,
    top: int,
    color: u16,
) -> spec_fn(int, int) -> Option<u16> {
    |x: int, y: int|
        if on_frame(x, y) && glyph.pixel(
            text_place(rotation, x, y).0 - left,
            text_place(rotation, x, y).1 - top,
        ) {
            Some(color)
        } else {
            None
        }
}

/// The ink of a line of glyphs whose upper left corner is at (`left`, `top`).
pub open spec fn line_ink(
    rotation: Rotation,
    glyphs: Seq<Option<Glyph>>,
    left: int,
    top: int,
    color: u16,
) -> spec_fn(int, int) -> Option<u16> {
    |x: int, y: int|
        if on_frame(x, y) && line_covers(
            glyphs,
            left,
            top,
            text_place(rotation, x, y).0,
            text_place(rotation, x, y).1,
        ) {
            Some(color)
        } else {
            None
        }
}

/// The ink of the part of a glyph that is drawn before its pixel (`column`, `row`).
spec fn glyph_ink_until(
    rotation: Rotation,
    glyph: Glyph,
    left: int,
    top: int,
    color: u16,
    column: int,
    row: int,
) -> spec_fn(int, int) -> Option<u16> {
    |x: int, y: int|
        {
            let gx = text_place(rotation, x, y).0 - left;
            let gy = text_place(rotation, x, y).1 - top;
            if on_frame(x, y) && glyph.pixel(gx, gy) && (gy < row || (gy == row && gx < column)) {
                Some(color)
            } else {
                None
            }
        }
}

/// The ink of the first `n` glyphs of a line.
spec fn line_ink_until(
    rotation: Rotation,
    glyphs: Seq<Option<Glyph>>,
    left: int,
    top: int,
    color: u16,
    n: int,
) -> spec_fn(int, int) -> Option<u16> {
    |x: int, y: int|
        if on_frame(x, y) && exists|k: int|
            0 <= k < n && #[trigger] glyph_covers(
                glyphs,
                left,
                top,
                k,
                text_place(rotation, x, y).0,
                text_place(rotation, x, y).1,
            ) {
            Some(color)
        } else {
            None
        }
}

impl MachineState {
    /// The machine after the C string at `address` is drawn.
    pub open spec fn text_drawn(self, address: u32, x: i32, y: i32, color: u16) -> MachineState {
        let glyphs = glyphs_of(gbk_text(c_bytes(self.memory, address, TEXT_LIMIT as nat)));
        self.screen_painted(line_ink(self.rotation, glyphs, x as int, y as int, color))
    }
}

impl NicaiMachine {
    /// Draws a glyph with its upper left corner at (`pen_x`, `y`) of the display.
    pub fn draw_glyph(&mut self, glyph: &Glyph, pen_x: i32, y: i32, color: u16)
        requires
            old(self).wf(),
        ensures
            final(self).wf(),
            final(self)@ == old(self)@.screen_painted(
                glyph_ink(old(self)@.rotation, *glyph, pen_x as int, y as int, color),
            ),
    {
        let ghost m = self.memory@;
        let ghost left = pen_x as int;
        let ghost top = y as int;
        let rotation = self.effective_rotation;
        let screen: u32 = self.layout.screen_image;
        let swaps = rotation.swaps_dimensions();
        let (display_width, display_height): (i64, i64) = if swaps {
            (FRAME_HEIGHT as i64, FRAME_WIDTH as i64)
        } else {
            (FRAME_WIDTH as i64, FRAME_HEIGHT as i64)
        };
        let width: usize = glyph.get_width();
        let mut row: usize = 0;
        proof {
            lemma_paint_nothing(
                m,
                screen,
                FRAME_WIDTH as int,
                glyph_ink_until(rotation, *glyph, left, top, color, 0, 0),
            );
        }
        while row < 16
            invariant
                self.wf(),
                row <= 16,
                width == glyph.width(),
                width <= 16,
                left == pen_x,
                top == y,
                rotation == old(self)@.rotation,
                screen == old(self)@.layout.screen_image,
                swaps == rotation.swapped(),
                display_width == if swaps {
                    FRAME_HEIGHT as i64
                } else {
                    FRAME_WIDTH as i64
                },
                display_height == if swaps {
                    FRAME_WIDTH as i64
                } else {
                    FRAME_HEIGHT as i64
                },
                m == old(self)@.memory,
                self@ == old(self)@.with_memory(
                    painted(
                        m,
                        screen,
                        FRAME_WIDTH as int,
                        glyph_ink_until(rotation, *glyph, left, top, color, 0, row as int),
                    ),
                ),
            decreases 16 - row,
        {
            let display_y: i64 = y as i64 + row as i64;
            if 0 <= display_y && display_y < display_height {
                let mut column: usize = 0;
                while column < width
                    invariant
                        self.wf(),
                        row < 16,
                        column <= width,
                        width == glyph.width(),
                        width <= 16,
                        left == pen_x,
                        top == y,
                        display_y == top + row,
                        rotation == old(self)@.rotation,
                        screen == old(self)@.layout.screen_image,
                        swaps == rotation.swapped(),
                        display_width == if swaps {
                            FRAME_HEIGHT as i64
                        } else {
                            FRAME_WIDTH as i64
                        },
                        display_height == if swaps {
                            FRAME_WIDTH as i64
                        } else {
                            FRAME_HEIGHT as i64
                        },
                        0 <= display_y < display_height,
                        m == old(self)@.memory,
                        self@ == old(self)@.with_memory(
                            painted(
                                m,
                                screen,
                                FRAME_WIDTH as int,
                                glyph_ink_until(
                                    rotation,
                                    *glyph,
                                    left,
                                    top,
                                    color,
                                    column as int,
                                    row as int,
                                ),
                            ),
                        ),
                    decreases width - column,
                {
                    let ghost before = glyph_ink_until(
                        rotation,
                        *glyph,
                        left,
                        top,
                        color,
                        column as int,
                        row as int,
                    );
                    let ghost after = glyph_ink_until(
                        rotation,
                        *glyph,
                        left,
                        top,
                        color,
                        column + 1,
                        row as int,
                    );
                    let display_x: i64 = pen_x as i64 + column as i64;
                    if 0 <= display_x && display_x < display_width && glyph.get_pixel(
                        column,
                        row,
                    ) {
                        let (screen_x, screen_y): (i32, i32) = if swaps {
                            rotation.unrotate(display_x as i32, display_y as i32)
                        } else {
                            (display_x as i32, display_y as i32)
                        };
                        let address: u32 = address_of_pixel(
                            screen,
                            FRAME_WIDTH as u32,
                            screen_x as u32,
                            screen_y as u32,
                        );
                        self.memory.w16(address, color);
                        proof {
                            assert(text_place(rotation, screen_x as int, screen_y as int) == (
                                display_x as int,
                                display_y as int,
                            ));
                            lemma_frame_place(screen_x as int, screen_y as int);
                            lemma_paint_pixel(
                                m,
                                screen,
                                FRAME_WIDTH as int,
                                before,
                                after,
                                screen_x as int,
                                screen_y as int,
                                color,
                                address,
                            );
                        }
                    } else {
                        proof {
                            lemma_same_ink(m, screen, FRAME_WIDTH as int, before, after);
                        }
                    }
                    assert(self@ =~= old(self)@.with_memory(
                        painted(m, screen, FRAME_WIDTH as int, after),
                    ));
                    column += 1;
                }
            }
            proof {
                lemma_same_ink(
                    m,
                    screen,
                    FRAME_WIDTH as int,
                    glyph_ink_until(
                        rotation,
                        *glyph,
                        left,
                        top,
                        color,
                        if 0 <= display_y < display_height {
                            width as int
                        } else {
                            0
                        },
                        row as int,
                    ),
                    glyph_ink_until(rotation, *glyph, left, top, color, 0, row + 1),
                );
            }
            row += 1;
        }
        proof {
            lemma_same_ink(
                m,
                screen,
                FRAME_WIDTH as int,
                glyph_ink_until(rotation, *glyph, left, top, color, 0, 16),
                glyph_ink(rotation, *glyph, left, top, color),
            );
        }
    }

    /// Draws a line of glyphs with its upper left corner at (`x`, `y`) of the display.
    pub fn draw_glyphs(&mut self, glyphs: &Vec<Option<Glyph>>, x: i32, y: i32, color: u16)
        requires
            old(self).wf(),
        ensures
            final(self).wf(),
            final(self)@ == old(self)@.screen_painted(
                line_ink(old(self)@.rotation, glyphs@, x as int, y as int, color),
            ),
    {
        let ghost m = self.memory@;
        let ghost rotation = self.effective_rotation;
        let ghost screen = self.layout.screen_image;
        let mut pen_x: i32 = x;
        let mut k: usize = 0;
        proof {
            lemma_paint_nothing(
                m,
                screen,
                FRAME_WIDTH as int,
                line_ink_until(rotation, glyphs@, x as int, y as int, color, 0),
            );
        }
        // Nothing right of the display shows.
        while k < glyphs.len() && pen_x < FRAME_HEIGHT
            invariant
                self.wf(),
                k <= glyphs@.len(),
                pen_x == x + pen_offset(glyphs@, k as int),
                rotation == old(self)@.rotation,
                screen == old(self)@.layout.screen_image,
                m == old(self)@.memory,
                self@ == old(self)@.with_memory(
                    painted(
                        m,
                        screen,
                        FRAME_WIDTH as int,
                        line_ink_until(rotation, glyphs@, x as int, y as int, color, k as int),
                    ),
                ),
            decreases glyphs@.len() - k,
        {
            let ghost before = line_ink_until(
                rotation,
                glyphs@,
                x as int,
                y as int,
                color,
                k as int,
            );
            let ghost after = line_ink_until(rotation, glyphs@, x as int, y as int, color, k + 1);
            let step: i32 = match &glyphs[k] {
                Some(glyph) => {
                    self.draw_glyph(glyph, pen_x, y, color);
                    proof {
                        let one = glyph_ink(rotation, *glyph, pen_x as int, y as int, color);
                        law_paint_twice(m, screen, FRAME_WIDTH as int, before, one);
                        lemma_add_glyph(
                            rotation,
                            glyphs@,
                            x as int,
                            y as int,
                            color,
                            k as int,
                        );
                        lemma_same_ink(
                            m,
                            screen,
                            FRAME_WIDTH as int,
                            ink_over(one, before),
                            after,
                        );
                    }
                    glyph.get_width() as i32
                },
                None => {
                    proof {
                        lemma_add_gap(rotation, glyphs@, x as int, y as int, color, k as int);
                        lemma_same_ink(m, screen, FRAME_WIDTH as int, before, after);
                    }
                    16
                },
            };
            assert(self@ =~= old(self)@.with_memory(
                painted(m, screen, FRAME_WIDTH as int, after),
            ));
            pen_x = pen_x + step;
            k += 1;
        }
        proof {
            lemma_rest_is_hidden(rotation, glyphs@, x as int, y as int, color, k as int);
            lemma_same_ink(
                m,
                screen,
                FRAME_WIDTH as int,
                line_ink_until(rotation, glyphs@, x as int, y as int, color, k as int),
                line_ink(rotation, glyphs@, x as int, y as int, color),
            );
        }
    }

    /// Reads the C string at `address` as text in the guest's encoding.
    pub fn guest_string(&self, address: u32) -> (text: String)
        requires
            self.wf(),
        ensures
            text@ == gbk_text(c_bytes(self@.memory, address, TEXT_LIMIT as nat)),
            ({
                let bytes = c_bytes(self@.memory, address, TEXT_LIMIT as nat);
                all_ascii_bytes(bytes) ==> text@ == ascii_text(bytes)
            }),
    {
        let bytes = self.memory.read_c_bytes(address, TEXT_LIMIT);
        proof {
            law_c_string(self@.memory, address, TEXT_LIMIT as nat);
        }
        guest_text(&bytes)
    }

    /// Draws the C string at `address` with its upper left corner at (`x`, `y`) of the display.
    pub fn draw_text(&mut self, address: u32, x: i32, y: i32, color: u16)
        requires
            old(self).wf(),
        ensures
            final(self).wf(),
            final(self)@ == old(self)@.text_drawn(address, x, y, color),
            decodes_plainly(c_bytes(old(self)@.memory, address, TEXT_LIMIT as nat)),
    {
        let text = self.guest_string(address);
        let glyphs = text_glyphs(text.as_str());
        self.draw_glyphs(&glyphs, x, y, color);
    }
}

/// One more glyph of a line adds its own ink.
proof fn lemma_add_glyph(
    rotation: Rotation,
    glyphs: Seq<Option<Glyph>>,
    left: int,
    top: int,
    color: u16,
    k: int,
)
    requires
        0 <= k < glyphs.len(),
        glyphs[k] is Some,
    ensures
        ({
            let one = glyph_ink(
                rotation,
                glyphs[k]->0,
                left + pen_offset(glyphs, k),
                top,
                color,
            );
            let before = line_ink_until(rotation, glyphs, left, top, color, k);
            let after = line_ink_until(rotation, glyphs, left, top, color, k + 1);
            forall|x: int, y: int| #[trigger] ink_over(one, before)(x, y) == after(x, y)
        }),
{
    let one = glyph_ink(rotation, glyphs[k]->0, left + pen_offset(glyphs, k), top, color);
    let before = line_ink_until(rotation, glyphs, left, top, color, k);
    let after = line_ink_until(rotation, glyphs, left, top, color, k + 1);
    assert forall|x: int, y: int| #[trigger] ink_over(one, before)(x, y) == after(x, y) by {
        let (dx, dy) = text_place(rotation, x, y);
        assert(glyph_covers(glyphs, left, top, k, dx, dy) == (glyphs[k]->0).pixel(
            dx - (left + pen_offset(glyphs, k)),
            dy - top,
        ));
        if before(x, y) is Some {
            let j = choose|j: int|
                0 <= j < k && #[trigger] glyph_covers(glyphs, left, top, j, dx, dy);
            assert(0 <= j < k + 1 && glyph_covers(glyphs, left, top, j, dx, dy));
        }
    }
}

/// A character without a glyph adds no ink.
proof fn lemma_add_gap(
    rotation: Rotation,
    glyphs: Seq<Option<Glyph>>,
    left: int,
    top: int,
    color: u16,
    k: int,
)
    requires
        0 <= k < glyphs.len(),
        glyphs[k] is None,
    ensures
        ({
            let before = line_ink_until(rotation, glyphs, left, top, color, k);
            let after = line_ink_until(rotation, glyphs, left, top, color, k + 1);
            forall|x: int, y: int| #[trigger] before(x, y) == after(x, y)
        }),
{
    let before = line_ink_until(rotation, glyphs, left, top, color, k);
    let after = line_ink_until(rotation, glyphs, left, top, color, k + 1);
    assert forall|x: int, y: int| #[trigger] before(x, y) == after(x, y) by {
        let (dx, dy) = text_place(rotation, x, y);
        if before(x, y) is Some {
            let j = choose|j: int|
                0 <= j < k && #[trigger] glyph_covers(glyphs, left, top, j, dx, dy);
            assert(0 <= j < k + 1 && glyph_covers(glyphs, left, top, j, dx, dy));
        }
    }
}

/// Glyphs right of the display add no ink.
proof fn lemma_rest_is_hidden(
    rotation: Rotation,
    glyphs: Seq<Option<Glyph>>,
    left: int,
    top: int,
    color: u16,
    k: int,
)
    requires
        0 <= k <= glyphs.len(),
        k == glyphs.len() || left + pen_offset(glyphs, k) >= FRAME_HEIGHT,
    ensures
        ({
            let drawn = line_ink_until(rotation, glyphs, left, top, color, k);
            let whole = line_ink(rotation, glyphs, left, top, color);
            forall|x: int, y: int| #[trigger] drawn(x, y) == whole(x, y)
        }),
{
    let drawn = line_ink_until(rotation, glyphs, left, top, color, k);
    let whole = line_ink(rotation, glyphs, left, top, color);
    assert forall|x: int, y: int| #[trigger] drawn(x, y) == whole(x, y) by {
        let (dx, dy) = text_place(rotation, x, y);
        if on_frame(x, y) {
            if drawn(x, y) is Some {
                let j = choose|j: int|
                    0 <= j < k && #[trigger] glyph_covers(glyphs, left, top, j, dx, dy);
                assert(0 <= j < glyphs.len() && glyph_covers(glyphs, left, top, j, dx, dy));
            }
            if whole(x, y) is Some {
                let j = choose|j: int|
                    0 <= j < glyphs.len() && #[trigger] glyph_covers(
                        glyphs,
                        left,
                        top,
                        j,
                        dx,
                        dy,
                    );
                if j >= k {
                    law_pen_advances(glyphs, k, j);
                    assert(dx < FRAME_HEIGHT);
                    assert(false);
                }
            }
        }
    }
}

/// Text changes no byte outside the frame buffer, wherever it is placed and however the display
/// is turned.
pub proof fn law_text_stays_on_frame(
    state: MachineState,
    address: u32,
    x: i32,
    y: i32,
    color: u16,
    a: u32,
)
    requires
        a.wrapping_sub(state.layout.screen_image) >= frame_bytes(),
    ensures
        read8(state.text_drawn(address, x, y, color).memory, a) == read8(state.memory, a),
{
    let glyphs = glyphs_of(gbk_text(c_bytes(state.memory, address, TEXT_LIMIT as nat)));
    law_screen_drawing_stays_on_frame(
        state,
        line_ink(state.rotation, glyphs, x as int, y as int, color),
        a,
    );
}

/// A dot of a glyph that is on the display shows up there: the pixel of the frame buffer that is
/// shown at the dot's place has the text's colour.
pub proof fn law_dot_shows_on_display(
    state: MachineState,
    glyphs: Seq<Option<Glyph>>,
    left: int,
    top: int,
    color: u16,
    k: int,
    px: int,
    py: int,
)
    requires
        0 <= k < glyphs.len(),
        on_frame(px, py),
        ({
            let (x, y) = text_place(state.rotation, px, py);
            glyph_covers(glyphs, left, top, k, x, y)
        }),
        ({
            let address = pixel_address(state.layout.screen_image, FRAME_WIDTH as int, px, py);
            state.memory.dom().contains(address) && state.memory.dom().contains(
                address.wrapping_add(1),
            )
        }),
    ensures
        read16(
            state.screen_painted(line_ink(state.rotation, glyphs, left, top, color)).memory,
            pixel_address(state.layout.screen_image, FRAME_WIDTH as int, px, py),
        ) == color,
{
    let ink = line_ink(state.rotation, glyphs, left, top, color);
    assert(ink(px, py) == Some(color));
    lemma_frame_place(px, py);
    law_painted_pixel_reads_back(
        state.memory,
        state.layout.screen_image,
        FRAME_WIDTH as int,
        ink,
        px,
        py,
    );
}

/// Text that starts right of the display, below it, or sixteen rows above it draws nothing.
pub proof fn law_text_off_display_draws_nothing(
    state: MachineState,
    glyphs: Seq<Option<Glyph>>,
    left: int,
    top: int,
    color: u16,
)
    requires
        left >= state.rotation.display_width() || top >= state.rotation.display_height() || top
            <= -16,
    ensures
        state.screen_painted(line_ink(state.rotation, glyphs, left, top, color)) == state,
{
    let ink = line_ink(state.rotation, glyphs, left, top, color);
    assert forall|x: int, y: int| #[trigger] ink(x, y) is None by {
        let (dx, dy) = text_place(state.rotation, x, y);
        if on_frame(x, y) && line_covers(glyphs, left, top, dx, dy) {
            let k = choose|k: int|
                0 <= k < glyphs.len() && #[trigger] glyph_covers(glyphs, left, top, k, dx, dy);
            law_pen_advances(glyphs, 0, k);
            assert(false);
        }
    }
    lemma_paint_nothing(state.memory, state.layout.screen_image, FRAME_WIDTH as int, ink);
}

/// A dot belongs to two lines that are joined exactly if it belongs to one of them, with the pen
/// of the second starting where the first has left it.
proof fn lemma_joined_line_covers(
    first: Seq<Option<Glyph>>,
    second: Seq<Option<Glyph>>,
    left: int,
    top: int,
    x: int,
    y: int,
)
    ensures
        line_covers(first + second, left, top, x, y) <==> line_covers(first, left, top, x, y)
            || line_covers(
            second,
            left + pen_offset(first, first.len() as int),
            top,
            x,
            y,
        ),
{
    let joined = first + second;
    let middle = left + pen_offset(first, first.len() as int);
    if line_covers(joined, left, top, x, y) {
        let k = choose|k: int|
            0 <= k < joined.len() && #[trigger] glyph_covers(joined, left, top, k, x, y);
        law_pen_offsets_add_up(first, second, k);
        if k < first.len() {
            assert(glyph_covers(first, left, top, k, x, y));
        } else {
            assert(glyph_covers(second, middle, top, k - first.len(), x, y));
        }
    }
    if line_covers(first, left, top, x, y) {
        let k = choose|k: int|
            0 <= k < first.len() && #[trigger] glyph_covers(first, left, top, k, x, y);
        law_pen_offsets_add_up(first, second, k);
        assert(glyph_covers(joined, left, top, k, x, y));
    }
    if line_covers(second, middle, top, x, y) {
        let k = choose|k: int|
            0 <= k < second.len() && #[trigger] glyph_covers(second, middle, top, k, x, y);
        law_pen_offsets_add_up(first, second, k + first.len());
        assert(glyph_covers(joined, left, top, k + first.len(), x, y));
    }
}

/// Drawing a line of glyphs and then another where the first has left the pen is drawing both as
/// one line.
pub proof fn law_lines_join(
    state: MachineState,
    first: Seq<Option<Glyph>>,
    second: Seq<Option<Glyph>>,
    left: int,
    top: int,
    color: u16,
)
    ensures
        state.screen_painted(line_ink(state.rotation, first, left, top, color)).screen_painted(
            line_ink(
                state.rotation,
                second,
                left + pen_offset(first, first.len() as int),
                top,
                color,
            ),
        ) == state.screen_painted(line_ink(state.rotation, first + second, left, top, color)),
{
    let middle = left + pen_offset(first, first.len() as int);
    let one = line_ink(state.rotation, first, left, top, color);
    let two = line_ink(state.rotation, second, middle, top, color);
    let both = line_ink(state.rotation, first + second, left, top, color);
    let screen = state.layout.screen_image;
    law_paint_twice(state.memory, screen, FRAME_WIDTH as int, one, two);
    assert forall|x: int, y: int| #[trigger] ink_over(two, one)(x, y) == both(x, y) by {
        let (dx, dy) = text_place(state.rotation, x, y);
        lemma_joined_line_covers(first, second, left, top, dx, dy);
    }
    lemma_same_ink(state.memory, screen, FRAME_WIDTH as int, ink_over(two, one), both);
}

/// A C string reads the same from memories that agree on its bytes and on the zero behind them.
proof fn lemma_same_string(m: Map<u32, u8>, after: Map<u32, u8>, address: u32, limit: nat)
    requires
        forall|k: int|
            0 <= k <= c_bytes(m, address, limit).len() ==> read8(after, offset(address, k))
                == #[trigger] read8(m, offset(address, k)),
    ensures
        c_bytes(after, address, limit) == c_bytes(m, address, limit),
    decreases limit,
{
    if limit > 0 {
        assert(offset(address, 0) == address);
        assert(read8(after, offset(address, 0)) == read8(m, offset(address, 0)));
        if read8(m, address) != 0 {
            let next = address.wrapping_add(1);
            let rest = c_bytes(m, next, (limit - 1) as nat);
            assert forall|k: int| 0 <= k <= rest.len() implies read8(after, offset(next, k))
                == #[trigger] read8(m, offset(next, k)) by {
                assert(offset(next, k) == offset(address, k + 1));
                assert(read8(after, offset(address, k + 1)) == read8(m, offset(address, k + 1)));
            }
            lemma_same_string(m, after, next, (limit - 1) as nat);
        }
    }
}

/// A string that lies outside the frame buffer, with the zero behind it, reads the same after
/// text is drawn.
pub proof fn law_text_keeps_strings_off_frame(
    state: MachineState,
    address: u32,
    x: i32,
    y: i32,
    color: u16,
    string: u32,
)
    requires
        forall|k: int|
            0 <= k <= c_bytes(state.memory, string, TEXT_LIMIT as nat).len() ==> (
            #[trigger] offset(string, k)).wrapping_sub(state.layout.screen_image)
                >= frame_bytes(),
    ensures
        c_bytes(
            state.text_drawn(address, x, y, color).memory,
            string,
            TEXT_LIMIT as nat,
        ) == c_bytes(state.memory, string, TEXT_LIMIT as nat),
{
    let after = state.text_drawn(address, x, y, color).memory;
    assert forall|k: int|
        0 <= k <= c_bytes(state.memory, string, TEXT_LIMIT as nat).len() implies read8(
        after,
        offset(string, k),
    ) == #[trigger] read8(state.memory, offset(string, k)) by {
        law_text_stays_on_frame(state, address, x, y, color, offset(string, k));
    }
    lemma_same_string(state.memory, after, string, TEXT_LIMIT as nat);
}

} // verus!
