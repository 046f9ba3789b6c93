//! Glyphs and how a line of them is laid out.

use vstd::prelude::*;

verus! {

/// A bitmap of sixteen rows, eight or sixteen pixels wide. The leftmost pixel of a row is its
/// highest bit.
#[derive(Clone, Copy, Debug, PartialEq, Eq)]
pub enum Glyph {
    Halfwidth([u8; 16]),
    Fullwidth([u16; 16]),
}

impl Glyph {
    /// Pixels in a row.
    pub open spec fn width(self) -> int {
        match self {
            Glyph::Halfwidth(_) => 8,
            Glyph::Fullwidth(_) => 16,
        }
    }

    /// Pixel (`x`, `y`) is set; nothing outside the bitmap is.
    pub open spec fn pixel(self, x: int, y: int) -> bool {
        &&& 0 <= x < self.width()
        &&& 0 <= y < 16
        &&& match self {
            Glyph::Halfwidth(rows) => rows@[y] & (0x80u8 >> (x as u8)) != 0,
            Glyph::Fullwidth(rows) => rows@[y] & (0x8000u16 >> (x as u16)) != 0,
        }
    }

    /// Pixels in a row.
    pub fn get_width(&self) -> (width: usize)
        ensures
            width == self.width(),
    {
        match self {
            Glyph::Halfwidth(_) => 8,
            Glyph::Fullwidth(_) => 16,
        }
    }

    /// Pixel (`x`, `y`) is set; nothing outside the bitmap is.
    pub fn get_pixel(&self, x: usize, y: usize) -> (set: bool)
        ensures
            set == self.pixel(x as int, y as int),
    {
        if y >= 16 {
            return false;
        }
        match self {
            Glyph::Halfwidth(rows) => x < 8 && rows[y] & (0x80u8 >> (x as u8)) != 0,
            Glyph::Fullwidth(rows) => x < 16 && rows[y] & (0x8000u16 >> (x as u16)) != 0,
        }
    }
}

/// The glyph that the font has for a character, if it has one.
pub uninterp spec fn unifont_glyph(c: char) -> Option<Glyph>;

/// `unifont::get_glyph`: the bitmap that the font's table holds for `c`, with its rows copied
/// out. Which characters have one, and what it looks like, is the table's matter; the same
/// character always gets the same answer.
#[verifier::external_body]
fn get_glyph(c: char) -> (glyph: Option<Glyph>)
    ensures
        glyph == unifont_glyph(c),
{
    match unifont::get_glyph(c) {
        Some(unifont::Glyph::Halfwidth(rows)) => Some(Glyph::Halfwidth(*rows)),
        Some(unifont::Glyph::Fullwidth(rows)) => Some(Glyph::Fullwidth(*rows)),
        None => None,
    }
}

/// The glyphs of a line of text.
pub open spec fn glyphs_of(text: Seq<char>) -> Seq<Option<Glyph>> {
    Seq::new(text.len(), |i: int| unifont_glyph(text[i]))
}

/// Looks up the glyph of each character.
pub fn text_glyphs(text: &str) -> (glyphs: Vec<Option<Glyph>>)
    ensures
        glyphs@ == glyphs_of(text@),
{
    let mut glyphs: Vec<Option<Glyph>> = Vec::new();
    for c in it: text.chars()
        invariant
            it.seq() == text@,
            glyphs@ == glyphs_of(text@.take(it.index() as int)),
    {
        glyphs.push(get_glyph(c));
        assert(glyphs@ =~= glyphs_of(text@.take(it.index() + 1)));
    }
    assert(text@.take(text@.len() as int) =~= text@);
    glyphs
}

/// How far a glyph moves the pen; a character without one leaves a gap of sixteen pixels.
pub open spec fn advance(glyph: Option<Glyph>) -> int {
    match glyph {
        Some(g) => g.width(),
        None => 16,
    }
}

/// How far the first `n` glyphs move the pen.
pub open spec fn pen_offset(glyphs: Seq<Option<Glyph>>, n: int) -> int
    decreases n,
{
    if n <= 0 {
        0
    } else {
        pen_offset(glyphs, n - 1) + advance(glyphs[n - 1])
    }
}

/// The width of a line in pixels, modulo the range of a register.
pub fn line_width(glyphs: &Vec<Option<Glyph>>) -> (width: u32)
    ensures
        width == pen_offset(glyphs@, glyphs@.len() as int) % 0x1_0000_0000,
{
    let mut width: u32 = 0;
    let mut i: usize = 0;
    while i < glyphs.len()
        invariant
            i <= glyphs@.len(),
            width == pen_offset(glyphs@, i as int) % 0x1_0000_0000,
        decreases glyphs@.len() - i,
    {
        let step: u32 = match &glyphs[i] {
            Some(glyph) => glyph.get_width() as u32,
            None => 16,
        };
        width = width.wrapping_add(step);
        i += 1;
    }
    width
}

/// A line is at least as wide as any part of it that it starts with, and eight pixels at least
/// for each character.
pub proof fn law_pen_advances(glyphs: Seq<Option<Glyph>>, i: int, j: int)
    requires
        0 <= i <= j,
    ensures
        pen_offset(glyphs, i) + 8 * (j - i) <= pen_offset(glyphs, j) <= pen_offset(glyphs, i) + 16
            * (j - i),
    decreases j - i,
{
    if i < j {
        law_pen_advances(glyphs, i, j - 1);
    }
}

/// The dot at (`x`, `y`) belongs to a line of glyphs whose pen starts at (`left`, `top`).
pub open spec fn line_covers(
    glyphs: Seq<Option<Glyph>>,
    left: int,
    top: int,
    x: int,
    y: int,
) -> bool {
    exists|k: int|
        0 <= k < glyphs.len() && #[trigger] glyph_covers(glyphs, left, top, k, x, y)
}

/// The dot at (`x`, `y`) belongs to the `k`th glyph of a line.
pub open spec fn glyph_covers(
    glyphs: Seq<Option<Glyph>>,
    left: int,
    top: int,
    k: int,
    x: int,
    y: int,
) -> bool {
    match glyphs[k] {
        Some(glyph) => glyph.pixel(x - left - pen_offset(glyphs, k), y - top),
        None => false,
    }
}

/// The second of two lines that are joined starts where the pen is after the first.
pub proof fn law_pen_offsets_add_up(
    first: Seq<Option<Glyph>>,
    second: Seq<Option<Glyph>>,
    n: int,
)
    requires
        0 <= n <= first.len() + second.len(),
    ensures
        pen_offset(first + second, n) == if n <= first.len() {
            pen_offset(first, n)
        } else {
            pen_offset(first, first.len() as int) + pen_offset(second, n - first.len())
        },
    decreases n,
{
    if n > 0 {
        law_pen_offsets_add_up(first, second, n - 1);
        assert((first + second)[n - 1] == if n <= first.len() {
            first[n - 1]
        } else {
            second[n - 1 - first.len()]
        });
        assert(pen_offset(second, 0) == 0);
    }
}

/// The number that a row of pixels stands for, read as binary digits from left to right.
pub open spec fn row_value(glyph: Glyph, y: int, columns: int) -> int
    decreases columns,
{
    if columns <= 0 {
        0
    } else {
        2 * row_value(glyph, y, columns - 1) + if glyph.pixel(columns - 1, y) {
            1int
        } else {
            0int
        }
    }
}

/// The pixels of a bitmap are the binary digits of its rows, the leftmost first. Nothing outside
/// the bitmap is set.
pub proof fn law_pixels_are_digits_of_rows(glyph: Glyph, x: int, y: int)
    ensures
        0 <= y < 16 ==> match glyph {
            Glyph::Halfwidth(rows) => row_value(glyph, y, 8) == rows@[y],
            Glyph::Fullwidth(rows) => row_value(glyph, y, 16) == rows@[y],
        },
        x < 0 || y < 0 || y >= 16 ==> !glyph.pixel(x, y),
        glyph is Halfwidth && x >= 8 ==> !glyph.pixel(x, y),
        x >= 16 ==> !glyph.pixel(x, y),
{
    if 0 <= y < 16 {
        match glyph {
            Glyph::Halfwidth(rows) => {
                let row = rows@[y];
                lemma_byte_digits(glyph, rows, y, 8);
                assert((row as u16) >> 0u16 == row) by (bit_vector);
            },
            Glyph::Fullwidth(rows) => {
                let row = rows@[y];
                lemma_halfword_digits(glyph, rows, y, 16);
                assert((row as u32) >> 0u32 == row) by (bit_vector);
            },
        }
    }
}

/// The first digits of a row of eight make up its upper bits.
proof fn lemma_byte_digits(glyph: Glyph, rows: [u8; 16], y: int, n: u8)
    requires
        glyph == Glyph::Halfwidth(rows),
        0 <= y < 16,
        n <= 8,
    ensures
        row_value(glyph, y, n as int) == (rows@[y] as u16) >> ((8 - n) as u16),
    decreases n,
{
    let row = rows@[y];
    if n == 0 {
        assert((row as u16) >> 8u16 == 0) by (bit_vector);
    } else {
        let x: u8 = (n - 1) as u8;
        lemma_byte_digits(glyph, rows, y, x);
        assert((row as u16) >> ((8 - n) as u16) == 2 * ((row as u16) >> ((9 - n) as u16)) + (if row
            & (0x80u8 >> ((n - 1) as u8)) != 0 {
            1u16
        } else {
            0u16
        })) by (bit_vector)
            requires
                1 <= n <= 8,
        ;
    }
}

/// The first digits of a row of sixteen make up its upper bits.
proof fn lemma_halfword_digits(glyph: Glyph, rows: [u16; 16], y: int, n: u16)
    requires
        glyph == Glyph::Fullwidth(rows),
        0 <= y < 16,
        n <= 16,
    ensures
        row_value(glyph, y, n as int) == (rows@[y] as u32) >> ((16 - n) as u32),
    decreases n,
{
    let row = rows@[y];
    if n == 0 {
        assert((row as u32) >> 16u32 == 0) by (bit_vector);
    } else {
        let x: u16 = (n - 1) as u16;
        lemma_halfword_digits(glyph, rows, y, x);
        assert((row as u32) >> ((16 - n) as u32) == 2 * ((row as u32) >> ((17 - n) as u32)) + (
        if row & (0x8000u16 >> ((n - 1) as u16)) != 0 {
            1u32
        } else {
            0u32
        })) by (bit_vector)
            requires
                1 <= n <= 16,
        ;
    }
}

/// A text has one place for each character: the glyph of that character. The pen starts at zero
/// and moves by eight pixels behind a narrow glyph, by sixteen behind a wide one or a gap.
pub proof fn law_pen_moves_by_glyph_widths(text: Seq<char>, k: int)
    requires
        0 <= k < text.len(),
    ensures
        glyphs_of(text).len() == text.len(),
        glyphs_of(text)[k] == unifont_glyph(text[k]),
        pen_offset(glyphs_of(text), 0) == 0,
        pen_offset(glyphs_of(text), k + 1) - pen_offset(glyphs_of(text), k) == match unifont_glyph(
            text[k],
        ) {
            Some(Glyph::Halfwidth(_)) => 8int,
            Some(Glyph::Fullwidth(_)) => 16int,
            None => 16int,
        },
{
}

/// In any line of glyphs the pen starts at zero and moves by eight pixels behind a narrow glyph, by
/// sixteen behind a wide one or a gap.
pub proof fn law_pen_moves_in_any_line(glyphs: Seq<Option<Glyph>>, k: int)
    requires
        0 <= k,
    ensures
        pen_offset(glyphs, 0) == 0,
        pen_offset(glyphs, k + 1) - pen_offset(glyphs, k) == match glyphs[k] {
            Some(Glyph::Halfwidth(_)) => 8int,
            Some(Glyph::Fullwidth(_)) => 16int,
            None => 16int,
        },
{
}

} // verus!
