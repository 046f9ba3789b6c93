//! Pixels in guest memory: where they lie, what painting them does, and how a
//! run of them is clipped.

use vstd::prelude::*;

use crate::memory::{offset, read16, read8, write16};

verus! {

/// Width of the frame buffer in pixels.
pub const FRAME_WIDTH: i32 = 240;

/// Height of the frame buffer in pixels.
pub const FRAME_HEIGHT: i32 = 400;

/// The coordinate in the low half of a register: sixteen bits, signed.
pub open spec fn signed16(value: u32) -> i32 {
    if value % 65536 >= 32768 {
        (value % 65536 - 65536) as i32
    } else {
        (value % 65536) as i32
    }
}

/// Reads the signed sixteen-bit coordinate in the low half of `value`.
pub fn signed_coord(value: u32) -> (coord: i32)
    ensures
        coord == signed16(value),
        -32768 <= coord < 32768,
        (value - coord) % 65536 == 0,
{
    let low: i32 = (value % 65536) as i32;
    if low >= 32768 {
        low - 65536
    } else {
        low
    }
}

/// The 5-6-5 colour of an opaque pixel, zero for one that is more than half transparent.
pub open spec fn rgb565(red: u8, green: u8, blue: u8, alpha: u8) -> u16 {
    if alpha < 128 {
        0
    } else {
        ((red / 8) * 2048 + (green / 4) * 32 + blue / 8) as u16
    }
}

/// Packs a pixel's colour; a pixel that is more than half transparent becomes zero.
pub fn pack_color(red: u8, green: u8, blue: u8, alpha: u8) -> (color: u16)
    ensures
        color == rgb565(red, green, blue, alpha),
        alpha < 128 ==> color == 0,
        alpha >= 128 ==> {
            &&& color / 2048 == red / 8
            &&& color / 32 % 64 == green / 4
            &&& color % 32 == blue / 8
        },
{
    proof {
        lemma_channels(red as int / 8, green as int / 4, blue as int / 8);
    }
    if alpha < 128 {
        0
    } else {
        (red / 8) as u16 * 2048 + (green / 4) as u16 * 32 + (blue / 8) as u16
    }
}

/// Pixels from one row to the next: the width, rounded up to a multiple of four.
pub open spec fn pitch_of(width: int) -> int {
    (width + 3) / 4 * 4
}

/// Rounds a width up to the pitch of its rows.
pub fn row_pitch(width: u32) -> (pitch: u32)
    requires
        width <= 0xffff_fff0,
    ensures
        pitch == pitch_of(width as int),
        pitch % 4 == 0,
        width <= pitch < width + 4,
{
    (width + 3) / 4 * 4
}

/// A rectangle of pixels in guest memory.
#[derive(Clone, Copy, Debug, PartialEq, Eq)]
pub struct Surface {
    pub pixels: u32,
    pub width: i32,
    pub height: i32,
}

/// The address of pixel (`x`, `y`) of an image whose rows are `pitch` pixels apart.
pub open spec fn pixel_address(pixels: u32, pitch: int, x: int, y: int) -> u32 {
    offset(pixels, (y * pitch + x) * 2)
}

/// The address of pixel (`x`, `y`) of an image whose rows are `pitch` pixels apart.
pub fn address_of_pixel(pixels: u32, pitch: u32, x: u32, y: u32) -> (address: u32)
    requires
        pitch <= 0x8000_0000,
        x < 0x8000_0000,
        y < 0x8000_0000,
    ensures
        address == pixel_address(pixels, pitch as int, x as int, y as int),
{
    assert(0 <= y * pitch <= 0x4000_0000_0000_0000) by (nonlinear_arith)
        requires
            0 <= pitch <= 0x8000_0000,
            0 <= y <= 0x8000_0000,
    ;
    let place: u64 = (y as u64 * pitch as u64 + x as u64) * 2;
    ((pixels as u64 + place) % 0x1_0000_0000) as u32
}

/// Memory after painting: `ink` gives the colour of each pixel that is painted, and `None`
/// for one that is left alone. Bytes that are not mapped stay so.
pub open spec fn painted(
    m: Map<u32, u8>,
    pixels: u32,
    pitch: int,
    ink: spec_fn(int, int) -> Option<u16>,
) -> Map<u32, u8> {
    Map::new(
        |a: u32| m.dom().contains(a),
        |a: u32|
            {
                let place = a.wrapping_sub(pixels) as int;
                match ink(place / 2 % pitch, place / 2 / pitch) {
                    Some(color) => if place % 2 == 0 {
                        (color % 256) as u8
                    } else {
                        (color / 256) as u8
                    },
                    None => m[a],
                }
            },
    )
}

/// Painting nothing changes nothing.
pub proof fn lemma_paint_nothing(
    m: Map<u32, u8>,
    pixels: u32,
    pitch: int,
    ink: spec_fn(int, int) -> Option<u16>,
)
    requires
        forall|x: int, y: int| 0 <= y || pitch <= 0 ==> #[trigger] ink(x, y) is None,
    ensures
        painted(m, pixels, pitch, ink) == m,
{
    assert forall|a: u32| m.dom().contains(a) implies #[trigger] painted(m, pixels, pitch, ink)[a]
        == m[a] by {
        let place = a.wrapping_sub(pixels) as int;
        if pitch > 0 {
            lemma_grid(place / 2, pitch);
        }
        assert(ink(place / 2 % pitch, place / 2 / pitch) is None);
    }
    assert(painted(m, pixels, pitch, ink) =~= m);
}

/// Division and remainder take a pixel's number apart into column and row.
pub proof fn lemma_grid(n: int, pitch: int)
    requires
        pitch > 0,
        n >= 0,
    ensures
        0 <= n % pitch < pitch,
        0 <= n / pitch,
        n == n / pitch * pitch + n % pitch,
{
    vstd::arithmetic::div_mod::lemma_fundamental_div_mod(n, pitch);
    vstd::arithmetic::div_mod::lemma_mod_bound(n, pitch);
    vstd::arithmetic::div_mod::lemma_div_pos_is_pos(n, pitch);
    vstd::arithmetic::mul::lemma_mul_is_commutative(pitch, n / pitch);
}

/// Column and row make up a pixel's number in one way only.
pub proof fn lemma_grid_inverse(x: int, y: int, pitch: int)
    requires
        0 <= x < pitch,
    ensures
        (y * pitch + x) % pitch == x,
        (y * pitch + x) / pitch == y,
{
    vstd::arithmetic::div_mod::lemma_fundamental_div_mod_converse(y * pitch + x, pitch, y, x);
}

/// Writing one more pixel adds it to the ink.
pub proof fn lemma_paint_pixel(
    m: Map<u32, u8>,
    pixels: u32,
    pitch: int,
    before: spec_fn(int, int) -> Option<u16>,
    after: spec_fn(int, int) -> Option<u16>,
    x: int,
    y: int,
    color: u16,
    address: u32,
)
    requires
        0 <= x < pitch,
        0 <= y,
        (y * pitch + x) * 2 + 1 < 0x1_0000_0000,
        address == pixel_address(pixels, pitch, x, y),
        forall|u: int, v: int|
            0 <= u < pitch && 0 <= v ==> #[trigger] after(u, v) == if u == x && v == y {
                Some(color)
            } else {
                before(u, v)
            },
    ensures
        write16(painted(m, pixels, pitch, before), address, color) == painted(
            m,
            pixels,
            pitch,
            after,
        ),
{
    let p = painted(m, pixels, pitch, before);
    let q = painted(m, pixels, pitch, after);
    let w = write16(p, address, color);
    let n = y * pitch + x;
    assert(n >= 0) by (nonlinear_arith)
        requires
            0 <= x < pitch,
            0 <= y,
            n == y * pitch + x,
    ;
    lemma_grid_inverse(x, y, pitch);
    assert(w.dom() =~= q.dom());
    assert forall|a: u32| w.dom().contains(a) implies #[trigger] w[a] == q[a] by {
        let place = a.wrapping_sub(pixels) as int;
        lemma_grid(place / 2, pitch);
        let u = place / 2 % pitch;
        let v = place / 2 / pitch;
        assert(after(u, v) == if u == x && v == y {
            Some(color)
        } else {
            before(u, v)
        });
        assert((u == x && v == y) <==> place / 2 == n);
        assert(a == address <==> place == 2 * n);
        assert(a == address.wrapping_add(1) <==> place == 2 * n + 1);
    }
    assert(w =~= q);
}

/// Inks that agree on every pixel paint alike.
pub proof fn lemma_same_ink(
    m: Map<u32, u8>,
    pixels: u32,
    pitch: int,
    one: spec_fn(int, int) -> Option<u16>,
    other: spec_fn(int, int) -> Option<u16>,
)
    requires
        pitch > 0,
        forall|x: int, y: int|
            0 <= x < pitch && 0 <= y ==> #[trigger] one(x, y) == other(x, y),
    ensures
        painted(m, pixels, pitch, one) == painted(m, pixels, pitch, other),
{
    let p = painted(m, pixels, pitch, one);
    let q = painted(m, pixels, pitch, other);
    assert forall|a: u32| m.dom().contains(a) implies #[trigger] p[a] == q[a] by {
        let place = a.wrapping_sub(pixels) as int;
        lemma_grid(place / 2, pitch);
        assert(one(place / 2 % pitch, place / 2 / pitch) == other(
            place / 2 % pitch,
            place / 2 / pitch,
        ));
    }
    assert(p =~= q);
}

/// What there is of an ink once the rows above `row` and the first pixels of `row` are done.
pub open spec fn ink_until(
    ink: spec_fn(int, int) -> Option<u16>,
    column: int,
    row: int,
) -> spec_fn(int, int) -> Option<u16> {
    |x: int, y: int|
        if y < row || (y == row && x < column) {
            ink(x, y)
        } else {
            None
        }
}

/// The ink of one drawing over another: the later one wins where it paints.
pub open spec fn ink_over(
    later: spec_fn(int, int) -> Option<u16>,
    earlier: spec_fn(int, int) -> Option<u16>,
) -> spec_fn(int, int) -> Option<u16> {
    |x: int, y: int|
        match later(x, y) {
            Some(color) => Some(color),
            None => earlier(x, y),
        }
}

/// Painting twice is painting once with the later ink over the earlier.
pub proof fn law_paint_twice(
    m: Map<u32, u8>,
    pixels: u32,
    pitch: int,
    earlier: spec_fn(int, int) -> Option<u16>,
    later: spec_fn(int, int) -> Option<u16>,
)
    ensures
        painted(painted(m, pixels, pitch, earlier), pixels, pitch, later) == painted(
            m,
            pixels,
            pitch,
            ink_over(later, earlier),
        ),
{
    let p = painted(painted(m, pixels, pitch, earlier), pixels, pitch, later);
    let q = painted(m, pixels, pitch, ink_over(later, earlier));
    assert(p =~= q);
}

/// A pixel that was painted on mapped memory reads back as its ink.
pub proof fn law_painted_pixel_reads_back(
    m: Map<u32, u8>,
    pixels: u32,
    pitch: int,
    ink: spec_fn(int, int) -> Option<u16>,
    x: int,
    y: int,
)
    requires
        0 <= x < pitch,
        0 <= y,
        (y * pitch + x) * 2 + 1 < 0x1_0000_0000,
        ink(x, y) is Some,
        m.dom().contains(pixel_address(pixels, pitch, x, y)),
        m.dom().contains(pixel_address(pixels, pitch, x, y).wrapping_add(1)),
    ensures
        read16(painted(m, pixels, pitch, ink), pixel_address(pixels, pitch, x, y)) == ink(x, y)->0,
{
    lemma_pixel_place(pixels, pitch, x, y);
}

/// The frame buffer ends long before its addresses could wrap around to its start.
pub proof fn lemma_frame_place(x: int, y: int)
    requires
        0 <= x < FRAME_WIDTH,
        0 <= y < FRAME_HEIGHT,
    ensures
        (y * (FRAME_WIDTH as int) + x) * 2 + 1 < 0x1_0000_0000,
{
    assert(y * 240 + x < 96000) by (nonlinear_arith)
        requires
            0 <= x < 240,
            0 <= y < 400,
    ;
}

/// A pixel without ink keeps its colour.
pub proof fn law_bare_pixel_keeps_its_colour(
    m: Map<u32, u8>,
    pixels: u32,
    pitch: int,
    ink: spec_fn(int, int) -> Option<u16>,
    x: int,
    y: int,
)
    requires
        0 <= x < pitch,
        0 <= y,
        (y * pitch + x) * 2 + 1 < 0x1_0000_0000,
        ink(x, y) is None,
    ensures
        read16(painted(m, pixels, pitch, ink), pixel_address(pixels, pitch, x, y)) == read16(
            m,
            pixel_address(pixels, pitch, x, y),
        ),
{
    lemma_pixel_place(pixels, pitch, x, y);
}

/// The two bytes of a pixel lie at twice its number.
proof fn lemma_pixel_place(pixels: u32, pitch: int, x: int, y: int)
    requires
        0 <= x < pitch,
        0 <= y,
        (y * pitch + x) * 2 + 1 < 0x1_0000_0000,
    ensures
        ({
            let a = pixel_address(pixels, pitch, x, y);
            let n = y * pitch + x;
            &&& n >= 0
            &&& a.wrapping_sub(pixels) == 2 * n
            &&& a.wrapping_add(1).wrapping_sub(pixels) == 2 * n + 1
            &&& n % pitch == x
            &&& n / pitch == y
        }),
{
    let n = y * pitch + x;
    assert(n >= 0) by (nonlinear_arith)
        requires
            0 <= x < pitch,
            0 <= y,
            n == y * pitch + x,
    ;
    lemma_grid_inverse(x, y, pitch);
}

/// A byte outside a surface of `height` rows keeps its value when only pixels of the surface
/// are painted.
pub proof fn law_painting_stays_inside(
    m: Map<u32, u8>,
    pixels: u32,
    pitch: int,
    height: int,
    ink: spec_fn(int, int) -> Option<u16>,
    a: u32,
)
    requires
        pitch > 0,
        forall|x: int, y: int| #[trigger] ink(x, y) is Some ==> y < height,
        a.wrapping_sub(pixels) >= height * pitch * 2,
    ensures
        read8(painted(m, pixels, pitch, ink), a) == read8(m, a),
{
    let place = a.wrapping_sub(pixels) as int;
    lemma_grid(place / 2, pitch);
    let y = place / 2 / pitch;
    if y < height {
        assert((y + 1) * pitch <= height * pitch) by (nonlinear_arith)
            requires
                y + 1 <= height,
                pitch > 0,
        ;
        assert((y + 1) * pitch == y * pitch + pitch) by (nonlinear_arith);
        assert(false);
    }
    assert(ink(place / 2 % pitch, y) is None);
}

/// A byte of the padding at the end of a surface's rows keeps its value when only pixels of the
/// surface, which is `width` pixels wide, are painted.
pub proof fn law_painting_keeps_padding(
    m: Map<u32, u8>,
    pixels: u32,
    pitch: int,
    width: int,
    ink: spec_fn(int, int) -> Option<u16>,
    a: u32,
)
    requires
        pitch > 0,
        forall|x: int, y: int| #[trigger] ink(x, y) is Some ==> x < width,
        a.wrapping_sub(pixels) as int / 2 % pitch >= width,
    ensures
        read8(painted(m, pixels, pitch, ink), a) == read8(m, a),
{
    let place = a.wrapping_sub(pixels) as int;
    assert(ink(place / 2 % pitch, place / 2 / pitch) is None);
}

/// The part of a run of pixels that lies inside both its source and its destination.
#[derive(Clone, Copy, Debug, PartialEq, Eq)]
pub struct Clip {
    pub source: i32,
    pub destination: i32,
    pub length: i32,
}

/// The first pixel of a run at or right of both origins.
pub open spec fn clip_start(source: int, destination: int) -> int {
    if source < 0 && source <= destination {
        -source
    } else if destination < 0 {
        -destination
    } else {
        0
    }
}

/// The end of the part of a run of `length` pixels that stays below both limits.
pub open spec fn clip_end(
    source: int,
    length: int,
    destination: int,
    source_limit: int,
    destination_limit: int,
) -> int {
    let source_room = source_limit - source;
    let destination_room = destination_limit - destination;
    if length <= source_room && length <= destination_room {
        length
    } else if source_room <= destination_room {
        source_room
    } else {
        destination_room
    }
}

/// What is left of a run once it is clipped on both sides, if anything is.
pub open spec fn clipped(
    source: int,
    length: int,
    destination: int,
    source_limit: int,
    destination_limit: int,
) -> Option<Clip> {
    let start = clip_start(source, destination);
    let end = clip_end(source, length, destination, source_limit, destination_limit);
    if start < end {
        Some(
            Clip {
                source: (source + start) as i32,
                destination: (destination + start) as i32,
                length: (end - start) as i32,
            },
        )
    } else {
        None
    }
}

/// Clips a run of `length` pixels, read from `source` on and drawn from `destination` on.
pub fn clip_axis(
    source: i32,
    length: i32,
    destination: i32,
    source_limit: i32,
    destination_limit: i32,
) -> (clip: Option<Clip>)
    ensures
        clip == clipped(
            source as int,
            length as int,
            destination as int,
            source_limit as int,
            destination_limit as int,
        ),
{
    let start: i64 = if source < 0 && source <= destination {
        -(source as i64)
    } else if destination < 0 {
        -(destination as i64)
    } else {
        0
    };
    let source_room: i64 = source_limit as i64 - source as i64;
    let destination_room: i64 = destination_limit as i64 - destination as i64;
    let end: i64 = if length as i64 <= source_room && length as i64 <= destination_room {
        length as i64
    } else if source_room <= destination_room {
        source_room
    } else {
        destination_room
    };
    if start < end {
        Some(
            Clip {
                source: (source as i64 + start) as i32,
                destination: (destination as i64 + start) as i32,
                length: (end - start) as i32,
            },
        )
    } else {
        None
    }
}

/// Clipping keeps a pixel exactly if the pixel lies inside the source and inside the
/// destination, keeps their distance, and leaves nothing that is outside either.
pub proof fn law_clip_is_exact(
    source: i32,
    length: i32,
    destination: i32,
    source_limit: i32,
    destination_limit: i32,
    i: int,
)
    ensures
        ({
            let clip = clipped(
                source as int,
                length as int,
                destination as int,
                source_limit as int,
                destination_limit as int,
            );
            let visible = 0 <= i < length && 0 <= source + i < source_limit && 0 <= destination + i
                < destination_limit;
            match clip {
                Some(c) => {
                    &&& visible <==> c.source <= source + i < c.source + c.length
                    &&& c.source - source == c.destination - destination
                    &&& c.length > 0
                    &&& 0 <= c.source && c.source + c.length <= source_limit
                    &&& 0 <= c.destination && c.destination + c.length <= destination_limit
                },
                None => !visible,
            }
        }),
{
}

/// A coordinate is the number between -32768 and 32767 whose low sixteen bits a register holds.
pub proof fn law_coordinate_is_signed(value: u32, coord: int)
    requires
        -32768 <= coord < 32768,
    ensures
        signed16(value) == coord <==> value as int % 65536 == coord % 65536,
        -32768 <= signed16(value) < 32768,
{
}

/// A colour splits back into its channels: five bits of red, six of green and five of blue. A
/// pixel that is more than half transparent has none.
pub proof fn law_colour_splits_into_channels(red: u8, green: u8, blue: u8, alpha: u8)
    ensures
        ({
            let color = rgb565(red, green, blue, alpha);
            if alpha >= 128 {
                &&& color / 2048 == red / 8
                &&& color / 32 % 64 == green / 4
                &&& color % 32 == blue / 8
            } else {
                color == 0
            }
        }),
{
    lemma_channels(red as int / 8, green as int / 4, blue as int / 8);
}

/// Five, six and five bits that are put together come apart again.
proof fn lemma_channels(red: int, green: int, blue: int)
    requires
        0 <= red < 32,
        0 <= green < 64,
        0 <= blue < 32,
    ensures
        ({
            let color = red * 2048 + green * 32 + blue;
            &&& 0 <= color < 65536
            &&& color / 2048 == red
            &&& color / 32 % 64 == green
            &&& color % 32 == blue
        }),
{
}

/// Rows start at multiples of four pixels and hold as few more than the width as that allows.
pub proof fn law_pitch_is_next_multiple_of_four(width: int)
    ensures
        pitch_of(width) % 4 == 0,
        width <= pitch_of(width) < width + 4,
{
}

/// A pixel lies two bytes behind the one on its left, and a pitch behind the one above it.
pub proof fn law_pixels_lie_in_rows(pixels: u32, pitch: int, x: int, y: int)
    requires
        0 <= x < pitch,
        0 <= y,
        (y * pitch + x) * 2 + 1 < 0x1_0000_0000,
    ensures
        pixel_address(pixels, pitch, x, y).wrapping_sub(pixels) == (y * pitch + x) * 2,
        pixel_address(pixels, pitch, 0, 0) == pixels,
{
    lemma_pixel_place(pixels, pitch, x, y);
}

} // verus!
