use nicaiemu_core::font::{line_width, text_glyphs, Glyph};
use nicaiemu_core::rotation::Rotation;
use nicaiemu_core::surface::{
    address_of_pixel, clip_axis, pack_color, row_pitch, signed_coord, Clip,
};
use nicaiemu_core::text::{encode_utf16, guest_text};

#[test]
fn coordinates_are_signed_halfwords() {
    assert_eq!(signed_coord(0x1234_ffff), -1);
    assert_eq!(signed_coord(0x7fff), 32767);
    assert_eq!(signed_coord(0x8000), -32768);
    assert_eq!(signed_coord(0xffff_0005), 5);
}

#[test]
fn colours_are_packed_as_five_six_five() {
    assert_eq!(pack_color(0xff, 0xff, 0xff, 0xff), 0xffff);
    assert_eq!(pack_color(0xff, 0, 0, 128), 0xf800);
    assert_eq!(pack_color(0, 0xff, 0, 128), 0x07e0);
    assert_eq!(pack_color(0, 0, 0xff, 128), 0x001f);
    assert_eq!(pack_color(0x12, 0x34, 0x56, 200), 0x11aa);
    assert_eq!(pack_color(0xff, 0xff, 0xff, 127), 0);
}

#[test]
fn rows_are_padded_to_four_pixels() {
    assert_eq!(row_pitch(1), 4);
    assert_eq!(row_pitch(4), 4);
    assert_eq!(row_pitch(5), 8);
    assert_eq!(row_pitch(240), 240);
    assert_eq!(row_pitch(65535), 65536);
}

#[test]
fn pixel_addresses_wrap_around() {
    assert_eq!(address_of_pixel(0x1000, 240, 3, 2), 0x1000 + (2 * 240 + 3) * 2);
    assert_eq!(address_of_pixel(0xffff_fffe, 4, 1, 0), 0);
    assert_eq!(address_of_pixel(0, 65536, 0, 40000), (40000u64 * 65536 * 2 % (1 << 32)) as u32);
}

#[test]
fn runs_are_clipped_on_both_sides() {
    let clip = |source, destination, length| Some(Clip { source, destination, length });
    assert_eq!(clip_axis(0, 10, 5, 10, 100), clip(0, 5, 10));
    assert_eq!(clip_axis(-3, 10, 5, 10, 100), clip(0, 8, 7));
    assert_eq!(clip_axis(0, 10, -4, 10, 100), clip(4, 0, 6));
    assert_eq!(clip_axis(8, 10, 0, 10, 100), clip(8, 0, 2));
    assert_eq!(clip_axis(0, 10, 95, 10, 100), clip(0, 95, 5));
    assert_eq!(clip_axis(-2, 20, -5, 10, 4), clip(3, 0, 4));
    assert_eq!(clip_axis(0, 0, 0, 10, 10), None);
    assert_eq!(clip_axis(0, -5, 0, 10, 10), None);
    assert_eq!(clip_axis(10, 5, 0, 10, 10), None);
    assert_eq!(clip_axis(0, 5, -5, 10, 10), None);
    assert_eq!(clip_axis(i32::MIN, i32::MAX, i32::MAX, i32::MAX, 240), None);
}

#[test]
fn clipping_keeps_exactly_the_visible_pixels() {
    for source in -4..8 {
        for destination in -4..8 {
            for length in -1..9 {
                let clip = clip_axis(source, length, destination, 5, 6);
                for i in -2..12 {
                    let visible = 0 <= i
                        && i < length
                        && (0..5).contains(&(source + i))
                        && (0..6).contains(&(destination + i));
                    let kept = match clip {
                        Some(c) => {
                            assert_eq!(c.source - source, c.destination - destination);
                            (c.source..c.source + c.length).contains(&(source + i))
                        }
                        None => false,
                    };
                    assert_eq!(kept, visible);
                }
            }
        }
    }
}

#[test]
fn display_and_frame_buffer_pixels_pair_up() {
    let turns = [
        Rotation::Upright,
        Rotation::Clockwise,
        Rotation::UpsideDown,
        Rotation::CounterClockwise,
    ];
    for rotation in turns {
        let (width, height) = if rotation.swaps_dimensions() { (400, 240) } else { (240, 400) };
        let mut seen = vec![false; 240 * 400];
        for y in 0..height {
            for x in 0..width {
                let (px, py) = rotation.unrotate(x, y);
                let place = (py * 240 + px) as usize;
                assert!(!seen[place]);
                seen[place] = true;
            }
        }
        assert!(seen.iter().all(|seen| *seen));
    }
    assert_eq!(Rotation::Clockwise.unrotate(0, 0), (0, 399));
    assert_eq!(Rotation::CounterClockwise.unrotate(0, 0), (239, 0));
    assert_eq!(Rotation::UpsideDown.unrotate(0, 0), (239, 399));
}

#[test]
fn glyphs_are_those_of_the_font() {
    let glyphs = text_glyphs("A\u{4e2d}");
    let half = unifont::get_glyph('A').unwrap();
    let full = unifont::get_glyph('\u{4e2d}').unwrap();
    assert_eq!(glyphs.len(), 2);
    for (glyph, expected) in [(glyphs[0].unwrap(), half), (glyphs[1].unwrap(), full)] {
        assert_eq!(glyph.get_width(), expected.get_width());
        for y in 0..18 {
            for x in 0..18 {
                assert_eq!(glyph.get_pixel(x, y), expected.get_pixel(x, y));
            }
        }
    }
    assert!(matches!(glyphs[0], Some(Glyph::Halfwidth(_))));
    assert!(matches!(glyphs[1], Some(Glyph::Fullwidth(_))));
}

#[test]
fn missing_glyphs_leave_a_gap_of_sixteen() {
    let missing = '\u{10fffd}';
    assert!(unifont::get_glyph(missing).is_none());
    let glyphs = text_glyphs(&format!("A{missing}\u{4e2d}"));
    assert!(glyphs[1].is_none());
    assert_eq!(line_width(&glyphs), 8 + 16 + 16);
    assert_eq!(line_width(&text_glyphs("")), 0);
}

#[test]
fn bytes_are_read_as_gbk() {
    assert_eq!(guest_text(&vec![0xd6, 0xd0, 0xce, 0xc4]), "\u{4e2d}\u{6587}");
    assert_eq!(guest_text(&b"plain".to_vec()), "plain");
    assert_eq!(guest_text(&vec![0xff]), "\u{fffd}");
    assert_eq!(guest_text(&vec![]), "");
}

#[test]
fn text_is_encoded_as_utf16_and_cut_off() {
    assert_eq!(encode_utf16("a\u{4e2d}", 10), vec![0x61, 0x4e2d]);
    assert_eq!(encode_utf16("\u{1f600}!", 10), vec![0xd83d, 0xde00, 0x21]);
    assert_eq!(encode_utf16("\u{1f600}!", 1), vec![0xd83d]);
    assert_eq!(encode_utf16("abc", 0), Vec::<u16>::new());
    let text = "\u{1f600}\u{ffff}\u{10000}\u{10ffff}z";
    assert_eq!(encode_utf16(text, 100), text.encode_utf16().collect::<Vec<u16>>());
}
