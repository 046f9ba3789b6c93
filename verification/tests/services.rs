use nicaiemu_core::font::Glyph;
use nicaiemu_core::heap::GuestHeap;
use nicaiemu_core::lcd::{HostReply, LcdStep};
use nicaiemu_core::machine::{HostResource, Layout, NicaiMachine};
use nicaiemu_core::memory::GuestMemory;
use nicaiemu_core::rotation::Rotation;
use nicaiemu_core::DecodedImage;

const SCREEN: u32 = 0x1000_0000;
const SCREEN_HEADER: u32 = 0x2000_0000;
const SLOT: u32 = 0x2000_0010;
const STACK: u32 = 0x2000_0100;
const SCRATCH: u32 = 0x2000_0200;
const HEAP: u32 = 0x3000_0000;
const HEAP_SIZE: u32 = 0x1_0000;

fn machine(rotation: Rotation) -> NicaiMachine {
    let mut memory = GuestMemory::new();
    assert!(memory.map_region(SCREEN, vec![0; 240 * 400 * 2]));
    assert!(memory.map_region(SCREEN_HEADER, vec![0; 0x4000]));
    assert!(memory.map_region(HEAP, vec![0; HEAP_SIZE as usize]));
    let layout = Layout {
        screen_image: SCREEN,
        screen_image_struct: SCREEN_HEADER,
        package_slot: SLOT,
    };
    let resources = vec![
        HostResource { name: "logo".to_string(), data: vec![1, 2, 3] },
        HostResource { name: "hero".to_string(), data: vec![4, 5] },
    ];
    let heap = GuestHeap::new(HEAP, HEAP_SIZE);
    let mut machine =
        NicaiMachine::new(memory, layout, heap, rotation, resources, vec![0x4000_0000, 0x4000_1000]);
    machine.registers[13] = STACK;
    machine
}

fn upright() -> NicaiMachine {
    machine(Rotation::Upright)
}

fn registers(machine: &mut NicaiMachine, values: &[u32]) {
    for (i, value) in values.iter().enumerate() {
        machine.registers[i] = *value;
    }
}

fn done(machine: &mut NicaiMachine, index: u32) -> u32 {
    assert!(matches!(machine.handle_lcd_service(index), LcdStep::Done));
    machine.register(0)
}

fn pixel(machine: &NicaiMachine, x: u32, y: u32) -> u16 {
    machine.memory.r16(SCREEN + (y * 240 + x) * 2)
}

fn painted(machine: &NicaiMachine) -> Vec<(u32, u32)> {
    let mut pixels = Vec::new();
    for y in 0..400 {
        for x in 0..240 {
            if pixel(machine, x, y) != 0 {
                pixels.push((x, y));
            }
        }
    }
    pixels
}

fn rectangle(left: u32, top: u32, right: u32, bottom: u32) -> Vec<(u32, u32)> {
    let mut pixels = Vec::new();
    for y in top..bottom {
        for x in left..right {
            pixels.push((x, y));
        }
    }
    pixels
}

fn string(machine: &mut NicaiMachine, address: u32, bytes: &[u8]) {
    for (i, byte) in bytes.iter().enumerate() {
        machine.memory.w8(address + i as u32, *byte);
    }
    machine.memory.w8(address + bytes.len() as u32, 0);
}

/// An image in scratch memory: its header at `image`, its pixels behind it, numbered from one.
fn image(machine: &mut NicaiMachine, image: u32, width: u16, height: u16) {
    let pitch = (width as u32 + 3) / 4 * 4;
    machine.memory.w32(image, image + 12);
    machine.memory.w16(image + 4, width);
    machine.memory.w16(image + 6, height);
    for y in 0..height as u32 {
        for x in 0..width as u32 {
            let color = (y * width as u32 + x + 1) as u16;
            machine.memory.w16(image + 12 + (y * pitch + x) * 2, color);
        }
    }
}

#[test]
fn fills_are_cut_off_at_the_frame() {
    let mut m = upright();
    m.fill_screen_rect(-2, 397, 5, 10, 0x1234);
    assert_eq!(painted(&m), rectangle(0, 397, 3, 400));
    assert_eq!(pixel(&m, 2, 399), 0x1234);

    let mut m = upright();
    m.fill_screen_rect(i32::MAX, 0, i32::MAX, 10, 1);
    m.fill_screen_rect(0, 0, -5, 10, 1);
    m.fill_screen_rect(10, 10, 0, 10, 1);
    m.fill_screen_rect(-50, -50, 50, 50, 1);
    assert_eq!(painted(&m), vec![]);

    let mut m = upright();
    m.fill_screen_rect(i32::MIN, i32::MIN, i32::MAX, i32::MAX, 1);
    assert_eq!(painted(&m), vec![]);
    m.fill_screen_rect(-1, -1, i32::MAX, i32::MAX, 1);
    assert_eq!(painted(&m).len(), 240 * 400);
}

#[test]
fn the_last_fill_of_a_rectangle_shows() {
    let mut m = upright();
    m.fill_screen_rect(1, 1, 4, 4, 7);
    m.fill_screen_rect(1, 1, 4, 4, 9);
    assert_eq!(pixel(&m, 1, 1), 9);
    assert_eq!(pixel(&m, 4, 4), 9);
    assert_eq!(pixel(&m, 5, 5), 0);
}

#[test]
fn drawing_stays_inside_the_frame_buffer() {
    let mut m = upright();
    assert!(m.memory.map_region(SCREEN - 0x1000, vec![0x5a; 0x1000]));
    assert!(m.memory.map_region(SCREEN + 192_000, vec![0x5a; 0x1000]));
    string(&mut m, SCRATCH, b"WWWW");
    m.fill_screen_rect(-9, -9, 1000, 1000, 0xffff);
    m.draw_text(SCRATCH, -20, -5, 1);
    m.draw_text(SCRATCH, 230, 395, 1);
    for i in 0..0x1000 {
        assert_eq!(m.memory.r8(SCREEN - 0x1000 + i), 0x5a);
        assert_eq!(m.memory.r8(SCREEN + 192_000 + i), 0x5a);
    }
}

#[test]
fn an_outline_runs_along_the_edge_that_cuts_it_off() {
    let mut m = upright();
    m.paint_rect(-3, 2, 6, 4, 5, true, 240, 400, SCREEN);
    let mut expected = rectangle(0, 2, 3, 6);
    expected.retain(|p| *p != (1, 3) && *p != (1, 4));
    assert_eq!(painted(&m), expected);
    m.paint_rect(-3, 2, 6, 4, 5, false, 240, 400, SCREEN);
    assert_eq!(painted(&m), rectangle(0, 2, 3, 6));
}

#[test]
fn stack_rectangles_take_height_and_colour_from_the_stack() {
    let mut m = upright();
    m.memory.w32(STACK, 3);
    m.memory.w32(STACK + 4, 0xabcd_0042);
    // Small coordinates are no packed corners.
    registers(&mut m, &[10, 20, 2]);
    assert_eq!(done(&mut m, 18), 1);
    assert_eq!(painted(&m), rectangle(10, 20, 12, 23));
    assert_eq!(pixel(&m, 10, 20), 0x42);
}

#[test]
fn rectangles_can_be_drawn_on_an_image() {
    let mut m = upright();
    image(&mut m, SCRATCH, 6, 4);
    m.memory.w32(STACK, 2);
    m.memory.w32(STACK + 4, 0x77);
    registers(&mut m, &[SCRATCH, 4, 1, 9]);
    assert_eq!(done(&mut m, 17), 1);
    assert_eq!(painted(&m), vec![]);
    let at = |x: u32, y: u32| m.memory.r16(SCRATCH + 12 + (y * 8 + x) * 2);
    assert_eq!(at(3, 1), 10);
    assert_eq!((at(4, 1), at(5, 1), at(4, 2), at(5, 2)), (0x77, 0x77, 0x77, 0x77));
    assert_eq!(at(4, 3), 23);
}

#[test]
fn the_padding_of_rows_is_left_alone() {
    let mut m = upright();
    image(&mut m, SCRATCH, 6, 4);
    for y in 0..4 {
        m.memory.w32(SCRATCH + 12 + (y * 8 + 6) * 2, 0x5a5a_5a5a);
    }
    m.paint_rect(-9, -9, 100, 100, 7, false, 6, 4, SCRATCH + 12);
    m.blit_image(SCRATCH, SCRATCH, 0, 0, 100, 100, 1, 1, false);
    for y in 0..4 {
        assert_eq!(m.memory.r32(SCRATCH + 12 + (y * 8 + 6) * 2), 0x5a5a_5a5a);
        assert_eq!(m.memory.r16(SCRATCH + 12 + (y * 8 + 5) * 2), 7);
    }
}

#[test]
fn text_advances_by_its_measured_width() {
    for rotation in [Rotation::Upright, Rotation::Clockwise] {
        let mut m = machine(rotation);
        let mut whole = machine(rotation);
        string(&mut m, SCRATCH, b"Lo");
        string(&mut m, SCRATCH + 0x10, b"ad 7%");
        string(&mut whole, SCRATCH, b"Load 7%");
        registers(&mut m, &[SCRATCH]);
        let width = done(&mut m, 7);
        assert_eq!(width, 16);
        m.draw_text(SCRATCH, 190, 50, 3);
        m.draw_text(SCRATCH + 0x10, 190 + width as i32, 50, 3);
        whole.draw_text(SCRATCH, 190, 50, 3);
        assert_eq!(painted(&m), painted(&whole));
        assert!(!painted(&m).is_empty());
    }
}

#[test]
fn an_unusable_image_header_means_the_frame_buffer() {
    for (pixels, width, height) in [(0, 4, 4), (0x2000_0300, 0, 4), (0x2000_0300, 4, 0), (0x2000_0300, 241, 4), (0x2000_0300, 4, 401)] {
        let mut m = upright();
        m.memory.w32(SCRATCH, pixels);
        m.memory.w16(SCRATCH + 4, width);
        m.memory.w16(SCRATCH + 6, height);
        m.memory.w32(STACK, 1);
        m.memory.w32(STACK + 4, 3);
        registers(&mut m, &[SCRATCH, 7, 8, 2]);
        assert_eq!(done(&mut m, 17), 1);
        assert_eq!(painted(&m), rectangle(7, 8, 9, 9));
    }
}

#[test]
fn packed_corners_both_belong_to_the_rectangle() {
    let mut m = upright();
    registers(&mut m, &[(5 << 16) | 3, (2 << 16) | 8, 0x99]);
    assert_eq!(done(&mut m, 18), 1);
    assert_eq!(painted(&m), rectangle(3, 2, 9, 6));
    assert_eq!(pixel(&m, 8, 5), 0x99);

    let mut swapped = upright();
    registers(&mut swapped, &[(2 << 16) | 8, (5 << 16) | 3, 0x99]);
    assert_eq!(done(&mut swapped, 18), 1);
    assert_eq!(painted(&swapped), painted(&m));

    let mut outline = upright();
    registers(&mut outline, &[(5 << 16) | 3, (2 << 16) | 8, 0x99]);
    assert_eq!(done(&mut outline, 16), 1);
    let inner = rectangle(4, 3, 8, 5);
    let mut expected = rectangle(3, 2, 9, 6);
    expected.retain(|p| !inner.contains(p));
    assert_eq!(painted(&outline), expected);
}

#[test]
fn registers_without_plausible_corners_are_not_packed() {
    for (first, second) in [(5, 9), (0x0001_01e1, 0), (0x0001_ff0f, 0), (0x0321_0000, 0), (0xfe6f_0000, 0), (SCREEN_HEADER, 0)] {
        let mut m = upright();
        registers(&mut m, &[first, second, 1]);
        assert!(!m.draw_packed_screen_rect(false));
        assert_eq!(painted(&m), vec![]);
    }
    for first in [0x0001_01e0, 0x0001_ff10, 0x0320_0000, 0xfe70_0000] {
        let mut m = upright();
        registers(&mut m, &[first, 0, 1]);
        assert!(m.draw_packed_screen_rect(false));
    }
}

#[test]
fn filled_rectangles_prefer_the_frame_buffer() {
    let mut m = upright();
    m.memory.w32(STACK, 0xffff_0007);
    registers(&mut m, &[0xfffe, 1, 4, 2]);
    assert_eq!(done(&mut m, 19), 1);
    assert_eq!(painted(&m), rectangle(0, 1, 2, 3));
    assert_eq!(pixel(&m, 0, 1), 7);

    // A width beyond the frame makes the first register an image.
    let mut m = upright();
    m.memory.w32(STACK, 2);
    m.memory.w32(STACK + 4, 8);
    registers(&mut m, &[3, 1, 241, 2]);
    assert_eq!(done(&mut m, 19), 1);
    assert_eq!(painted(&m), rectangle(1, 241, 3, 243));

    let mut m = upright();
    image(&mut m, SCRATCH, 6, 4);
    m.memory.w32(STACK, 2);
    m.memory.w32(STACK + 4, 8);
    registers(&mut m, &[SCRATCH, 1, 0, 2]);
    assert_eq!(done(&mut m, 19), 1);
    assert_eq!(painted(&m), vec![]);
    assert_eq!(m.memory.r16(SCRATCH + 12), 1);
    assert_eq!(m.memory.r16(SCRATCH + 14), 8);
    assert_eq!(m.memory.r16(SCRATCH + 16), 8);
    assert_eq!(m.memory.r16(SCRATCH + 18), 4);
}

#[test]
fn a_glyph_is_drawn_dot_by_dot() {
    let mut m = upright();
    let mut rows = [0u8; 16];
    rows[0] = 0b1000_0001;
    rows[15] = 0b0100_0000;
    m.draw_glyph(&Glyph::Halfwidth(rows), 10, 20, 3);
    assert_eq!(painted(&m), vec![(10, 20), (17, 20), (11, 35)]);

    let mut m = upright();
    let mut rows = [0u16; 16];
    rows[2] = 0x8001;
    m.draw_glyph(&Glyph::Fullwidth(rows), -15, 397, 3);
    assert_eq!(painted(&m), vec![(0, 399)]);
    m.draw_glyph(&Glyph::Fullwidth(rows), i32::MAX, i32::MIN, 3);
    m.draw_glyph(&Glyph::Fullwidth(rows), i32::MIN, i32::MAX, 3);
    assert_eq!(painted(&m), vec![(0, 399)]);
}

#[test]
fn a_turned_display_gets_its_dots_turned_back() {
    let mut rows = [0u8; 16];
    rows[0] = 0x80;
    let glyph = Glyph::Halfwidth(rows);

    let mut m = machine(Rotation::Clockwise);
    m.draw_glyph(&glyph, 390, 7, 3);
    assert_eq!(painted(&m), vec![(7, 9)]);

    let mut m = machine(Rotation::CounterClockwise);
    m.draw_glyph(&glyph, 390, 7, 3);
    assert_eq!(painted(&m), vec![(232, 390)]);

    let mut m = machine(Rotation::UpsideDown);
    m.draw_glyph(&glyph, 100, 7, 3);
    assert_eq!(painted(&m), vec![(100, 7)]);
    m.draw_glyph(&glyph, 390, 7, 3);
    assert_eq!(painted(&m), vec![(100, 7)]);
}

#[test]
fn a_line_of_glyphs_advances_by_their_widths() {
    let half = Glyph::Halfwidth([0x80; 16]);
    let full = Glyph::Fullwidth([0x8000; 16]);
    let mut m = upright();
    m.draw_glyphs(&vec![Some(half), None, Some(full), Some(half)], 5, 384, 1);
    let mut expected = Vec::new();
    for y in 384..400 {
        for x in [5, 29, 45] {
            expected.push((x, y));
        }
    }
    assert_eq!(painted(&m), expected);
}

#[test]
fn text_is_drawn_with_the_font() {
    let mut m = upright();
    string(&mut m, SCRATCH, &[b'A', 0xd6, 0xd0]);
    m.draw_text(SCRATCH, 30, 40, 9);
    let mut expected = Vec::new();
    for y in 0..16 {
        for (c, left) in [('A', 0), ('\u{4e2d}', 8)] {
            let glyph = unifont::get_glyph(c).unwrap();
            for x in 0..glyph.get_width() {
                if glyph.get_pixel(x, y) {
                    expected.push((30 + left + x as u32, 40 + y as u32));
                }
            }
        }
    }
    assert_eq!(painted(&m), expected);
    assert!(!expected.is_empty());
}

#[test]
fn text_services_find_their_arguments() {
    let mut reference = upright();
    string(&mut reference, SCRATCH, b"Hi");
    reference.draw_text(SCRATCH, 12, 34, 0x55);
    let expected = painted(&reference);

    let mut m = upright();
    string(&mut m, SCRATCH, b"Hi");
    registers(&mut m, &[SCRATCH, 12, 34, 0xffff_0055]);
    assert_eq!(done(&mut m, 9), 1);
    assert_eq!(painted(&m), expected);
    assert_eq!(pixel(&m, expected[0].0, expected[0].1), 0x55);

    let mut m = upright();
    string(&mut m, SCRATCH, b"Hi");
    m.memory.w16(STACK, 0x55);
    registers(&mut m, &[0, SCRATCH, 12, 34]);
    assert_eq!(done(&mut m, 10), 1);
    assert_eq!(painted(&m), expected);

    for index in 11..=13 {
        let mut m = upright();
        string(&mut m, SCRATCH, b"Hi");
        m.memory.w32(STACK + 4, 0x55);
        registers(&mut m, &[SCRATCH, 12, 34, 0]);
        assert_eq!(done(&mut m, index), 1);
        assert_eq!(painted(&m), expected);

        let mut m = upright();
        string(&mut m, SCRATCH, b"Hi");
        m.memory.w16(STACK + 16, 0x55);
        registers(&mut m, &[0, SCRATCH, 12, 34]);
        assert_eq!(done(&mut m, index), 1);
        assert_eq!(painted(&m), expected);
    }
}

#[test]
fn text_without_coordinates_goes_to_the_kept_origin() {
    let mut reference = upright();
    string(&mut reference, SCRATCH, b"Hi");
    reference.draw_text(SCRATCH, 60, 70, 1);

    let mut m = upright();
    string(&mut m, SCRATCH, b"Hi");
    m.memory.w16(STACK, 1);
    registers(&mut m, &[0, 60, 70]);
    assert_eq!(done(&mut m, 1), SCREEN);
    registers(&mut m, &[0, SCRATCH, 0, 0]);
    assert_eq!(done(&mut m, 10), 1);
    assert_eq!(painted(&m), painted(&reference));

    // Explicit coordinates keep their meaning.
    let mut m = upright();
    string(&mut m, SCRATCH, b"Hi");
    m.memory.w16(STACK, 1);
    registers(&mut m, &[0, 5, 5]);
    assert_eq!(done(&mut m, 1), SCREEN);
    registers(&mut m, &[0, SCRATCH, 60, 70]);
    assert_eq!(done(&mut m, 10), 1);
    assert_eq!(painted(&m), painted(&reference));
    assert_eq!(m.latched_text_origin, (5, 5));
}

#[test]
fn text_is_measured() {
    let mut m = upright();
    string(&mut m, SCRATCH, &[b'A', b'B', 0xd6, 0xd0]);
    registers(&mut m, &[SCRATCH]);
    assert_eq!(done(&mut m, 7), 32);
}

#[test]
fn text_is_converted_to_utf16() {
    let mut m = upright();
    string(&mut m, SCRATCH, &[b'A', 0xd6, 0xd0, b'!']);
    let buffer = SCRATCH + 0x100;
    m.memory.w16(buffer + 6, 0xeeee);
    registers(&mut m, &[SCRATCH, buffer, 9]);
    assert_eq!(done(&mut m, 38), 3);
    assert_eq!(m.memory.r16(buffer), 0x41);
    assert_eq!(m.memory.r16(buffer + 2), 0x4e2d);
    assert_eq!(m.memory.r16(buffer + 4), 0x21);
    assert_eq!(m.memory.r16(buffer + 6), 0);

    m.memory.w16(buffer + 4, 0xeeee);
    registers(&mut m, &[SCRATCH, buffer, 2]);
    assert_eq!(done(&mut m, 38), 1);
    assert_eq!(m.memory.r16(buffer + 2), 0);
    assert_eq!(m.memory.r16(buffer + 4), 0xeeee);

    for arguments in [[0, buffer, 2], [SCRATCH, 0, 2], [SCRATCH, buffer, 0]] {
        m.memory.w16(buffer, 0xeeee);
        registers(&mut m, &arguments);
        assert_eq!(done(&mut m, 38), 0);
        assert_eq!(m.memory.r16(buffer), 0xeeee);
    }
}

#[test]
fn images_are_drawn_whole_or_in_part() {
    let mut m = upright();
    image(&mut m, SCRATCH, 3, 2);
    registers(&mut m, &[SCRATCH, 10, 20]);
    assert_eq!(done(&mut m, 27), 1);
    assert_eq!(painted(&m), rectangle(10, 20, 13, 22));
    assert_eq!(pixel(&m, 10, 20), 1);
    assert_eq!(pixel(&m, 12, 21), 6);

    let mut m = upright();
    image(&mut m, SCRATCH, 3, 2);
    registers(&mut m, &[SCRATCH, (399 << 16) | 0xffff]);
    assert_eq!(done(&mut m, 26), 1);
    assert_eq!(painted(&m), rectangle(0, 399, 2, 400));
    assert_eq!(pixel(&m, 0, 399), 2);

    // Source column and row one, between two corners.
    let mut m = upright();
    image(&mut m, SCRATCH, 3, 2);
    registers(&mut m, &[SCRATCH, (1 << 16) | 1, (30 << 16) | 40, (33 << 16) | 40]);
    assert_eq!(done(&mut m, 29), 1);
    assert_eq!(painted(&m), vec![(40, 30)]);
    assert_eq!(pixel(&m, 40, 30), 5);

    let mut m = upright();
    image(&mut m, SCRATCH, 3, 2);
    m.memory.w32(STACK, 1);
    m.memory.w32(STACK + 4, 50);
    m.memory.w32(STACK + 8, 60);
    registers(&mut m, &[SCRATCH, 1, 0, 2]);
    assert_eq!(done(&mut m, 30), 1);
    assert_eq!(painted(&m), rectangle(50, 60, 52, 61));
    assert_eq!((pixel(&m, 50, 60), pixel(&m, 51, 60)), (2, 3));
}

#[test]
fn images_are_drawn_on_images() {
    let mut m = upright();
    let (source, target) = (SCRATCH, SCRATCH + 0x100);
    image(&mut m, source, 3, 2);
    image(&mut m, target, 5, 5);
    for (i, value) in [2, 2, 1, 3].iter().enumerate() {
        m.memory.w32(STACK + 4 * i as u32, *value);
    }
    registers(&mut m, &[target, source, 1, 0]);
    assert_eq!(done(&mut m, 24), 1);
    assert_eq!(painted(&m), vec![]);
    let at = |x: u32, y: u32| m.memory.r16(target + 12 + (y * 8 + x) * 2);
    assert_eq!((at(0, 3), at(1, 3), at(2, 3), at(3, 3)), (16, 2, 3, 19));
    assert_eq!((at(1, 4), at(2, 4)), (5, 6));
    assert_eq!(at(1, 2), 12);
}

#[test]
fn transparent_copies_leave_out_colour_zero() {
    for (index, expected) in [(26, 0), (28, 0x1111)] {
        let mut m = upright();
        m.fill_screen_rect(0, 0, 240, 400, 0x1111);
        image(&mut m, SCRATCH, 2, 1);
        m.memory.w16(SCRATCH + 12, 0);
        registers(&mut m, &[SCRATCH, 0]);
        assert_eq!(done(&mut m, index), 1);
        assert_eq!(pixel(&m, 0, 0), expected);
        assert_eq!(pixel(&m, 1, 0), 2);
    }
    for index in [25, 31, 32] {
        let mut m = upright();
        m.fill_screen_rect(0, 0, 240, 400, 0x1111);
        image(&mut m, SCRATCH, 2, 1);
        m.memory.w16(SCRATCH + 12, 0);
        match index {
            25 => {
                for (i, value) in [2, 1, 0, 0].iter().enumerate() {
                    m.memory.w32(STACK + 4 * i as u32, *value);
                }
                registers(&mut m, &[SCREEN_HEADER, SCRATCH, 0, 0]);
            }
            31 => registers(&mut m, &[SCRATCH, 0, 0, 1]),
            _ => {
                m.memory.w32(STACK, 1);
                registers(&mut m, &[SCRATCH, 0, 0, 2]);
            }
        }
        assert_eq!(done(&mut m, index), 1);
        assert_eq!(pixel(&m, 0, 0), 0x1111);
        assert_eq!(pixel(&m, 1, 0), 2);
    }
}

#[test]
fn a_copy_onto_itself_reads_what_it_has_written() {
    let mut m = upright();
    image(&mut m, SCRATCH, 4, 1);
    m.blit_image(SCRATCH, SCRATCH, 0, 0, 3, 1, 1, 0, false);
    for x in 0..4 {
        assert_eq!(m.memory.r16(SCRATCH + 12 + 2 * x), 1);
    }
}

#[test]
fn released_images_draw_nothing() {
    let mut m = upright();
    image(&mut m, SCRATCH, 3, 2);
    registers(&mut m, &[SCRATCH]);
    assert_eq!(done(&mut m, 35), 1);
    assert_eq!(m.memory.r32(SCRATCH), 0);
    m.draw_image_at(SCRATCH, 0, 0, false);
    assert_eq!(painted(&m), vec![]);
    registers(&mut m, &[0]);
    assert_eq!(done(&mut m, 35), 0);
}

#[test]
fn image_sizes_are_reported() {
    let mut m = upright();
    image(&mut m, SCRATCH, 31, 17);
    registers(&mut m, &[SCRATCH]);
    assert_eq!(done(&mut m, 33), 31);
    registers(&mut m, &[SCRATCH]);
    assert_eq!(done(&mut m, 34), 17);
}

#[test]
fn resources_are_handed_out_by_number() {
    let mut m = upright();
    for number in [1, 0x1000] {
        registers(&mut m, &[number, 0x77]);
        match m.handle_lcd_service(22) {
            LcdStep::DecodeImage(request) => {
                assert_eq!(request.resource, vec![4, 5]);
                assert_eq!(request.name, "hero");
                assert_eq!(request.output, 0x77);
            }
            step => panic!("unexpected step {step:?}"),
        }
        assert_eq!(m.register(0), number);
    }
    registers(&mut m, &[2, 0]);
    assert_eq!(done(&mut m, 22), 0);
}

#[test]
fn streams_are_resources_or_heap_blocks() {
    let mut m = upright();
    registers(&mut m, &[0x4000_1000, 5]);
    match m.handle_lcd_service(49) {
        LcdStep::DecodeImage(request) => assert_eq!(request.name, "hero"),
        step => panic!("unexpected step {step:?}"),
    }

    let block = m.allocate(3);
    m.memory.w32(block, 0x0403_0201);
    let request = m.create_image_from_stream(block, 9).unwrap();
    assert_eq!(request.resource, vec![1, 2, 3]);
    assert_eq!(request.name, "guest stream");
    assert_eq!(request.output, 9);

    assert!(m.create_image_from_stream(0, 9).is_none());
    assert!(m.create_image_from_stream(block + 1, 9).is_none());
    registers(&mut m, &[0x4000_2000, 5]);
    assert_eq!(done(&mut m, 49), 0);

    // The pointer is known but the archive has no such resource.
    m.resource_data.push(0x4000_3000);
    assert!(m.create_image_from_stream(0x4000_3000, 9).is_none());
}

#[test]
fn decoded_pixels_become_a_guest_image() {
    let mut m = upright();
    let data = vec![
        0xff, 0, 0, 0xff, 0, 0xff, 0, 0x80, 0, 0, 0xff, 0xff, 0xff, 0xff, 0xff, 0x7f, 8, 4, 8, 255, 0, 0, 0, 255,
    ];
    let decoded = Some(DecodedImage { width: 3, height: 2, data });
    m.resume_lcd_service(&HostReply::Image { output: 0, decoded });
    let header = m.register(0);
    assert_eq!(header, HEAP + 16);
    let pixels = m.memory.r32(header);
    assert_eq!(pixels, HEAP);
    assert_eq!(m.memory.r16(header + 4), 3);
    assert_eq!(m.memory.r16(header + 6), 2);
    assert_eq!(m.memory.r8(header + 8), 1);
    let at = |x: u32, y: u32| m.memory.r16(pixels + (y * 4 + x) * 2);
    assert_eq!((at(0, 0), at(1, 0), at(2, 0)), (0xf800, 0x07e0, 0x001f));
    assert_eq!((at(0, 1), at(1, 1), at(2, 1)), (0, 0x0821, 0));
    assert_eq!(done(&mut m, 33), 3);
    m.draw_image_at(header, 100, 100, false);
    assert_eq!(pixel(&m, 101, 100), 0x07e0);
    assert_eq!(pixel(&m, 101, 101), 0x0821);
}

#[test]
fn images_go_to_the_header_that_is_asked_for() {
    let mut m = upright();
    let decoded = Some(DecodedImage { width: 1, height: 1, data: vec![255; 4] });
    m.resume_lcd_service(&HostReply::Image { output: SCRATCH, decoded });
    assert_eq!(m.register(0), SCRATCH);
    assert_eq!(m.memory.r32(SCRATCH), HEAP);
    assert_eq!(m.memory.r16(HEAP), 0xffff);
}

#[test]
fn images_that_cannot_be_stored_yield_zero() {
    let mut m = upright();
    for (width, height) in [(0, 1), (1, 0), (65536, 1), (1, 65536), (240, 400), (65535, 65535)] {
        let decoded = DecodedImage { width, height, data: vec![] };
        assert!(!m.can_store(&decoded));
        assert_eq!(m.create_image_from_decoded(&decoded, SCRATCH), 0);
    }
    assert!(m.can_store(&DecodedImage { width: 128, height: 256, data: vec![] }));
    assert!(!m.can_store(&DecodedImage { width: 129, height: 256, data: vec![] }));
    assert_eq!(m.memory.r32(SCRATCH), 0);
    m.registers[0] = 5;
    m.resume_lcd_service(&HostReply::Image { output: SCRATCH, decoded: None });
    assert_eq!(m.register(0), 0);
    assert_eq!(m.allocate(4), HEAP);
}

#[test]
fn an_image_without_room_for_its_header_yields_zero() {
    let mut m = upright();
    assert_eq!(m.allocate(HEAP_SIZE - 16), HEAP);
    let decoded = DecodedImage { width: 4, height: 2, data: vec![255; 32] };
    assert_eq!(m.create_image_from_decoded(&decoded, 0), 0);
    assert_eq!(m.memory.r16(HEAP + HEAP_SIZE - 16), 0xffff);
    assert_eq!(m.allocate(4), 0);
}

#[test]
fn packages_are_selected_loaded_and_given_up() {
    let mut m = upright();
    let package = SCRATCH;
    registers(&mut m, &[0, 0, package]);
    match m.handle_lcd_service(47) {
        LcdStep::LoadMainPackage { package: asked, kind } => assert_eq!((asked, kind), (package, 5)),
        step => panic!("unexpected step {step:?}"),
    }
    assert_eq!(m.current_image_package, package);
    assert_eq!(m.memory.r32(SLOT), package);
    m.memory.w16(package + 8, 12);
    m.resume_lcd_service(&HostReply::PackageLoaded { package });
    assert_eq!(m.register(0), 12);

    registers(&mut m, &[0, 0, package]);
    assert_eq!(done(&mut m, 47), 12);
    registers(&mut m, &[1, 0, 0]);
    assert_eq!(done(&mut m, 47), 0);
    assert_eq!(m.current_image_package, package);

    m.app_image_package = 1;
    m.inner_image_package = 2;
    assert_eq!(done(&mut m, 46), 0);
    assert_eq!((m.app_image_package, m.inner_image_package, m.current_image_package), (0, 0, 0));
    assert_eq!(m.memory.r32(SLOT), 0);
}

#[test]
fn the_host_is_asked_for_pages_and_package_images() {
    let mut m = upright();
    assert!(matches!(m.handle_lcd_service(44), LcdStep::InitializeImageDataPage { inner: false }));
    assert!(matches!(m.handle_lcd_service(45), LcdStep::InitializeImageDataPage { inner: true }));
    registers(&mut m, &[7, 8, 9]);
    match m.handle_lcd_service(48) {
        LcdStep::CreateImageFromDataPackage { first, second, third } => {
            assert_eq!((first, second, third), (7, 8, 9));
        }
        step => panic!("unexpected step {step:?}"),
    }
    m.resume_lcd_service(&HostReply::Value(0xabcd));
    assert_eq!(m.register(0), 0xabcd);
}

#[test]
fn the_hit_test_includes_its_edges() {
    let mut m = upright();
    let (first, last) = ((20 << 16) | 10, (40 << 16) | 30);
    for (x, y, inside) in [
        (10, 20, 1),
        (30, 40, 1),
        (10, 40, 1),
        (30, 20, 1),
        (20, 30, 1),
        (9, 30, 0),
        (31, 30, 0),
        (20, 19, 0),
        (20, 41, 0),
    ] {
        registers(&mut m, &[(y << 16) | x, first, last]);
        assert_eq!(done(&mut m, 40), inside);
    }
}

#[test]
fn constant_services_return_their_values() {
    let expected = [
        (0, SCREEN_HEADER),
        (6, 16),
        (23, 0),
        (36, 1),
        (54, 1),
        (55, 1),
        (56, 1),
        (57, 0),
        (62, 16),
        (90, 0),
        (91, 0),
        (92, 0),
        (2, 0),
        (63, 0),
        (u32::MAX, 0),
    ];
    let mut m = upright();
    for (index, value) in expected {
        registers(&mut m, &[0x1234]);
        assert_eq!(done(&mut m, index), value);
    }
    registers(&mut m, &[0]);
    assert_eq!(done(&mut m, 5), 8);
    registers(&mut m, &[1]);
    assert_eq!(done(&mut m, 5), 16);
    assert_eq!(painted(&m), vec![]);
}

/// Writes a stream with the given packed bytes and returns its address.
fn stream(machine: &mut NicaiMachine, packed: &[u8], size: u32) -> u32 {
    let mut bytes = vec![0x5a];
    bytes.extend((packed.len() as u32).to_be_bytes());
    bytes.extend(size.to_be_bytes());
    bytes.extend(packed);
    for (i, byte) in bytes.iter().enumerate() {
        machine.memory.w8(SCRATCH + i as u32, *byte);
    }
    SCRATCH
}

fn unpack(packed: &[u8], size: u32) -> Option<Vec<u8>> {
    let mut m = upright();
    for i in 0..HEAP_SIZE {
        m.memory.w8(HEAP + i, 0xcc);
    }
    let source = stream(&mut m, packed, size);
    registers(&mut m, &[source]);
    m.handle_game_lcd_service(20);
    match m.register(0) {
        0 => None,
        output => {
            assert_eq!(output, HEAP);
            let size = size & 0x7fff_ffff;
            for i in size..HEAP_SIZE {
                assert_eq!(m.memory.r8(HEAP + i), 0xcc);
            }
            Some((0..size).map(|i| m.memory.r8(output + i)).collect())
        }
    }
}

#[test]
fn literal_runs_are_copied() {
    assert_eq!(unpack(&[0x83, 1, 2, 3, 0x81, 4], 4), Some(vec![1, 2, 3, 4]));
    // The highest bit of the size does not count.
    assert_eq!(unpack(&[0x82, 1, 2], 0x8000_0002), Some(vec![1, 2]));
}

#[test]
fn packing_without_repetition_is_undone() {
    let data: Vec<u8> = (0..1000u32).map(|i| (i * 7 % 251) as u8).collect();
    for length in [1, 2, 100, 127] {
        let mut packed = Vec::new();
        for chunk in data.chunks(length) {
            packed.push(0x80 | chunk.len() as u8);
            packed.extend(chunk);
        }
        assert_eq!(unpack(&packed, 1000), Some(data.clone()));
    }
}

#[test]
fn a_stream_can_be_unpacked_over_itself_if_it_is_read_in_time() {
    let mut m = upright();
    let data: Vec<u8> = (1..=50).collect();
    let mut bytes = vec![0, 0, 0, 0, 51, 0, 0, 0, 50, 0x80 + 50];
    bytes.extend(&data);
    for (i, byte) in bytes.iter().enumerate() {
        m.memory.w8(HEAP + i as u32, *byte);
    }
    assert_eq!(m.decode_resource_stream(HEAP), HEAP);
    let output: Vec<u8> = (0..50).map(|i| m.memory.r8(HEAP + i)).collect();
    assert_eq!(output, data);
    assert_eq!(m.memory.r8(HEAP + 50), bytes[50]);
}

#[test]
fn image_requests_and_replies_belong_together() {
    for (index, first) in [(22, 1), (49, 0x4000_1000)] {
        let mut m = upright();
        registers(&mut m, &[first, SCRATCH]);
        let output = match m.handle_lcd_service(index) {
            LcdStep::DecodeImage(request) => request.output,
            step => panic!("unexpected step {step:?}"),
        };
        assert_eq!(output, SCRATCH);
        let decoded = Some(DecodedImage { width: 2, height: 1, data: vec![255; 8] });
        m.resume_lcd_service(&HostReply::Image { output, decoded });
        assert_eq!(m.register(0), SCRATCH);
        assert_eq!(m.memory.r32(SCRATCH), HEAP);
        assert_eq!(m.memory.r32(HEAP), 0xffff_ffff);
    }
}

#[test]
fn bytes_that_are_no_part_of_a_stream_do_not_matter() {
    let packed = [0x83, 1, 2, 3, 6 << 1, 3];
    let mut results = Vec::new();
    for (tag, flag, behind) in [(0, 0, 0), (0xff, 0x8000_0000, 0x85), (7, 0, 0xff)] {
        let mut m = upright();
        let source = stream(&mut m, &packed, 20 | flag);
        m.memory.w8(source, tag);
        for i in 0..8 {
            m.memory.w8(source + 9 + packed.len() as u32 + i, behind);
        }
        let output = m.decode_resource_stream(source);
        results.push((output, (0..20).map(|i| m.memory.r8(output + i)).collect::<Vec<u8>>()));
    }
    assert_eq!(results[0].0, HEAP);
    assert_eq!(results[0].1[..9], [1, 2, 3, 1, 2, 3, 1, 2, 3]);
    assert_eq!(results[0], results[1]);
    assert_eq!(results[0], results[2]);
}

#[test]
fn back_references_repeat_the_output() {
    assert_eq!(unpack(&[0x82, 7, 8, 6 << 1, 2], 8), Some(vec![7, 8, 7, 8, 7, 8, 7, 8]));
    assert_eq!(unpack(&[0x81, 9, 3 << 1, 1], 4), Some(vec![9; 4]));
}

#[test]
fn long_distances_use_the_lowest_bit_of_the_command() {
    let mut packed = Vec::new();
    for run in 0..3u32 {
        packed.push(0x80 + 100);
        packed.extend((0..100).map(|i| (run * 100 + i) as u8));
    }
    packed.extend([(2 << 1) | 1, 44]);
    let data = unpack(&packed, 302).unwrap();
    assert_eq!(data[300], data[0]);
    assert_eq!(data[301], data[1]);
}

#[test]
fn unpacking_stops_at_the_announced_size() {
    assert_eq!(unpack(&[0x84, 1, 2, 3, 4], 2), Some(vec![1, 2]));
    assert_eq!(unpack(&[0x81, 1, 9 << 1, 1], 3), Some(vec![1, 1, 1]));
}

#[test]
fn unpacking_stops_at_an_invalid_command() {
    // Nothing to copy, past the packed bytes, behind the start of the output.
    assert_eq!(unpack(&[0x81, 1, 0x80, 0x81, 2], 3), Some(vec![1, 0xcc, 0xcc]));
    assert_eq!(unpack(&[0x81, 1, 0x82, 2], 3), Some(vec![1, 0xcc, 0xcc]));
    assert_eq!(unpack(&[0x81, 1, 4], 3), Some(vec![1, 0xcc, 0xcc]));
    assert_eq!(unpack(&[0x81, 1, 0, 1, 0x81, 2], 3), Some(vec![1, 0xcc, 0xcc]));
    assert_eq!(unpack(&[0x81, 1, 4, 0], 3), Some(vec![1, 0xcc, 0xcc]));
    assert_eq!(unpack(&[0x81, 1, 4, 2], 3), Some(vec![1, 0xcc, 0xcc]));
}

#[test]
fn streams_without_output_yield_zero() {
    assert_eq!(unpack(&[], 4), None);
    assert_eq!(unpack(&[0x81, 1], 0), None);
    assert_eq!(unpack(&[0x81, 1], 0x8000_0000), None);
    assert_eq!(unpack(&[0x81, 1], HEAP_SIZE + 1), None);
    assert_eq!(unpack(&[0x80], 4), None);
    assert_eq!(unpack(&[0x81, 1], HEAP_SIZE).unwrap().len(), HEAP_SIZE as usize);
    let mut m = upright();
    assert_eq!(m.decode_resource_stream(0), 0);
    assert_eq!(m.allocate(HEAP_SIZE), HEAP);
    let source = stream(&mut m, &[0x81, 1], 1);
    assert_eq!(m.decode_resource_stream(source), 0);
}

#[test]
fn game_services_clear_image_headers() {
    let mut m = upright();
    for i in 0..4 {
        m.memory.w32(SCRATCH + 4 * i, 0x1111_1111);
    }
    registers(&mut m, &[SCRATCH]);
    m.handle_game_lcd_service(11);
    assert_eq!(m.register(0), 0);
    for i in 0..3 {
        assert_eq!(m.memory.r32(SCRATCH + 4 * i), 0);
    }
    assert_eq!(m.memory.r32(SCRATCH + 12), 0x1111_1111);
    registers(&mut m, &[0]);
    m.handle_game_lcd_service(11);
    assert_eq!(m.register(0), 0);
    registers(&mut m, &[3]);
    m.handle_game_lcd_service(12);
    assert_eq!(m.register(0), 0);
}

#[test]
fn the_stack_pointer_is_register_thirteen() {
    let m = upright();
    assert_eq!(m.stack_pointer(), STACK);
    assert_eq!(m.stack_pointer(), m.register(armv4t_emu::reg::SP));
}
