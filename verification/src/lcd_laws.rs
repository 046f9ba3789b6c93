//! What the display services promise as a whole.

use vstd::prelude::*;

use crate::blit::{law_image_without_pixels_draws_nothing, BlitRequest};
use crate::font::{glyphs_of, law_pen_advances};
use crate::heap::{law_allocation_is_fresh, HeapState};
use crate::images::{
    header_mapped, header_written, law_created_image_has_picture_size, DecodedImage, ImageJob,
    HEADER_SIZE,
};
use crate::lcd::{
    converted_units, inside_corners, units_written, HostReply, Outcome, IMAGE_NUMBER_BASE,
    MAIN_PACKAGE_KIND,
};
use crate::lettering::{law_lines_join, TEXT_LIMIT};
use crate::machine::MachineState;
use crate::memory::{
    c_bytes, law_byte_read_back, law_c_string, law_halfword_read_back, law_word_read_back, offset,
    read16, read32, read8, write16, write32,
};
use crate::stream::unpacked_size;
use crate::stream_laws::law_stream_stays_in_its_block;
use crate::surface::signed16;
use crate::text::{all_ascii_bytes, ascii_text, decodes_plainly};

verus! {

/// Text that comes with zero coordinates is drawn at the coordinates of the call that asked for
/// the screen's pixels before, whatever the guest has put into its registers in between.
pub proof fn law_text_follows_kept_origin(state: MachineState, registers: Seq<u32>)
    requires
        state.wf(),
        signed16(registers[2]) == 0,
        signed16(registers[3]) == 0,
    ensures
        ({
            let asked = state.lcd_service(1).0;
            let before = MachineState { registers, ..asked };
            before.lcd_service(10) == (
                before.text_drawn(
                    registers[1],
                    signed16(state.registers[1]),
                    signed16(state.registers[2]),
                    read16(before.memory, before.stack()),
                ).with_result(1),
                Outcome::Done,
            )
        }),
{
}

/// Coordinates that come with the text and are not both zero are used as they are: the kept
/// origin does not matter.
pub proof fn law_explicit_coordinates_win(state: MachineState, origin: (i32, i32))
    requires
        signed16(state.registers[2]) != 0 || signed16(state.registers[3]) != 0,
    ensures
        ({
            let moved = MachineState { text_origin: origin, ..state };
            &&& moved.lcd_service(10).0.memory == state.lcd_service(10).0.memory
            &&& state.lcd_service(10).0 == state.text_drawn(
                state.registers[1],
                signed16(state.registers[2]),
                signed16(state.registers[3]),
                read16(state.memory, state.stack()),
            ).with_result(1)
        }),
{
}

/// Asking for the screen's pixels is the only service that moves the origin of text.
pub proof fn law_origin_is_kept(state: MachineState, index: u32)
    requires
        index != 1,
    ensures
        state.lcd_service(index).0.text_origin == state.text_origin,
{
}

/// Writing halfwords maps and unmaps nothing.
proof fn lemma_units_keep_mapping(m: Map<u32, u8>, destination: u32, units: Seq<u16>)
    ensures
        units_written(m, destination, units).dom() == m.dom(),
    decreases units.len(),
{
    if units.len() > 0 {
        lemma_units_keep_mapping(m, destination, units.drop_last());
        law_halfword_read_back(
            units_written(m, destination, units.drop_last()),
            offset(destination, 2 * (units.len() - 1)),
            units.last(),
            0,
        );
    }
}

/// A copy touches nothing but memory contents.
proof fn lemma_blit_keeps_machine(state: MachineState, request: BlitRequest)
    ensures
        only_contents_differ(state, state.blitted(request)),
{
    if let Some(copy) = state.copy_for(request) {
        copy.lemma_copy_keeps_mapping(state.memory, copy.height);
    }
}

/// The second machine is the first with other contents in the memory that is mapped.
spec fn only_contents_differ(before: MachineState, after: MachineState) -> bool {
    after == before.with_memory(after.memory) && after.memory.dom() == before.memory.dom()
}

/// Text touches nothing but memory contents.
proof fn lemma_text_keeps_machine(
    state: MachineState,
    address: u32,
    x: i32,
    y: i32,
    color: u16,
)
    ensures
        only_contents_differ(state, state.text_drawn(address, x, y, color)),
{
    assert(state.text_drawn(address, x, y, color).memory.dom() =~= state.memory.dom());
}

/// A rectangle touches nothing but memory contents.
proof fn lemma_rect_keeps_machine(state: MachineState, has_destination: bool, outline: bool)
    ensures
        only_contents_differ(state, state.rect_drawn(has_destination, outline)),
        only_contents_differ(state, state.packed_rect_drawn(outline)),
        only_contents_differ(state, state.screen_rect_drawn(outline)),
{
    assert(state.rect_drawn(has_destination, outline).memory.dom() =~= state.memory.dom());
    assert(state.rect_drawn(false, outline).memory.dom() =~= state.memory.dom());
    assert(state.packed_rect_drawn(outline).memory.dom() =~= state.memory.dom());
}

/// A filled rectangle touches nothing but memory contents.
proof fn lemma_filled_rect_keeps_machine(state: MachineState)
    ensures
        only_contents_differ(state, state.filled_rect_drawn()),
{
    lemma_rect_keeps_machine(state, true, false);
    if state.has_plain_rect() {
        assert(state.filled_rect_drawn().memory.dom() =~= state.memory.dom());
    }
}

/// A service that draws text or rectangles touches nothing but memory contents.
proof fn lemma_painting_keeps_machine(state: MachineState, index: u32)
    requires
        9 <= index <= 13 || 16 <= index <= 19,
    ensures
        only_contents_differ(state, state.drawing_service(index)),
{
    let stack = state.stack();
    if index == 9 {
        lemma_text_keeps_machine(
            state,
            state.registers[0],
            signed16(state.registers[1]),
            signed16(state.registers[2]),
            (state.registers[3] % 65536) as u16,
        );
    } else if index == 10 {
        let (x, y) = state.text_position(
            signed16(state.registers[2]),
            signed16(state.registers[3]),
        );
        lemma_text_keeps_machine(state, state.registers[1], x, y, read16(state.memory, stack));
    } else if index <= 13 {
        lemma_text_keeps_machine(
            state,
            state.registers[0],
            signed16(state.registers[1]),
            signed16(state.registers[2]),
            (read32(state.memory, offset(stack, 4)) % 65536) as u16,
        );
        lemma_text_keeps_machine(
            state,
            state.registers[1],
            signed16(state.registers[2]),
            signed16(state.registers[3]),
            read16(state.memory, offset(stack, 16)),
        );
    } else if index == 19 {
        lemma_filled_rect_keeps_machine(state);
    } else {
        lemma_rect_keeps_machine(state, true, index != 18);
    }
}

/// A service that draws touches nothing but memory contents.
proof fn lemma_drawing_keeps_machine(state: MachineState, index: u32)
    requires
        MachineState::draws(index),
    ensures
        only_contents_differ(state, state.drawing_service(index)),
{
    if index < 24 {
        lemma_painting_keeps_machine(state, index);
    } else if index <= 25 {
        lemma_blit_keeps_machine(state, state.clip_request(index == 25));
    } else if index == 26 || index == 28 {
        lemma_blit_keeps_machine(
            state,
            state.whole_image_request(
                state.registers[0],
                signed16(state.registers[1]),
                signed16(state.registers[1] / 65536),
                index == 28,
            ),
        );
    } else if index == 27 {
        lemma_blit_keeps_machine(
            state,
            state.whole_image_request(
                state.registers[0],
                signed16(state.registers[1]),
                signed16(state.registers[2]),
                false,
            ),
        );
    } else if index == 29 || index == 31 {
        lemma_blit_keeps_machine(state, state.packed_request(index == 31));
    } else {
        lemma_blit_keeps_machine(state, state.full_clip_request(index == 32));
    }
}

/// A display service touches nothing but memory contents, the first register, the origin of text
/// and the image packages. In particular the heap, the resources and what is mapped stay.
#[verifier::rlimit(30)]
pub proof fn law_service_keeps_machine(state: MachineState, index: u32)
    requires
        state.wf(),
    ensures
        ({
            let after = state.lcd_service(index).0;
            &&& after.wf()
            &&& after.memory.dom() == state.memory.dom()
            &&& forall|i: int| 1 <= i < 16 ==> #[trigger] after.registers[i] == state.registers[i]
            &&& after == (MachineState {
                memory: after.memory,
                registers: after.registers,
                text_origin: after.text_origin,
                app_image_package: after.app_image_package,
                inner_image_package: after.inner_image_package,
                current_image_package: after.current_image_package,
                ..state
            })
        }),
{
    let m = state.memory;
    if MachineState::draws(index) {
        lemma_drawing_keeps_machine(state, index);
    } else if index == 35 {
        law_word_read_back(m, state.registers[0], 0, 0);
    } else if index == 38 {
        let destination = state.registers[1];
        let units = converted_units(m, state.registers[0], state.registers[2]);
        lemma_units_keep_mapping(m, destination, units);
        law_halfword_read_back(
            units_written(m, destination, units),
            offset(destination, 2 * units.len() as int),
            0,
            0,
        );
    } else if index == 46 {
        law_word_read_back(m, state.layout.package_slot, 0, 0);
    } else if index == 47 {
        law_word_read_back(m, state.layout.package_slot, state.registers[2], 0);
    }
}

/// Service numbers beyond the last one return zero and change nothing else.
pub proof fn law_unknown_service_returns_zero(state: MachineState, index: u32)
    requires
        index > 62,
    ensures
        state.lcd_service(index) == (state.with_result(0), Outcome::Done),
{
}

/// An image that was made of a decoded picture reports the picture's size.
pub proof fn law_created_image_reports_its_size(
    state: MachineState,
    decoded: DecodedImage,
    output: u32,
)
    requires
        state.wf(),
        state.stores_pixels(decoded@),
        header_mapped(state.memory, state.image_header(decoded@, output)),
    ensures
        ({
            let after = state.resumed(HostReply::Image { output, decoded: Some(decoded) });
            &&& after.registers[0] == state.image_header(decoded@, output)
            &&& after.lcd_service(33).0.registers[0] == decoded.width
            &&& after.lcd_service(34).0.registers[0] == decoded.height
        }),
{
    law_created_image_has_picture_size(state, decoded@, output);
}

/// An image that was released draws nothing from then on.
pub proof fn law_released_image_draws_nothing(state: MachineState, request: BlitRequest)
    requires
        state.wf(),
        request.source != 0,
        request.source == state.registers[0],
        state.memory.dom().contains(request.source),
        state.memory.dom().contains(request.source.wrapping_add(1)),
        state.memory.dom().contains(request.source.wrapping_add(2)),
        state.memory.dom().contains(request.source.wrapping_add(3)),
    ensures
        ({
            let released = state.lcd_service(35).0;
            released.registers[0] == 1 && released.blitted(request) == released
        }),
{
    law_word_read_back(state.memory, request.source, 0, 0);
    law_image_without_pixels_draws_nothing(state.lcd_service(35).0, request);
}

/// The slot of the current package holds what was selected last, or zero once the packages are
/// given up.
pub proof fn law_package_slot_follows_selection(state: MachineState)
    requires
        state.wf(),
        state.memory.dom().contains(state.layout.package_slot),
        state.memory.dom().contains(state.layout.package_slot.wrapping_add(1)),
        state.memory.dom().contains(state.layout.package_slot.wrapping_add(2)),
        state.memory.dom().contains(state.layout.package_slot.wrapping_add(3)),
    ensures
        ({
            let given_up = state.lcd_service(46).0;
            given_up.current_image_package == 0 && read32(
                given_up.memory,
                state.layout.package_slot,
            ) == 0
        }),
        state.registers[2] != 0 ==> ({
            let selected = state.lcd_service(47).0;
            selected.current_image_package == state.registers[2] && read32(
                selected.memory,
                state.layout.package_slot,
            ) == state.registers[2]
        }),
{
    law_word_read_back(state.memory, state.layout.package_slot, 0, 0);
    law_word_read_back(state.memory, state.layout.package_slot, state.registers[2], 0);
}

/// The hit test counts all four corners of its rectangle as inside.
pub proof fn law_hit_test_includes_corners(first: u32, last: u32)
    requires
        first % 65536 <= last % 65536,
        first / 65536 <= last / 65536,
    ensures
        inside_corners(first, first, last),
        inside_corners(last, first, last),
        inside_corners((first / 65536 * 65536 + last % 65536) as u32, first, last),
        inside_corners((last / 65536 * 65536 + first % 65536) as u32, first, last),
{
}

/// Halfwords with different numbers share no byte.
proof fn lemma_unit_places(destination: u32, i: int, n: int)
    requires
        0 <= i <= n < 0x8000_0000,
    ensures
        ({
            let at = offset(destination, 2 * i);
            let last = offset(destination, 2 * n);
            &&& at.wrapping_add(1) == offset(destination, 2 * i + 1)
            &&& last.wrapping_add(1) == offset(destination, 2 * n + 1)
            &&& i < n ==> at != last && at != last.wrapping_add(1) && at.wrapping_add(1) != last
                && at.wrapping_add(1) != last.wrapping_add(1)
        }),
{
}

/// Writing one halfword keeps every other.
proof fn lemma_other_unit_stays(m: Map<u32, u8>, destination: u32, v: u16, i: int, n: int)
    requires
        0 <= i < n < 0x8000_0000,
    ensures
        read16(write16(m, offset(destination, 2 * n), v), offset(destination, 2 * i)) == read16(
            m,
            offset(destination, 2 * i),
        ),
{
    let at = offset(destination, 2 * i);
    let last = offset(destination, 2 * n);
    lemma_unit_places(destination, i, n);
    law_halfword_read_back(m, last, v, at);
    law_halfword_read_back(m, last, v, at.wrapping_add(1));
}

/// Halfwords that were written to mapped memory read back.
proof fn lemma_unit_reads_back(m: Map<u32, u8>, destination: u32, units: Seq<u16>, i: int)
    requires
        0 <= i < units.len(),
        units.len() <= 0x8000_0000,
        forall|k: int|
            0 <= k < 2 * units.len() ==> m.dom().contains(#[trigger] offset(destination, k)),
    ensures
        read16(units_written(m, destination, units), offset(destination, 2 * i)) == units[i],
    decreases units.len(),
{
    let shorter = units.drop_last();
    let n = shorter.len() as int;
    let before = units_written(m, destination, shorter);
    if i < n {
        lemma_unit_reads_back(m, destination, shorter, i);
        lemma_other_unit_stays(before, destination, units.last(), i, n);
    } else {
        lemma_units_keep_mapping(m, destination, shorter);
        lemma_unit_places(destination, n, n);
        assert(m.dom().contains(offset(destination, 2 * n)));
        assert(m.dom().contains(offset(destination, 2 * n + 1)));
        law_halfword_read_back(before, offset(destination, 2 * n), units.last(), 0);
    }
}

/// Where a string is turned into UTF-16 in memory that is mapped as far as it is written, it holds
/// the units and a zero behind them, no more than there is room for, and the result counts the
/// units.
pub proof fn law_converted_text_reads_back(
    state: MachineState,
    source: u32,
    destination: u32,
    capacity: u32,
)
    requires
        state.wf(),
        source != 0,
        destination != 0,
        0 < capacity,
        converted_units(state.memory, source, capacity).len() < 0x8000_0000,
        forall|k: int|
            0 <= k < 2 * (converted_units(state.memory, source, capacity).len() + 1)
                ==> state.memory.dom().contains(#[trigger] offset(destination, k)),
    ensures
        ({
            let units = converted_units(state.memory, source, capacity);
            let after = state.text_converted(source, destination, capacity);
            &&& units.len() < capacity
            &&& after.registers[0] == units.len()
            &&& forall|i: int|
                0 <= i < units.len() ==> read16(after.memory, offset(destination, 2 * i))
                    == #[trigger] units[i]
            &&& read16(after.memory, offset(destination, 2 * units.len() as int)) == 0
        }),
{
    let units = converted_units(state.memory, source, capacity);
    let closed = units.push(0);
    assert(closed.drop_last() =~= units);
    assert forall|i: int| 0 <= i < units.len() implies read16(
        units_written(state.memory, destination, closed),
        offset(destination, 2 * i),
    ) == #[trigger] units[i] by {
        lemma_unit_reads_back(state.memory, destination, closed, i);
    }
    lemma_unit_reads_back(state.memory, destination, closed, units.len() as int);
}

/// Writing halfwords keeps every byte outside the buffer that has room for them.
proof fn lemma_units_stay(m: Map<u32, u8>, destination: u32, units: Seq<u16>, room: int, a: u32)
    requires
        units.len() <= room <= 0x8000_0000,
        a.wrapping_sub(destination) >= 2 * room,
    ensures
        read8(units_written(m, destination, units), a) == read8(m, a),
    decreases units.len(),
{
    if units.len() > 0 {
        let shorter = units.drop_last();
        let n = shorter.len() as int;
        lemma_units_stay(m, destination, shorter, room, a);
        lemma_unit_places(destination, n, n);
        assert(a != offset(destination, 2 * n));
        assert(a != offset(destination, 2 * n + 1));
        law_halfword_read_back(
            units_written(m, destination, shorter),
            offset(destination, 2 * n),
            units.last(),
            a,
        );
    }
}

/// Turning a string into UTF-16 changes no byte but those of the units and of the zero behind
/// them, which all lie in the buffer whose size the guest gives. Without a string, a buffer or room
/// in it, no byte changes at all.
pub proof fn law_conversion_stays_in_buffer(
    state: MachineState,
    source: u32,
    destination: u32,
    capacity: u32,
    a: u32,
)
    requires
        source != 0 && destination != 0 && capacity != 0 ==> a.wrapping_sub(destination) >= 2 * (
        converted_units(state.memory, source, capacity).len() + 1),
    ensures
        read8(state.text_converted(source, destination, capacity).memory, a) == read8(
            state.memory,
            a,
        ),
        capacity != 0 ==> converted_units(state.memory, source, capacity).len() + 1 <= capacity,
{
    if source != 0 && destination != 0 && capacity != 0 {
        let units = converted_units(state.memory, source, capacity);
        let closed = units.push(0);
        assert(closed.drop_last() =~= units);
        lemma_units_stay(state.memory, destination, closed, closed.len() as int, a);
    }
}

/// Text advances by its measured width: drawing an ASCII string, and then another as far right of
/// it as the first is wide by the service that measures text, leaves the memory that drawing both
/// as one string leaves. The second string must survive the drawing of the first. That the strings
/// decode plainly is what drawing and measuring them shows.
pub proof fn law_text_advances_by_its_width(
    state: MachineState,
    first: u32,
    second: u32,
    joined: u32,
    x: i32,
    y: i32,
    color: u16,
)
    requires
        state.wf(),
        ({
            let width = (MachineState {
                registers: state.registers.update(0, first),
                ..state
            }).query_service(7);
            &&& x + width <= i32::MAX
            &&& c_bytes(state.memory, joined, TEXT_LIMIT as nat) == c_bytes(
                state.memory,
                first,
                TEXT_LIMIT as nat,
            ) + c_bytes(state.memory, second, TEXT_LIMIT as nat)
            &&& c_bytes(
                state.text_drawn(first, x, y, color).memory,
                second,
                TEXT_LIMIT as nat,
            ) == c_bytes(state.memory, second, TEXT_LIMIT as nat)
            &&& all_ascii_bytes(c_bytes(state.memory, joined, TEXT_LIMIT as nat))
        }),
    ensures
        ({
            let width = (MachineState {
                registers: state.registers.update(0, first),
                ..state
            }).query_service(7);
            decodes_plainly(c_bytes(state.memory, first, TEXT_LIMIT as nat)) && decodes_plainly(
                c_bytes(state.memory, second, TEXT_LIMIT as nat),
            ) && decodes_plainly(c_bytes(state.memory, joined, TEXT_LIMIT as nat))
                ==> state.text_drawn(first, x, y, color).text_drawn(
                second,
                (x + width) as i32,
                y,
                color,
            ) == state.text_drawn(joined, x, y, color)
        }),
{
    let one = c_bytes(state.memory, first, TEXT_LIMIT as nat);
    let two = c_bytes(state.memory, second, TEXT_LIMIT as nat);
    let both = c_bytes(state.memory, joined, TEXT_LIMIT as nat);
    assert forall|i: int| 0 <= i < one.len() implies #[trigger] one[i] < 0x80 by {
        assert(both[i] == one[i]);
    }
    assert forall|i: int| 0 <= i < two.len() implies #[trigger] two[i] < 0x80 by {
        assert(both[one.len() + i] == two[i]);
    }
    if decodes_plainly(one) && decodes_plainly(two) && decodes_plainly(both) {
        let glyphs = glyphs_of(ascii_text(one));
        let more = glyphs_of(ascii_text(two));
        assert(glyphs_of(ascii_text(both)) =~= glyphs + more);
        law_pen_advances(glyphs, 0, glyphs.len() as int);
        law_c_string(state.memory, first, TEXT_LIMIT as nat);
        law_lines_join(state, glyphs, more, x as int, y as int, color);
    }
}

/// An image number and the one that lies the base of image numbers above it name the same
/// resource.
pub proof fn law_image_numbers_repeat(state: MachineState, number: u32)
    requires
        state.wf(),
        number < IMAGE_NUMBER_BASE,
    ensures
        ({
            let low = MachineState { registers: state.registers.update(0, number), ..state };
            let high = MachineState {
                registers: state.registers.update(0, (number + IMAGE_NUMBER_BASE) as u32),
                ..state
            };
            &&& low.lcd_service(22).1 == high.lcd_service(22).1
            &&& low.lcd_service(22).1 is DecodeImage <==> number < state.resources.len()
        }),
{
    let low = MachineState { registers: state.registers.update(0, number), ..state };
    let high = MachineState {
        registers: state.registers.update(0, (number + IMAGE_NUMBER_BASE) as u32),
        ..state
    };
    let output = state.registers[1];
    assert(low.resource_job(number as int, output) == state.resource_job(number as int, output));
    assert(high.resource_job(number as int, output) == state.resource_job(number as int, output));
    assert(low.lcd_service(22) == low.image_requested(low.resource_job(number as int, output)));
    assert(high.lcd_service(22) == high.image_requested(high.resource_job(number as int, output)));
}

/// Finishing a service with the host's reply touches nothing but memory contents, the first
/// register and the heap, from which blocks are only ever taken. What is mapped stays mapped.
pub proof fn law_resuming_keeps_machine(state: MachineState, reply: HostReply)
    requires
        state.wf(),
    ensures
        ({
            let after = state.resumed(reply);
            &&& after.wf()
            &&& after.memory.dom() == state.memory.dom()
            &&& state.heap.blocks.is_prefix_of(after.heap.blocks)
            &&& forall|i: int| 1 <= i < 16 ==> #[trigger] after.registers[i] == state.registers[i]
            &&& after == (MachineState {
                memory: after.memory,
                registers: after.registers,
                heap: after.heap,
                ..state
            })
        }),
{
    if let HostReply::Image { output, decoded: Some(image) } = reply {
        if state.stores_pixels(image@) {
            let stored = state.pixels_stored(image@);
            assert(stored.memory.dom() =~= state.memory.dom());
            lemma_header_keeps_mapping(
                stored.memory,
                state.image_header(image@, output),
                state.heap.next_block(image@.pixel_bytes()),
                image@.width as u16,
                image@.height as u16,
            );
            lemma_request_keeps_heap(state.heap, image@.pixel_bytes());
            lemma_request_keeps_heap(stored.heap, HEADER_SIZE);
        }
    }
}

/// Writing a header maps and unmaps nothing.
proof fn lemma_header_keeps_mapping(
    m: Map<u32, u8>,
    image: u32,
    pixels: u32,
    width: u16,
    height: u16,
)
    ensures
        header_written(m, image, pixels, width, height).dom() == m.dom(),
{
    let m1 = write32(m, image, pixels);
    let m2 = write16(m1, offset(image, 4), width);
    let m3 = write16(m2, offset(image, 6), height);
    law_word_read_back(m, image, pixels, 0);
    law_halfword_read_back(m1, offset(image, 4), width, 0);
    law_halfword_read_back(m2, offset(image, 6), height, 0);
    law_byte_read_back(m3, offset(image, 8), 1, 0);
}

/// A request leaves a heap in order, with the blocks that it had.
proof fn lemma_request_keeps_heap(heap: HeapState, size: u32)
    requires
        heap.wf(),
    ensures
        heap.after_request(size).wf(),
        heap.blocks.is_prefix_of(heap.after_request(size).blocks),
{
    if heap.has_room(size) {
        law_allocation_is_fresh(heap, size);
        assert(heap.after_request(size).blocks.subrange(0, heap.blocks.len() as int)
            =~= heap.blocks);
    }
}

/// A display service for games touches nothing but memory contents, the first register and the
/// heap, from which blocks are only ever taken. What is mapped stays mapped.
pub proof fn law_game_service_keeps_machine(state: MachineState, index: u32)
    requires
        state.wf(),
    ensures
        ({
            let after = state.game_lcd_service(index);
            &&& after.wf()
            &&& after.memory.dom() == state.memory.dom()
            &&& state.heap.blocks.is_prefix_of(after.heap.blocks)
            &&& forall|i: int| 1 <= i < 16 ==> #[trigger] after.registers[i] == state.registers[i]
            &&& after == (MachineState {
                memory: after.memory,
                registers: after.registers,
                heap: after.heap,
                ..state
            })
        }),
{
    let image = state.registers[0];
    if index == 11 {
        let m1 = write32(state.memory, image, 0);
        let m2 = write32(m1, offset(image, 4), 0);
        law_word_read_back(state.memory, image, 0, 0);
        law_word_read_back(m1, offset(image, 4), 0, 0);
        law_word_read_back(m2, offset(image, 8), 0, 0);
    } else if index == 20 && state.unpacks(image) {
        law_stream_stays_in_its_block(state, image);
        lemma_request_keeps_heap(state.heap, unpacked_size(state.memory, image) as u32);
    }
}

/// A request for an image and its reply belong together: the request names the header that the
/// guest gave and changes nothing, and resuming with that header makes the image there and
/// returns it, or returns zero where nothing could be decoded.
pub proof fn law_image_request_is_answered(
    state: MachineState,
    index: u32,
    job: ImageJob,
    decoded: DecodedImage,
)
    requires
        state.wf(),
        index == 22 || index == 49,
        state.lcd_service(index).1 == Outcome::DecodeImage(job),
    ensures
        ({
            let waiting = state.lcd_service(index).0;
            let output = state.registers[1];
            &&& job.output == output
            &&& waiting == state
            &&& waiting.resumed(HostReply::Image { output: job.output, decoded: Some(decoded) })
                == state.image_created(decoded@, output).with_result(
                state.image_header(decoded@, output),
            )
            &&& waiting.resumed(HostReply::Image { output: job.output, decoded: None })
                == state.with_result(0)
        }),
{
    if index == 22 {
        let number = state.registers[0];
        let local = if number >= IMAGE_NUMBER_BASE {
            number - IMAGE_NUMBER_BASE
        } else {
            number as int
        };
        assert(state.lcd_service(22) == state.image_requested(
            state.resource_job(local, state.registers[1]),
        ));
    } else {
        assert(state.lcd_service(49) == state.image_requested(
            state.stream_job(state.registers[0], state.registers[1]),
        ));
    }
}

/// Switching to a package returns the number of its entries, whether they are there already or
/// have to be loaded. Where they have to be, the request names the package that the guest gave, and
/// resuming returns the number that the package has once the host has loaded it, whatever the
/// machine looks like then.
pub proof fn law_package_request_is_answered(state: MachineState, loaded: MachineState)
    requires
        state.wf(),
        state.registers[2] != 0,
    ensures
        ({
            let package = state.registers[2];
            let selected = state.package_selected(package);
            let (after, outcome) = state.lcd_service(47);
            if selected.package_count(package) == 0 {
                &&& after == selected
                &&& outcome == (Outcome::LoadMainPackage { package, kind: MAIN_PACKAGE_KIND })
                &&& loaded.resumed(HostReply::PackageLoaded { package }) == loaded.with_result(
                    loaded.package_count(package),
                )
            } else {
                &&& after == selected.with_result(selected.package_count(package))
                &&& outcome == Outcome::Done
            }
        }),
{
    assert(state.lcd_service(47) == state.package_switched(state.registers[2]));
}

/// The services that leave all of their work to the host hand over the guest's arguments, change
/// nothing before, and return the host's value.
pub proof fn law_host_value_is_returned(state: MachineState, worked: MachineState, value: u32)
    requires
        worked.wf(),
    ensures
        state.lcd_service(44) == (state, Outcome::InitializeImageDataPage { inner: false }),
        state.lcd_service(45) == (state, Outcome::InitializeImageDataPage { inner: true }),
        state.lcd_service(48) == (
            state,
            Outcome::CreateImageFromDataPackage {
                first: state.registers[0],
                second: state.registers[1],
                third: state.registers[2],
            },
        ),
        worked.resumed(HostReply::Value(value)) == worked.with_result(value),
        worked.resumed(HostReply::Value(value)).registers[0] == value,
{
}

} // verus!
