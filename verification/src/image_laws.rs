//! What asking for an image does, from the request to the pixels that the guest finds.

use vstd::prelude::*;

use crate::heap::{
    law_allocation_is_fresh, law_block_size_is_unique, law_no_block_no_size,
    law_request_takes_next_words, Block,
};
use crate::images::{
    first_place, header_mapped, law_created_image_has_picture_colours, law_header_reads_back,
    law_header_stays_in_place, DecodedImage, ImageJob, Picture,
};
use crate::lcd::{HostReply, Outcome};
use crate::machine::MachineState;
use crate::memory::{
    bytes_from, law_bytes_from_lie_in_a_row, offset, read16, read32, read8, span_holds,
};
use crate::surface::{
    law_colour_splits_into_channels, law_painting_keeps_padding, law_painting_stays_inside,
    pitch_of, pixel_address,
};

verus! {

/// The pixels of an image take two bytes each, in rows that start at multiples of four pixels. A
/// request that is too large to be told asks for as much as can be.
pub proof fn law_pixel_bytes_or_as_many_as_can_be_asked(picture: Picture, pitch: int)
    requires
        1 <= picture.width <= 65535,
        1 <= picture.height <= 65535,
        pitch % 4 == 0,
        picture.width <= pitch < picture.width + 4,
    ensures
        pitch_of(picture.width as int) == pitch,
        pitch * picture.height * 2 % 4 == 0,
        0 < pitch * picture.height * 2,
        pitch * picture.height * 2 <= u32::MAX ==> picture.pixel_bytes() == pitch * picture.height
            * 2,
        pitch * picture.height * 2 > u32::MAX ==> picture.pixel_bytes() == u32::MAX,
{
    let quarter = pitch / 4;
    assert(pitch == quarter * 4);
    assert(pitch * picture.height * 2 == quarter * picture.height * 2 * 4) by (nonlinear_arith)
        requires
            pitch == quarter * 4,
    ;
    assert((quarter * picture.height * 2 * 4) % 4 == 0);
    assert(0 < pitch * picture.height) by (nonlinear_arith)
        requires
            0 < pitch,
            0 < picture.height,
    ;
}

/// The room that a heap has for a picture's pixels, told from the picture's sides.
proof fn lemma_room_for_pixels(state: MachineState, picture: Picture, pitch: int)
    requires
        state.wf(),
        1 <= picture.width <= 65535,
        1 <= picture.height <= 65535,
        pitch % 4 == 0,
        picture.width <= pitch < picture.width + 4,
    ensures
        state.stores_pixels(picture) <==> state.heap.used + pitch * picture.height * 2
            <= state.heap.size,
        state.stores_pixels(picture) ==> {
            &&& state.heap.next_block(picture.pixel_bytes()) == state.heap.base + state.heap.used
            &&& picture.pixel_bytes() == pitch * picture.height * 2
            &&& state.pixels_stored(picture).heap.used == state.heap.used + pitch * picture.height
                * 2
            &&& state.pixels_stored(picture).heap.wf()
            &&& state.pixels_stored(picture).heap.blocks == state.heap.blocks.push(
                (Block {
                    address: (state.heap.base + state.heap.used) as u32,
                    size: (pitch * picture.height * 2) as u32,
                }),
            )
        },
{
    law_pixel_bytes_or_as_many_as_can_be_asked(picture, pitch);
    let bytes = pitch * picture.height * 2;
    if bytes <= u32::MAX {
        law_request_takes_next_words(state.heap, bytes as u32, bytes);
        if state.stores_pixels(picture) {
            law_allocation_is_fresh(state.heap, bytes as u32);
        }
    } else {
        law_request_takes_next_words(state.heap, u32::MAX, 0x1_0000_0000);
    }
}

/// An image that could be decoded is made into a guest image exactly if its sides are between one
/// and 65535 and the heap has room for its pixels, two bytes each, in rows that start at multiples
/// of four pixels. The pixels take the next block of the heap. The header is the one that was asked
/// for, or else a block of twelve bytes of its own; its address is the result.
pub proof fn law_decoded_image_is_stored(
    state: MachineState,
    decoded: DecodedImage,
    output: u32,
    pitch: int,
)
    requires
        state.wf(),
        pitch % 4 == 0,
        decoded.width <= pitch < decoded.width + 4,
    ensures
        ({
            let after = state.resumed(HostReply::Image { output, decoded: Some(decoded) });
            let bytes = pitch * decoded.height * 2;
            let used = state.heap.used + bytes;
            let pixels = Block {
                address: (state.heap.base + state.heap.used) as u32,
                size: bytes as u32,
            };
            let header = Block { address: (state.heap.base + used) as u32, size: 12 };
            if 1 <= decoded.width <= 65535 && 1 <= decoded.height <= 65535 && used
                <= state.heap.size {
                if output != 0 {
                    &&& after.registers[0] == output
                    &&& after.heap.used == used
                    &&& after.heap.blocks == state.heap.blocks.push(pixels)
                } else if used + 12 <= state.heap.size {
                    &&& after.registers[0] == header.address
                    &&& after.heap.used == used + 12
                    &&& after.heap.blocks == state.heap.blocks.push(pixels).push(header)
                } else {
                    &&& after.registers[0] == 0
                    &&& after.heap.used == used
                    &&& after.heap.blocks == state.heap.blocks.push(pixels)
                }
            } else {
                after == (MachineState { registers: state.registers.update(0, 0), ..state })
            }
        }),
        state.resumed(HostReply::Image { output, decoded: None }) == (MachineState {
            registers: state.registers.update(0, 0),
            ..state
        }),
{
    let picture = decoded@;
    if 1 <= decoded.width <= 65535 && 1 <= decoded.height <= 65535 {
        lemma_room_for_pixels(state, picture, pitch);
        if state.stores_pixels(picture) {
            law_request_takes_next_words(state.pixels_stored(picture).heap, 12, 12);
        }
    } else {
        assert(!state.stores_pixels(picture));
    }
}

/// The header of a guest image that was stored holds the address of its pixels, its width and its
/// height, and a one, where it is mapped.
pub proof fn law_stored_image_has_header(
    state: MachineState,
    decoded: DecodedImage,
    output: u32,
    pitch: int,
)
    requires
        state.wf(),
        pitch % 4 == 0,
        decoded.width <= pitch < decoded.width + 4,
        1 <= decoded.width <= 65535,
        1 <= decoded.height <= 65535,
        state.heap.used + pitch * decoded.height * 2 <= state.heap.size,
        ({
            let after = state.resumed(HostReply::Image { output, decoded: Some(decoded) });
            forall|k: int|
                0 <= k < 9 ==> state.memory.dom().contains(
                    #[trigger] offset(after.registers[0], k),
                )
        }),
    ensures
        ({
            let after = state.resumed(HostReply::Image { output, decoded: Some(decoded) });
            let image = after.registers[0];
            &&& read32(after.memory, image) == state.heap.base + state.heap.used
            &&& read16(after.memory, offset(image, 4)) == decoded.width
            &&& read16(after.memory, offset(image, 6)) == decoded.height
            &&& read8(after.memory, offset(image, 8)) == 1
        }),
{
    let picture = decoded@;
    lemma_room_for_pixels(state, picture, pitch);
    let image = state.image_header(picture, output);
    let after = state.resumed(HostReply::Image { output, decoded: Some(decoded) });
    assert(after.registers[0] == image);
    let stored = state.pixels_stored(picture);
    assert(stored.memory.dom() =~= state.memory.dom());
    assert(header_mapped(state.memory, image));
    law_header_reads_back(
        stored.memory,
        image,
        state.heap.next_block(picture.pixel_bytes()),
        decoded.width as u16,
        decoded.height as u16,
    );
}

/// A pixel of a guest image that was stored has the channels of its picture's pixel: five bits of
/// red, six of green, five of blue; and nothing where that is more than half transparent. It must
/// be mapped, and not lie in the header.
pub proof fn law_stored_pixel_has_channels(
    state: MachineState,
    decoded: DecodedImage,
    output: u32,
    pitch: int,
    x: int,
    y: int,
)
    requires
        state.wf(),
        pitch % 4 == 0,
        decoded.width <= pitch < decoded.width + 4,
        decoded.width <= 65535,
        decoded.height <= 65535,
        0 <= x < decoded.width,
        0 <= y < decoded.height,
        state.heap.used + pitch * decoded.height * 2 <= state.heap.size,
        ({
            let after = state.resumed(HostReply::Image { output, decoded: Some(decoded) });
            let pixels = (state.heap.base + state.heap.used) as u32;
            let address = pixel_address(pixels, pitch, x, y);
            &&& state.memory.dom().contains(address)
            &&& state.memory.dom().contains(address.wrapping_add(1))
            &&& address.wrapping_sub(after.registers[0]) >= 9
            &&& address.wrapping_add(1).wrapping_sub(after.registers[0]) >= 9
        }),
    ensures
        ({
            let after = state.resumed(HostReply::Image { output, decoded: Some(decoded) });
            let pixels = (state.heap.base + state.heap.used) as u32;
            let color = read16(after.memory, pixel_address(pixels, pitch, x, y));
            let at = 4 * (y * decoded.width + x);
            if decoded.data@[at + 3] >= 128 {
                &&& color / 2048 == decoded.data@[at] / 8
                &&& color / 32 % 64 == decoded.data@[at + 1] / 4
                &&& color % 32 == decoded.data@[at + 2] / 8
            } else {
                color == 0
            }
        }),
{
    let picture = decoded@;
    law_pixel_bytes_or_as_many_as_can_be_asked(picture, pitch);
    lemma_room_for_pixels(state, picture, pitch);
    law_created_image_has_picture_colours(state, picture, output, x, y);
    let at = 4 * (y * decoded.width + x);
    law_colour_splits_into_channels(
        decoded.data@[at],
        decoded.data@[at + 1],
        decoded.data@[at + 2],
        decoded.data@[at + 3],
    );
}

/// Storing a guest image changes no byte but those of its pixels and of its header, not even in
/// the padding of its rows.
pub proof fn law_stored_image_stays_in_place(
    state: MachineState,
    decoded: DecodedImage,
    output: u32,
    pitch: int,
    a: u32,
)
    requires
        state.wf(),
        pitch % 4 == 0,
        decoded.width <= pitch < decoded.width + 4,
        1 <= decoded.width <= 65535,
        1 <= decoded.height <= 65535,
        state.heap.used + pitch * decoded.height * 2 <= state.heap.size,
        ({
            let after = state.resumed(HostReply::Image { output, decoded: Some(decoded) });
            let pixels = (state.heap.base + state.heap.used) as u32;
            let place = a.wrapping_sub(pixels) as int;
            &&& place >= pitch * decoded.height * 2 || place / 2 % pitch >= decoded.width
            &&& a.wrapping_sub(after.registers[0]) >= 9
        }),
    ensures
        read8(
            state.resumed(HostReply::Image { output, decoded: Some(decoded) }).memory,
            a,
        ) == read8(state.memory, a),
{
    let picture = decoded@;
    law_pixel_bytes_or_as_many_as_can_be_asked(picture, pitch);
    lemma_room_for_pixels(state, picture, pitch);
    let pixels = (state.heap.base + state.heap.used) as u32;
    assert(decoded.height * pitch * 2 == pitch * decoded.height * 2) by (nonlinear_arith);
    let ink = picture.ink();
    if a.wrapping_sub(pixels) >= pitch * decoded.height * 2 {
        law_painting_stays_inside(state.memory, pixels, pitch, decoded.height as int, ink, a);
    } else {
        law_painting_keeps_padding(state.memory, pixels, pitch, decoded.width as int, ink, a);
    }
    law_header_stays_in_place(
        state.pixels_stored(picture).memory,
        state.image_header(picture, output),
        pixels,
        decoded.width as u16,
        decoded.height as u16,
        a,
    );
}

/// Service 22 asks for the resource whose number the first register holds, where numbers from 4095
/// on count from zero again, with the header that the second names. Where there is no such resource
/// it returns zero.
pub proof fn law_resource_service(state: MachineState, number: int)
    requires
        state.wf(),
        state.registers[0] == number && number < 4095 || state.registers[0] == number + 4095,
        0 <= number,
    ensures
        if number < state.resources.len() {
            state.lcd_service(22) == (
                state,
                Outcome::DecodeImage(
                    ImageJob {
                        resource: state.resources[number].data,
                        name: state.resources[number].name,
                        output: state.registers[1],
                    },
                ),
            )
        } else {
            state.lcd_service(22) == (
                MachineState { registers: state.registers.update(0, 0), ..state },
                Outcome::Done,
            )
        },
{
    assert(state.lcd_service(22) == state.image_requested(
        state.resource_job(number, state.registers[1]),
    ));
}

/// The first place of a value is where it stands first.
proof fn lemma_first_place(values: Seq<u32>, value: u32, start: int, found: int)
    requires
        0 <= start <= found <= values.len(),
        forall|i: int| start <= i < found ==> #[trigger] values[i] != value,
        found < values.len() ==> values[found] == value,
    ensures
        first_place(values, value, start) == if found < values.len() {
            Some(found)
        } else {
            None
        },
    decreases found - start,
{
    if start < found {
        lemma_first_place(values, value, start + 1, found);
    }
}

/// Service 49 asks for the resource that was loaded at the address in the first register: the first
/// one that has that address. Where there is no such resource in the archive it returns zero.
pub proof fn law_loaded_stream_service(state: MachineState, found: int)
    requires
        state.wf(),
        state.registers[0] != 0,
        0 <= found < state.resource_data.len(),
        state.resource_data[found] == state.registers[0],
        forall|i: int| 0 <= i < found ==> #[trigger] state.resource_data[i] != state.registers[0],
    ensures
        if found < state.resources.len() {
            state.lcd_service(49) == (
                state,
                Outcome::DecodeImage(
                    ImageJob {
                        resource: state.resources[found].data,
                        name: state.resources[found].name,
                        output: state.registers[1],
                    },
                ),
            )
        } else {
            state.lcd_service(49) == (
                MachineState { registers: state.registers.update(0, 0), ..state },
                Outcome::Done,
            )
        },
{
    lemma_first_place(state.resource_data, state.registers[0], 0, found);
    assert(state.lcd_service(49) == state.image_requested(
        state.stream_job(state.registers[0], state.registers[1]),
    ));
}

/// Service 49 asks for the bytes of the heap block that starts at the address in the first
/// register, where no resource was loaded there: all bytes that the block was asked with, if one
/// region of memory holds them. Without such a block or region it returns zero.
pub proof fn law_block_stream_service(state: MachineState, block: int)
    requires
        state.wf(),
        state.registers[0] != 0,
        forall|i: int|
            0 <= i < state.resource_data.len() ==> #[trigger] state.resource_data[i]
                != state.registers[0],
        0 <= block < state.heap.blocks.len(),
        state.heap.blocks[block].address == state.registers[0],
    ensures
        ({
            let source = state.registers[0];
            let size = state.heap.blocks[block].size;
            let (after, outcome) = state.lcd_service(49);
            if exists|i: int|
                0 <= i < state.spans.len() && (#[trigger] state.spans[i]).base <= source && source
                    + size <= state.spans[i].base + state.spans[i].len {
                &&& after == state
                &&& outcome matches Outcome::DecodeImage(job) && {
                    &&& job.resource.len() == size
                    &&& forall|k: int|
                        0 <= k < size ==> #[trigger] job.resource[k] == read8(
                            state.memory,
                            offset(source, k),
                        )
                    &&& job.name == "guest stream"@
                    &&& job.output == state.registers[1]
                }
            } else {
                &&& after == (MachineState { registers: state.registers.update(0, 0), ..state })
                &&& outcome == Outcome::Done
            }
        }),
{
    let source = state.registers[0];
    lemma_first_place(state.resource_data, source, 0, state.resource_data.len() as int);
    law_block_size_is_unique(state.heap, block);
    let size = state.heap.blocks[block].size;
    assert(state.lcd_service(49) == state.image_requested(
        state.stream_job(source, state.registers[1]),
    ));
    if span_holds(state.spans, source, size as int) {
        let resource = bytes_from(state.memory, source, size as nat);
        assert forall|k: int| 0 <= k < size implies #[trigger] resource[k] == read8(
            state.memory,
            offset(source, k),
        ) by {
            law_bytes_from_lie_in_a_row(state.memory, source, size as nat, k);
        }
    }
}

/// Service 49 returns zero for an address at which neither a resource nor a heap block is.
pub proof fn law_stray_stream_service(state: MachineState)
    requires
        state.wf(),
        state.registers[0] == 0 || (forall|i: int|
            0 <= i < state.resource_data.len() ==> #[trigger] state.resource_data[i]
                != state.registers[0]) && (forall|i: int|
            0 <= i < state.heap.blocks.len() ==> (#[trigger] state.heap.blocks[i]).address
                != state.registers[0]),
    ensures
        state.lcd_service(49) == (
            MachineState { registers: state.registers.update(0, 0), ..state },
            Outcome::Done,
        ),
{
    let source = state.registers[0];
    if source != 0 {
        lemma_first_place(state.resource_data, source, 0, state.resource_data.len() as int);
        law_no_block_no_size(state.heap, source);
    }
    assert(state.lcd_service(49) == state.image_requested(
        state.stream_job(source, state.registers[1]),
    ));
}

} // verus!
