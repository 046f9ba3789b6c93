//! What the services do that neither draw nor make images, told number by number.

use vstd::prelude::*;

use crate::arguments::holds;
use crate::lcd::{HostReply, Outcome};
use crate::machine::MachineState;
use crate::memory::{law_word_read_back, offset, read16, read32, read8, write32};
use crate::surface::law_coordinate_is_signed;

verus! {

/// The machine with a result in its first register, and nothing left to do.
pub open spec fn answered(state: MachineState, result: u32) -> (MachineState, Outcome) {
    (MachineState { registers: state.registers.update(0, result), ..state }, Outcome::Done)
}

/// A result goes to the first register and changes nothing else.
pub proof fn law_result_goes_to_first_register(state: MachineState, value: u32)
    requires
        state.wf(),
    ensures
        state.with_result(value).registers[0] == value,
        forall|i: int|
            1 <= i < 16 ==> #[trigger] state.with_result(value).registers[i] == state.registers[i],
        state.with_result(value) == (MachineState {
            registers: state.registers.update(0, value),
            ..state
        }),
{
}

/// The services whose answer is fixed: the frame buffer's header for 0; for the width of a
/// character eight or sixteen; sixteen for its height; and one or zero for those that only have to
/// be there. Numbers without a service are answered with zero. None of them changes anything else.
pub proof fn law_fixed_answers(state: MachineState, index: u32)
    ensures
        state.lcd_service(0) == answered(state, state.layout.screen_image_struct),
        state.lcd_service(5) == answered(
            state,
            if state.registers[0] == 0 {
                8
            } else {
                16
            },
        ),
        index == 6 || index == 62 ==> state.lcd_service(index) == answered(state, 16),
        index == 36 || 54 <= index <= 56 ==> state.lcd_service(index) == answered(state, 1),
        2 <= index <= 4 || index == 8 || index == 14 || index == 15 || index == 20 || index == 21
            || index == 23 || index == 37 || index == 39 || 41 <= index <= 43 || 50 <= index <= 53
            || 57 <= index <= 61 || index >= 63 ==> state.lcd_service(index) == answered(state, 0),
{
}

/// Service 1 answers with the frame buffer's pixels and keeps column and row of the next two
/// registers as the origin of text.
pub proof fn law_screen_service_keeps_origin(state: MachineState, x: i32, y: i32)
    requires
        holds(state.registers[1], x as int),
        holds(state.registers[2], y as int),
    ensures
        state.lcd_service(1) == answered(
            MachineState { text_origin: (x, y), ..state },
            state.layout.screen_image,
        ),
{
    law_coordinate_is_signed(state.registers[1], x as int);
    law_coordinate_is_signed(state.registers[2], y as int);
}

/// Services 33 and 34 answer with the halfwords of an image's header that hold its width and its
/// height.
pub proof fn law_size_services(state: MachineState)
    ensures
        state.lcd_service(33) == answered(
            state,
            read16(state.memory, offset(state.registers[0], 4)) as u32,
        ),
        state.lcd_service(34) == answered(
            state,
            read16(state.memory, offset(state.registers[0], 6)) as u32,
        ),
{
}

/// Service 35 clears the address of an image's pixels and answers with one; no other byte changes.
/// Without an image it answers with zero.
pub proof fn law_release_service(state: MachineState, a: u32)
    requires
        state.wf(),
    ensures
        state.registers[0] == 0 ==> state.lcd_service(35) == answered(state, 0),
        state.registers[0] != 0 ==> {
            let (after, outcome) = state.lcd_service(35);
            &&& (after, outcome) == answered(
                MachineState { memory: after.memory, ..state },
                1,
            )
            &&& after.memory.dom() == state.memory.dom()
            &&& read8(after.memory, a) == if a.wrapping_sub(state.registers[0]) < 4 {
                0
            } else {
                read8(state.memory, a)
            }
        },
{
    let image = state.registers[0];
    if image != 0 {
        lemma_word_cleared(state.memory, image, a);
        assert(state.lcd_service(35) == (
            state.with_memory(write32(state.memory, image, 0)).with_result(1),
            Outcome::Done,
        ));
    }
}

/// Clearing a word makes its four bytes zero and keeps every other.
proof fn lemma_word_cleared(m: Map<u32, u8>, place: u32, a: u32)
    ensures
        write32(m, place, 0).dom() == m.dom(),
        read8(write32(m, place, 0), a) == if a.wrapping_sub(place) < 4 {
            0
        } else {
            read8(m, a)
        },
{
    law_word_read_back(m, place, 0, a);
    if a.wrapping_sub(place) < 4 {
        assert(a == place || a == place.wrapping_add(1) || a == place.wrapping_add(2) || a
            == place.wrapping_add(3));
    }
}

/// Service 40 answers with one exactly if the point in the first register lies between the corners
/// in the next two, which belong to it. Points hold their column in the lower half and their row in
/// the upper; halves are not signed here.
pub proof fn law_hit_test_service(
    state: MachineState,
    x: int,
    y: int,
    left: int,
    top: int,
    right: int,
    bottom: int,
)
    requires
        0 <= x < 65536,
        0 <= left < 65536,
        0 <= right < 65536,
        state.registers[0] == y * 65536 + x,
        state.registers[1] == top * 65536 + left,
        state.registers[2] == bottom * 65536 + right,
    ensures
        state.lcd_service(40) == answered(
            state,
            if left <= x <= right && top <= y <= bottom {
                1
            } else {
                0
            },
        ),
{
    assert(state.registers[0] / 65536 == y && state.registers[0] % 65536 == x);
    assert(state.registers[1] / 65536 == top && state.registers[1] % 65536 == left);
    assert(state.registers[2] / 65536 == bottom && state.registers[2] % 65536 == right);
    assert(state.lcd_service(40) == (state.with_result(state.query_service(40)), Outcome::Done));
}

/// Service 46 gives up all image packages: the three that are remembered and the slot in memory
/// become zero, and no other byte changes. It answers with zero.
pub proof fn law_packages_given_up(state: MachineState, a: u32)
    requires
        state.wf(),
    ensures
        ({
            let (after, outcome) = state.lcd_service(46);
            &&& (after, outcome) == answered(
                MachineState {
                    app_image_package: 0,
                    inner_image_package: 0,
                    current_image_package: 0,
                    memory: after.memory,
                    ..state
                },
                0,
            )
            &&& read8(after.memory, a) == if a.wrapping_sub(state.layout.package_slot) < 4 {
                0
            } else {
                read8(state.memory, a)
            }
        }),
{
    lemma_word_cleared(state.memory, state.layout.package_slot, a);
    assert(state.lcd_service(46) == (state.packages_cleared().with_result(0), Outcome::Done));
}

/// Service 47 switches to the package in the third register: it is remembered, and its address goes
/// to the slot in memory, where no other byte changes. The answer is the number of entries that the
/// package's header holds eight bytes in. If that is zero, the host is first asked to load the
/// package, and the answer is the number that the header holds then. Without a package the answer
/// is zero.
pub proof fn law_package_service(state: MachineState, loaded: MachineState, a: u32)
    requires
        state.wf(),
        loaded.wf(),
    ensures
        state.registers[2] == 0 ==> state.lcd_service(47) == answered(state, 0),
        state.registers[2] != 0 ==> {
            let package = state.registers[2];
            let slot = state.layout.package_slot;
            let (after, outcome) = state.lcd_service(47);
            let count = read16(after.memory, offset(package, 8)) as u32;
            let selected = MachineState {
                current_image_package: package,
                memory: after.memory,
                ..state
            };
            &&& a.wrapping_sub(slot) >= 4 ==> read8(after.memory, a) == read8(state.memory, a)
            &&& (forall|k: int|
                0 <= k < 4 ==> state.memory.dom().contains(#[trigger] offset(slot, k)))
                ==> read32(after.memory, slot) == package
            &&& count != 0 ==> (after, outcome) == answered(selected, count)
            &&& count == 0 ==> (after, outcome) == (
                selected,
                Outcome::LoadMainPackage { package, kind: 5 },
            )
            &&& loaded.resumed(HostReply::PackageLoaded { package }) == answered(
                loaded,
                read16(loaded.memory, offset(package, 8)) as u32,
            ).0
        },
{
    let package = state.registers[2];
    let slot = state.layout.package_slot;
    law_word_read_back(state.memory, slot, package, a);
    assert(state.lcd_service(47) == state.package_switched(package));
    if forall|k: int| 0 <= k < 4 ==> state.memory.dom().contains(#[trigger] offset(slot, k)) {
        lemma_slot_steps(slot);
        assert(state.memory.dom().contains(offset(slot, 0)));
        assert(state.memory.dom().contains(offset(slot, 1)));
        assert(state.memory.dom().contains(offset(slot, 2)));
        assert(state.memory.dom().contains(offset(slot, 3)));
    }
}

/// The four bytes of a word.
proof fn lemma_slot_steps(slot: u32)
    ensures
        offset(slot, 0) == slot,
        offset(slot, 1) == slot.wrapping_add(1),
        offset(slot, 2) == slot.wrapping_add(2),
        offset(slot, 3) == slot.wrapping_add(3),
{
}

/// Service 11 for games clears the twelve bytes of an image's header; no other byte changes. It and
/// every number without a service for games answer with zero.
pub proof fn law_game_clear_service(state: MachineState, index: u32, a: u32)
    requires
        state.wf(),
    ensures
        index != 11 && index != 20 ==> state.game_lcd_service(index) == answered(state, 0).0,
        state.registers[0] == 0 ==> state.game_lcd_service(11) == answered(state, 0).0,
        state.registers[0] != 0 ==> {
            let after = state.game_lcd_service(11);
            &&& after == answered(MachineState { memory: after.memory, ..state }, 0).0
            &&& read8(after.memory, a) == if a.wrapping_sub(state.registers[0]) < 12 {
                0
            } else {
                read8(state.memory, a)
            }
        },
{
    let image = state.registers[0];
    if image != 0 {
        let m1 = write32(state.memory, image, 0);
        let m2 = write32(m1, offset(image, 4), 0);
        lemma_word_cleared(state.memory, image, a);
        lemma_word_cleared(m1, offset(image, 4), a);
        lemma_word_cleared(m2, offset(image, 8), a);
        lemma_header_words(image, a);
    }
}

/// The twelve bytes of a header are three words.
proof fn lemma_header_words(image: u32, a: u32)
    ensures
        a.wrapping_sub(image) < 12 <==> a.wrapping_sub(image) < 4 || a.wrapping_sub(
            offset(image, 4),
        ) < 4 || a.wrapping_sub(offset(image, 8)) < 4,
{
}

} // verus!
