//! Compressed resource streams.
//!
//! A stream starts with a byte that is skipped, the length of the packed bytes and the length
//! of the unpacked ones, both big-endian. The packed bytes are commands. A command with its
//! highest bit set is followed by as many bytes to copy as its other bits say. Any other command
//! takes a second byte: it repeats as many bytes as its upper seven bits say, from as far back
//! in the output as its lowest bit and the second byte say.

use vstd::prelude::*;

use crate::machine::{MachineState, NicaiMachine};
use crate::memory::{address_at, offset, read8, write8};

verus! {

/// Where the packed bytes of a stream start.
pub const STREAM_HEADER: u32 = 9;

/// The big-endian word at `a`.
pub open spec fn big_endian(m: Map<u32, u8>, a: u32) -> int {
    read8(m, a) * 0x100_0000 + read8(m, offset(a, 1)) * 0x1_0000 + read8(m, offset(a, 2)) * 0x100
        + read8(m, offset(a, 3))
}

/// The length of a stream's packed bytes.
pub open spec fn packed_size(m: Map<u32, u8>, source: u32) -> int {
    big_endian(m, offset(source, 1))
}

/// The length of what a stream unpacks to; its highest bit does not count.
pub open spec fn unpacked_size(m: Map<u32, u8>, source: u32) -> int {
    big_endian(m, offset(source, 5)) % 0x8000_0000
}

/// Memory after `n` bytes are copied one by one, in ascending order.
pub open spec fn bytes_copied(m: Map<u32, u8>, from: u32, to: u32, n: int) -> Map<u32, u8>
    decreases n,
{
    if n <= 0 {
        m
    } else {
        let before = bytes_copied(m, from, to, n - 1);
        write8(before, offset(to, n - 1), read8(before, offset(from, n - 1)))
    }
}

/// The smaller of what a command asks for and what is left of the output.
pub open spec fn at_most(count: int, room: int) -> int {
    if count < room {
        count
    } else {
        room
    }
}

/// Memory once the commands from `position` on are carried out with `written` bytes of output
/// there already, and how many bytes of output there are then. Unpacking ends with the packed
/// bytes, with the output, or before the first command that is not valid: one that copies
/// nothing, that runs past the packed bytes, or that reaches back behind the output's start.
pub open spec fn commands_run(
    m: Map<u32, u8>,
    source: u32,
    output: u32,
    packed: int,
    size: int,
    position: int,
    written: int,
) -> (Map<u32, u8>, int)
    decreases size - written,
{
    if position >= packed || written >= size {
        (m, written)
    } else {
        let command = read8(m, offset(source, STREAM_HEADER + position));
        if command >= 128 {
            let count = at_most(command - 128, size - written);
            if command == 128 || position + 1 + (command - 128) > packed {
                (m, written)
            } else {
                commands_run(
                    bytes_copied(
                        m,
                        offset(source, STREAM_HEADER + position + 1),
                        offset(output, written),
                        count,
                    ),
                    source,
                    output,
                    packed,
                    size,
                    position + 1 + count,
                    written + count,
                )
            }
        } else if position + 1 >= packed {
            (m, written)
        } else {
            let count = at_most(command as int / 2, size - written);
            let distance = command as int % 2 * 256 + read8(
                m,
                offset(source, STREAM_HEADER + position + 1),
            );
            if command < 2 || distance == 0 || distance > written {
                (m, written)
            } else {
                commands_run(
                    bytes_copied(
                        m,
                        offset(output, written - distance),
                        offset(output, written),
                        count,
                    ),
                    source,
                    output,
                    packed,
                    size,
                    position + 2,
                    written + count,
                )
            }
        }
    }
}

impl MachineState {
    /// The stream at `source` announces an output that can be unpacked.
    pub open spec fn unpacks(self, source: u32) -> bool {
        &&& source != 0
        &&& packed_size(self.memory, source) > 0
        &&& 0 < unpacked_size(self.memory, source) <= self.heap.size
        &&& self.heap.has_room(unpacked_size(self.memory, source) as u32)
    }

    /// Memory once a stream is unpacked to `output`, and the length of what was unpacked.
    pub open spec fn unpacked_to(self, source: u32, output: u32) -> (Map<u32, u8>, int) {
        commands_run(
            self.memory,
            source,
            output,
            packed_size(self.memory, source),
            unpacked_size(self.memory, source),
            0,
            0,
        )
    }

    /// The machine after a stream is unpacked into a new block.
    pub open spec fn stream_decoded(self, source: u32) -> MachineState {
        if self.unpacks(source) {
            let size = unpacked_size(self.memory, source) as u32;
            self.after_request(size).with_memory(
                self.unpacked_to(source, self.heap.next_block(size)).0,
            )
        } else {
            self
        }
    }

    /// The block that a stream is unpacked into; zero where nothing could be unpacked.
    pub open spec fn stream_block(self, source: u32) -> u32 {
        let output = self.heap.next_block(unpacked_size(self.memory, source) as u32);
        if self.unpacks(source) && self.unpacked_to(source, output).1 > 0 {
            output
        } else {
            0
        }
    }
}

impl NicaiMachine {
    /// Reads a big-endian word.
    fn big_endian_word(&self, a: u32) -> (value: u32)
        requires
            self.wf(),
        ensures
            value == big_endian(self@.memory, a),
    {
        let b0: u8 = self.memory.r8(a);
        let b1: u8 = self.memory.r8(address_at(a, 1));
        let b2: u8 = self.memory.r8(address_at(a, 2));
        let b3: u8 = self.memory.r8(address_at(a, 3));
        b0 as u32 * 0x100_0000 + b1 as u32 * 0x1_0000 + b2 as u32 * 0x100 + b3 as u32
    }

    /// Copies bytes one by one in ascending order, so that a copy onto itself repeats them.
    fn copy_bytes(&mut self, from: u32, to: u32, n: u32)
        requires
            old(self).wf(),
        ensures
            final(self).wf(),
            final(self)@ == old(self)@.with_memory(
                bytes_copied(old(self)@.memory, from, to, n as int),
            ),
    {
        let mut i: u32 = 0;
        while i < n
            invariant
                self.wf(),
                i <= n,
                self@ == old(self)@.with_memory(
                    bytes_copied(old(self)@.memory, from, to, i as int),
                ),
            decreases n - i,
        {
            let byte: u8 = self.memory.r8(address_at(from, i));
            self.memory.w8(address_at(to, i), byte);
            i += 1;
            assert(self@ =~= old(self)@.with_memory(
                bytes_copied(old(self)@.memory, from, to, i as int),
            ));
        }
    }

    /// Unpacks the stream at `source` into a new heap block and returns the block's address;
    /// zero where the stream is empty, does not fit or yields nothing.
    #[verifier::rlimit(30)]
    pub fn decode_resource_stream(&mut self, source: u32) -> (output: u32)
        requires
            old(self).wf(),
        ensures
            final(self).wf(),
            output == old(self)@.stream_block(source),
            final(self)@ == old(self)@.stream_decoded(source),
    {
        if source == 0 {
            return 0;
        }
        let compressed_size: u32 = self.big_endian_word(address_at(source, 1));
        let output_size: u32 = self.big_endian_word(address_at(source, 5)) % 0x8000_0000;
        if compressed_size == 0 || output_size == 0 || output_size > self.heap.size() {
            return 0;
        }
        let output: u32 = self.allocate(output_size);
        if output == 0 {
            return 0;
        }
        let ghost result = old(self)@.unpacked_to(source, output);
        let ghost ready = self@;
        let mut source_offset: u32 = 0;
        let mut output_offset: u32 = 0;
        while source_offset < compressed_size && output_offset < output_size
            invariant_except_break
                result == commands_run(
                    self@.memory,
                    source,
                    output,
                    compressed_size as int,
                    output_size as int,
                    source_offset as int,
                    output_offset as int,
                ),
            invariant
                self.wf(),
                self@ == ready.with_memory(self@.memory),
                source_offset <= compressed_size,
                output_offset <= output_size,
            ensures
                result == (self@.memory, output_offset as int),
            decreases output_size - output_offset,
        {
            let place: u32 = address_at(address_at(source, STREAM_HEADER), source_offset);
            let next: u32 = address_at(place, 1);
            proof {
                assert(place == offset(source, STREAM_HEADER + source_offset));
                assert(next == offset(source, STREAM_HEADER + source_offset + 1));
            }
            let end: u32 = address_at(output, output_offset);
            let room: u32 = output_size - output_offset;
            let command: u8 = self.memory.r8(place);
            if command >= 128 {
                let count: u32 = (command - 128) as u32;
                if count == 0 || source_offset as u64 + 1 + count as u64 > compressed_size as u64 {
                    break;
                }
                let count: u32 = if count < room {
                    count
                } else {
                    room
                };
                self.copy_bytes(next, end, count);
                source_offset = source_offset + count + 1;
                output_offset = output_offset + count;
            } else {
                if compressed_size - source_offset <= 1 {
                    break;
                }
                let count: u32 = (command / 2) as u32;
                let distance: u32 = (command % 2) as u32 * 256 + self.memory.r8(next) as u32;
                if count == 0 || distance == 0 || distance > output_offset {
                    break;
                }
                let count: u32 = if count < room {
                    count
                } else {
                    room
                };
                self.copy_bytes(address_at(output, output_offset - distance), end, count);
                source_offset = source_offset + 2;
                output_offset = output_offset + count;
            }
        }
        assert(self@ =~= old(self)@.stream_decoded(source));
        if output_offset == 0 {
            0
        } else {
            output
        }
    }
}

/// A sequence with `n` more elements, each of which repeats the one `distance` places before it.
pub open spec fn repeated(out: Seq<u8>, distance: int, n: int) -> Seq<u8>
    decreases n,
{
    if n <= 0 {
        out
    } else {
        let before = repeated(out, distance, n - 1);
        before.push(before[before.len() - distance])
    }
}

/// What packed bytes stand for: the output once the commands from `position` on are carried out
/// with `out` there already, cut off after `size` bytes.
pub open spec fn unpacked(packed: Seq<u8>, size: int, position: int, out: Seq<u8>) -> Seq<u8>
    decreases size - out.len(),
{
    if position < 0 || position >= packed.len() || out.len() >= size {
        out
    } else {
        let command = packed[position] as int;
        if command > 128 && position + 1 + (command - 128) <= packed.len() {
            let count = at_most(command - 128, size - out.len());
            unpacked(
                packed,
                size,
                position + 1 + count,
                out + packed.subrange(position + 1, position + 1 + count),
            )
        } else if 2 <= command < 128 && position + 1 < packed.len() {
            let count = at_most(command / 2, size - out.len());
            let distance = command % 2 * 256 + packed[position + 1];
            if 0 < distance <= out.len() {
                proof {
                    lemma_repeated_len(out, distance, count);
                }
                unpacked(packed, size, position + 2, repeated(out, distance, count))
            } else {
                out
            }
        } else {
            out
        }
    }
}

/// Repeating adds as many elements as it is asked for.
pub proof fn lemma_repeated_len(out: Seq<u8>, distance: int, n: int)
    requires
        0 <= n,
    ensures
        repeated(out, distance, n).len() == out.len() + n,
    decreases n,
{
    if n > 0 {
        lemma_repeated_len(out, distance, n - 1);
    }
}

} // verus!
