//! What unpacking a stream promises as a whole.

use vstd::prelude::*;

use crate::machine::MachineState;
use crate::memory::{bytes_from, offset, read8, write8};
use crate::stream::{
    at_most, bytes_copied, commands_run, lemma_repeated_len, packed_size, repeated, unpacked,
    unpacked_size, STREAM_HEADER,
};

verus! {

/// All bytes of the output block are mapped.
pub open spec fn block_mapped(m: Map<u32, u8>, output: u32, size: int) -> bool {
    forall|j: int| 0 <= j < size ==> m.dom().contains(#[trigger] offset(output, j))
}

/// The packed bytes and the output block do not share a byte, and the output block is mapped.
pub open spec fn streams_apart(
    m: Map<u32, u8>,
    source: u32,
    output: u32,
    packed: int,
    size: int,
) -> bool {
    &&& forall|i: int, j: int|
        #![trigger offset(source, STREAM_HEADER + i), offset(output, j)]
        0 <= i < packed && 0 <= j < size ==> offset(source, STREAM_HEADER + i) != offset(output, j)
    &&& block_mapped(m, output, size)
}

/// The packed byte `i` is none of the first `n` bytes of the output block.
pub open spec fn spared(source: u32, output: u32, i: int, n: int) -> bool {
    forall|j: int| 0 <= j < n ==> #[trigger] offset(output, j) != offset(source, STREAM_HEADER + i)
}

/// Of the bytes that the command at `position` copies, the one numbered `k` is not overwritten by
/// the output that there is when it is read.
pub open spec fn copied_in_time(
    source: u32,
    output: u32,
    position: int,
    written: int,
    k: int,
) -> bool {
    spared(source, output, position + 1 + k, written + k)
}

/// From `position` on, with `written` bytes of output there already, each packed byte is read
/// before the output overwrites it.
pub open spec fn read_in_time(
    packed: Seq<u8>,
    source: u32,
    output: u32,
    size: int,
    position: int,
    written: int,
) -> bool
    decreases size - written,
{
    if position < 0 || position >= packed.len() || written >= size {
        true
    } else {
        let command = packed[position] as int;
        &&& spared(source, output, position, written)
        &&& if command > 128 && position + 1 + (command - 128) <= packed.len() {
            let count = at_most(command - 128, size - written);
            &&& forall|k: int|
                0 <= k < count ==> #[trigger] copied_in_time(source, output, position, written, k)
            &&& read_in_time(
                packed,
                source,
                output,
                size,
                position + 1 + count,
                written + count,
            )
        } else if 2 <= command < 128 && position + 1 < packed.len() {
            let count = at_most(command / 2, size - written);
            let distance = command % 2 * 256 + packed[position + 1];
            &&& spared(source, output, position + 1, written)
            &&& 0 < distance <= written ==> read_in_time(
                packed,
                source,
                output,
                size,
                position + 2,
                written + count,
            )
        } else {
            true
        }
    }
}

/// Memory agrees everywhere but in the output block.
pub open spec fn same_outside(
    before: Map<u32, u8>,
    after: Map<u32, u8>,
    output: u32,
    size: int,
) -> bool {
    &&& after.dom() == before.dom()
    &&& forall|a: u32|
        a.wrapping_sub(output) >= size ==> #[trigger] read8(after, a) == read8(before, a)
}

/// Steps from an address add up.
proof fn lemma_offset_adds(a: u32, i: int, j: int)
    ensures
        offset(offset(a, i), j) == offset(a, i + j),
{
}

/// Writing the byte after a part of the output block makes the part one byte longer.
proof fn lemma_extend(m: Map<u32, u8>, output: u32, size: int, len: nat, v: u8)
    requires
        len < size <= 0x1_0000_0000,
        block_mapped(m, output, size),
    ensures
        ({
            let after = write8(m, offset(output, len as int), v);
            &&& bytes_from(after, output, len + 1) == bytes_from(m, output, len).push(v)
            &&& same_outside(m, after, output, len as int + 1)
        }),
{
    let at = offset(output, len as int);
    let after = write8(m, at, v);
    assert(m.dom().contains(at));
    assert(after.dom() =~= m.dom());
    assert(at.wrapping_sub(output) == len);
    assert(bytes_from(after, output, len + 1) =~= bytes_from(m, output, len).push(v));
}

/// An address whose byte the output block does not hold.
proof fn lemma_outside(a: u32, output: u32, size: int)
    requires
        size <= 0x1_0000_0000,
        forall|j: int| 0 <= j < size ==> a != #[trigger] offset(output, j),
    ensures
        a.wrapping_sub(output) >= size,
{
    let j = a.wrapping_sub(output) as int;
    assert(offset(output, j) == a);
}

/// Copying bytes that are read before the copy writes them puts them after what is there.
proof fn lemma_copy_in_time(
    m: Map<u32, u8>,
    from: u32,
    output: u32,
    size: int,
    out: Seq<u8>,
    n: int,
)
    requires
        0 <= n,
        out.len() + n <= size <= 0x1_0000_0000,
        bytes_from(m, output, out.len()) == out,
        block_mapped(m, output, size),
        forall|i: int, j: int|
            #![trigger offset(from, i), offset(output, j)]
            0 <= i < n && 0 <= j < out.len() + i ==> offset(from, i) != offset(output, j),
    ensures
        ({
            let after = bytes_copied(m, from, offset(output, out.len() as int), n);
            &&& bytes_from(after, output, (out.len() + n) as nat) == out + bytes_from(
                m,
                from,
                n as nat,
            )
            &&& same_outside(m, after, output, out.len() + n)
        }),
    decreases n,
{
    let to = offset(output, out.len() as int);
    if n > 0 {
        let before = bytes_copied(m, from, to, n - 1);
        lemma_copy_in_time(m, from, output, size, out, n - 1);
        lemma_offset_adds(output, out.len() as int, n - 1);
        let src = offset(from, n - 1);
        lemma_outside(src, output, out.len() + n - 1);
        assert(read8(before, src) == read8(m, src));
        lemma_extend(before, output, size, (out.len() + n - 1) as nat, read8(m, src));
        assert(bytes_from(m, from, (n - 1) as nat).push(read8(m, src)) =~= bytes_from(
            m,
            from,
            n as nat,
        ));
        assert((out + bytes_from(m, from, (n - 1) as nat)).push(read8(m, src)) =~= out
            + bytes_from(m, from, n as nat));
    } else {
        assert(out + bytes_from(m, from, 0) =~= out);
    }
}

/// Copying from the output itself repeats it.
proof fn lemma_copy_back(
    m: Map<u32, u8>,
    output: u32,
    size: int,
    out: Seq<u8>,
    distance: int,
    n: int,
)
    requires
        0 <= n,
        out.len() + n <= size <= 0x1_0000_0000,
        0 < distance <= out.len(),
        bytes_from(m, output, out.len()) == out,
        block_mapped(m, output, size),
    ensures
        ({
            let after = bytes_copied(
                m,
                offset(output, out.len() - distance),
                offset(output, out.len() as int),
                n,
            );
            &&& bytes_from(after, output, (out.len() + n) as nat) == repeated(out, distance, n)
            &&& same_outside(m, after, output, out.len() + n)
        }),
    decreases n,
{
    let from = offset(output, out.len() - distance);
    let to = offset(output, out.len() as int);
    lemma_repeated_len(out, distance, n);
    if n > 0 {
        let before = bytes_copied(m, from, to, n - 1);
        lemma_copy_back(m, output, size, out, distance, n - 1);
        lemma_repeated_len(out, distance, n - 1);
        lemma_offset_adds(output, out.len() as int, n - 1);
        lemma_offset_adds(output, out.len() - distance, n - 1);
        let held = bytes_from(before, output, (out.len() + n - 1) as nat);
        let k = out.len() + n - 1 - distance;
        assert(held[k] == read8(before, offset(output, k)));
        lemma_extend(before, output, size, (out.len() + n - 1) as nat, held[k]);
    }
}

/// A packed byte that the output has not overwritten is still there.
proof fn lemma_packed_byte(
    start: Map<u32, u8>,
    m: Map<u32, u8>,
    source: u32,
    output: u32,
    packed: Seq<u8>,
    written: int,
    i: int,
)
    requires
        0 <= i < packed.len(),
        written <= 0x1_0000_0000,
        bytes_from(start, offset(source, STREAM_HEADER as int), packed.len()) == packed,
        same_outside(start, m, output, written),
        spared(source, output, i, written),
    ensures
        packed[i] == read8(m, offset(source, STREAM_HEADER + i)),
{
    let base = offset(source, STREAM_HEADER as int);
    assert(bytes_from(start, base, packed.len())[i] == read8(start, offset(base, i)));
    lemma_offset_adds(source, STREAM_HEADER as int, i);
    lemma_outside(offset(source, STREAM_HEADER + i), output, written);
}

/// Carrying out a command that copies packed bytes.
proof fn lemma_literal_command(
    start: Map<u32, u8>,
    m: Map<u32, u8>,
    source: u32,
    output: u32,
    packed: Seq<u8>,
    size: int,
    position: int,
    out: Seq<u8>,
    count: int,
)
    requires
        0 <= position,
        0 <= count,
        position + 1 + count <= packed.len(),
        out.len() + count <= size <= 0x1_0000_0000,
        block_mapped(m, output, size),
        bytes_from(start, offset(source, STREAM_HEADER as int), packed.len()) == packed,
        same_outside(start, m, output, out.len() as int),
        bytes_from(m, output, out.len()) == out,
        forall|k: int|
            0 <= k < count ==> #[trigger] copied_in_time(
                source,
                output,
                position,
                out.len() as int,
                k,
            ),
    ensures
        ({
            let more = out + packed.subrange(position + 1, position + 1 + count);
            let after = bytes_copied(
                m,
                offset(source, STREAM_HEADER + position + 1),
                offset(output, out.len() as int),
                count,
            );
            &&& bytes_from(after, output, more.len()) == more
            &&& same_outside(start, after, output, more.len() as int)
        }),
{
    let from = offset(source, STREAM_HEADER + position + 1);
    let more = packed.subrange(position + 1, position + 1 + count);
    assert forall|i: int, j: int|
        #![trigger offset(from, i), offset(output, j)]
        0 <= i < count && 0 <= j < out.len() + i implies offset(from, i) != offset(output, j) by {
        lemma_offset_adds(source, STREAM_HEADER + position + 1, i);
        assert(copied_in_time(source, output, position, out.len() as int, i));
        assert(offset(source, STREAM_HEADER + (position + 1 + i)) == offset(from, i));
    }
    lemma_copy_in_time(m, from, output, size, out, count);
    assert forall|i: int| 0 <= i < count implies #[trigger] bytes_from(m, from, count as nat)[i]
        == more[i] by {
        lemma_offset_adds(source, STREAM_HEADER + position + 1, i);
        assert(copied_in_time(source, output, position, out.len() as int, i));
        lemma_packed_byte(
            start,
            m,
            source,
            output,
            packed,
            out.len() as int,
            position + 1 + i,
        );
        assert(offset(source, STREAM_HEADER + (position + 1 + i)) == offset(from, i));
    }
    assert(bytes_from(m, from, count as nat) =~= more);
}

/// Running commands on memory yields what the packed bytes stand for.
proof fn lemma_commands_unpack(
    start: Map<u32, u8>,
    m: Map<u32, u8>,
    source: u32,
    output: u32,
    packed: Seq<u8>,
    size: int,
    position: int,
    out: Seq<u8>,
)
    requires
        0 <= position,
        out.len() <= size <= 0x1_0000_0000,
        block_mapped(m, output, size),
        bytes_from(start, offset(source, STREAM_HEADER as int), packed.len()) == packed,
        same_outside(start, m, output, out.len() as int),
        bytes_from(m, output, out.len()) == out,
        read_in_time(packed, source, output, size, position, out.len() as int),
    ensures
        ({
            let (after, written) = commands_run(
                m,
                source,
                output,
                packed.len() as int,
                size,
                position,
                out.len() as int,
            );
            &&& written == unpacked(packed, size, position, out).len()
            &&& written <= size
            &&& bytes_from(after, output, written as nat) == unpacked(packed, size, position, out)
            &&& same_outside(start, after, output, written)
        }),
    decreases size - out.len(),
{
    let written = out.len() as int;
    if position < packed.len() && written < size {
        lemma_packed_byte(start, m, source, output, packed, written, position);
        let command = packed[position] as int;
        if command > 128 && position + 1 + (command - 128) <= packed.len() {
            let count = at_most(command - 128, size - written);
            let after = bytes_copied(
                m,
                offset(source, STREAM_HEADER + position + 1),
                offset(output, written),
                count,
            );
            lemma_literal_command(start, m, source, output, packed, size, position, out, count);
            lemma_commands_unpack(
                start,
                after,
                source,
                output,
                packed,
                size,
                position + 1 + count,
                out + packed.subrange(position + 1, position + 1 + count),
            );
        } else if 2 <= command < 128 && position + 1 < packed.len() {
            let count = at_most(command / 2, size - written);
            let distance = command % 2 * 256 + packed[position + 1];
            lemma_packed_byte(start, m, source, output, packed, written, position + 1);
            if 0 < distance <= written {
                let after = bytes_copied(
                    m,
                    offset(output, written - distance),
                    offset(output, written),
                    count,
                );
                lemma_copy_back(m, output, size, out, distance, count);
                lemma_repeated_len(out, distance, count);
                lemma_commands_unpack(
                    start,
                    after,
                    source,
                    output,
                    packed,
                    size,
                    position + 2,
                    repeated(out, distance, count),
                );
            }
        }
    }
}

impl MachineState {
    /// The packed bytes of the stream at `source`.
    pub open spec fn packed_bytes(self, source: u32) -> Seq<u8> {
        bytes_from(
            self.memory,
            offset(source, STREAM_HEADER as int),
            packed_size(self.memory, source) as nat,
        )
    }

    /// The block that the stream at `source` would be unpacked into is mapped, and no packed byte
    /// is overwritten by the output before it is read.
    pub open spec fn unpacks_intact(self, source: u32) -> bool {
        let size = unpacked_size(self.memory, source);
        let output = self.heap.next_block(size as u32);
        &&& block_mapped(self.memory, output, size)
        &&& read_in_time(self.packed_bytes(source), source, output, size, 0, 0)
    }
}

/// A stream is unpacked to what its packed bytes stand for, where the block that it is unpacked
/// into is mapped and no packed byte is overwritten before it is read. No other byte changes, not
/// even in the rest of the block.
pub proof fn law_stream_is_unpacked(state: MachineState, source: u32)
    requires
        state.wf(),
        state.unpacks(source),
        state.unpacks_intact(source),
    ensures
        ({
            let size = unpacked_size(state.memory, source);
            let output = state.heap.next_block(size as u32);
            let expected = unpacked(state.packed_bytes(source), size, 0, Seq::empty());
            let after = state.stream_decoded(source);
            &&& expected.len() <= size
            &&& bytes_from(after.memory, output, expected.len()) == expected
            &&& same_outside(state.memory, after.memory, output, expected.len() as int)
            &&& state.stream_block(source) == if expected.len() > 0 {
                output
            } else {
                0
            }
        }),
{
    let size = unpacked_size(state.memory, source);
    let output = state.heap.next_block(size as u32);
    let packed = state.packed_bytes(source);
    assert(bytes_from(state.memory, output, 0) =~= Seq::<u8>::empty());
    lemma_commands_unpack(
        state.memory,
        state.memory,
        source,
        output,
        packed,
        size,
        0,
        Seq::empty(),
    );
}

/// No byte of a stream is overwritten by an output that shares none with it.
proof fn lemma_apart_is_in_time(
    packed: Seq<u8>,
    source: u32,
    output: u32,
    size: int,
    position: int,
    written: int,
)
    requires
        0 <= position,
        0 <= written <= size,
        forall|i: int, j: int|
            #![trigger offset(source, STREAM_HEADER + i), offset(output, j)]
            0 <= i < packed.len() && 0 <= j < size ==> offset(source, STREAM_HEADER + i) != offset(
                output,
                j,
            ),
    ensures
        read_in_time(packed, source, output, size, position, written),
    decreases size - written,
{
    if position < packed.len() && written < size {
        let command = packed[position] as int;
        assert(spared(source, output, position, written));
        if command > 128 && position + 1 + (command - 128) <= packed.len() {
            let count = at_most(command - 128, size - written);
            assert forall|k: int| 0 <= k < count implies #[trigger] copied_in_time(
                source,
                output,
                position,
                written,
                k,
            ) by {
                assert(spared(source, output, position + 1 + k, written + k));
            }
            lemma_apart_is_in_time(
                packed,
                source,
                output,
                size,
                position + 1 + count,
                written + count,
            );
        } else if 2 <= command < 128 && position + 1 < packed.len() {
            let count = at_most(command / 2, size - written);
            assert(spared(source, output, position + 1, written));
            lemma_apart_is_in_time(packed, source, output, size, position + 2, written + count);
        }
    }
}

/// A stream that shares no byte with the mapped block that it is unpacked into is read before the
/// output could overwrite it.
pub proof fn law_separate_stream_is_intact(state: MachineState, source: u32)
    requires
        streams_apart(
            state.memory,
            source,
            state.heap.next_block(unpacked_size(state.memory, source) as u32),
            packed_size(state.memory, source),
            unpacked_size(state.memory, source),
        ),
    ensures
        state.unpacks_intact(source),
{
    let size = unpacked_size(state.memory, source);
    lemma_apart_is_in_time(
        state.packed_bytes(source),
        source,
        state.heap.next_block(size as u32),
        size,
        0,
        0,
    );
}

/// Copying inside the output block keeps every byte outside of it.
proof fn lemma_copy_stays(
    m: Map<u32, u8>,
    from: u32,
    output: u32,
    size: int,
    written: int,
    n: int,
)
    requires
        0 <= written,
        written + n <= size <= 0x1_0000_0000,
    ensures
        same_outside(m, bytes_copied(m, from, offset(output, written), n), output, size),
    decreases n,
{
    if n > 0 {
        lemma_copy_stays(m, from, output, size, written, n - 1);
        let before = bytes_copied(m, from, offset(output, written), n - 1);
        let at = offset(offset(output, written), n - 1);
        lemma_offset_adds(output, written, n - 1);
        assert(at.wrapping_sub(output) == written + n - 1);
        let after = bytes_copied(m, from, offset(output, written), n);
        assert(after.dom() =~= before.dom());
        assert forall|a: u32| a.wrapping_sub(output) >= size implies #[trigger] read8(after, a)
            == read8(m, a) by {
            assert(read8(before, a) == read8(m, a));
            assert(a != at);
        }
    }
}

/// Carrying out commands keeps every byte but those of the output that there is in the end.
proof fn lemma_commands_stay(
    m: Map<u32, u8>,
    source: u32,
    output: u32,
    packed: int,
    size: int,
    position: int,
    written: int,
)
    requires
        0 <= position,
        0 <= written <= size <= 0x1_0000_0000,
    ensures
        ({
            let (after, end) = commands_run(m, source, output, packed, size, position, written);
            same_outside(m, after, output, end) && written <= end <= size
        }),
    decreases size - written,
{
    if position < packed && written < size {
        let command = read8(m, offset(source, STREAM_HEADER + position));
        if command > 128 && position + 1 + (command - 128) <= packed {
            let count = at_most(command - 128, size - written);
            let from = offset(source, STREAM_HEADER + position + 1);
            let next = bytes_copied(m, from, offset(output, written), count);
            lemma_copy_stays(m, from, output, written + count, written, count);
            lemma_commands_stay(
                next,
                source,
                output,
                packed,
                size,
                position + 1 + count,
                written + count,
            );
        } else if 2 <= command < 128 && position + 1 < packed {
            let count = at_most(command as int / 2, size - written);
            let distance = command as int % 2 * 256 + read8(
                m,
                offset(source, STREAM_HEADER + position + 1),
            );
            if 0 < distance <= written {
                let from = offset(output, written - distance);
                let next = bytes_copied(m, from, offset(output, written), count);
                lemma_copy_stays(m, from, output, written + count, written, count);
                lemma_commands_stay(
                    next,
                    source,
                    output,
                    packed,
                    size,
                    position + 2,
                    written + count,
                );
            }
        }
    }
}

/// A byte of a block is as far from its start as its number says.
proof fn lemma_block_place(output: u32, j: int)
    requires
        0 <= j < 0x1_0000_0000,
    ensures
        offset(output, j).wrapping_sub(output) == j,
{
}

/// Unpacking a stream changes no byte but those that it yields, at the start of the block that was
/// allocated for it, whatever the stream holds and wherever it lies. It never yields more than the
/// stream announces. After a command that is not valid, the rest of the block is as it was.
pub proof fn law_stream_stays_in_its_block(state: MachineState, source: u32)
    requires
        state.wf(),
        state.unpacks(source),
    ensures
        ({
            let size = unpacked_size(state.memory, source);
            let output = state.heap.next_block(size as u32);
            let written = state.unpacked_to(source, output).1;
            let after = state.stream_decoded(source).memory;
            &&& 0 <= written <= size
            &&& same_outside(state.memory, after, output, written)
            &&& same_outside(state.memory, after, output, size)
            &&& forall|j: int|
                written <= j < size ==> #[trigger] read8(after, offset(output, j)) == read8(
                    state.memory,
                    offset(output, j),
                )
        }),
{
    let size = unpacked_size(state.memory, source);
    lemma_commands_stay(
        state.memory,
        source,
        state.heap.next_block(size as u32),
        packed_size(state.memory, source),
        size,
        0,
        0,
    );
    let output = state.heap.next_block(size as u32);
    let written = state.unpacked_to(source, output).1;
    let after = state.stream_decoded(source).memory;
    assert forall|j: int| written <= j < size implies #[trigger] read8(after, offset(output, j))
        == read8(state.memory, offset(output, j)) by {
        lemma_block_place(output, j);
    }
}

/// The bytes of some chunks, one after the other.
pub open spec fn joined_chunks(chunks: Seq<Seq<u8>>) -> Seq<u8>
    decreases chunks.len(),
{
    if chunks.len() == 0 {
        Seq::empty()
    } else {
        joined_chunks(chunks.drop_last()) + chunks.last()
    }
}

/// Chunks packed without repetition: each as a command that copies it and the bytes to copy.
pub open spec fn packed_chunks(chunks: Seq<Seq<u8>>) -> Seq<u8>
    decreases chunks.len(),
{
    if chunks.len() == 0 {
        Seq::empty()
    } else {
        packed_chunks(chunks.drop_last()) + seq![(128 + chunks.last().len()) as u8] + chunks.last()
    }
}

/// A command can say how long each chunk is.
pub open spec fn chunks_fit(chunks: Seq<Seq<u8>>) -> bool {
    forall|i: int| 0 <= i < chunks.len() ==> 1 <= (#[trigger] chunks[i]).len() <= 127
}

/// Unpacking goes on behind the chunks that packed bytes start with, once these are unpacked.
proof fn lemma_chunks_unpack(chunks: Seq<Seq<u8>>, rest: Seq<u8>, size: int)
    requires
        chunks_fit(chunks),
        joined_chunks(chunks).len() <= size,
    ensures
        unpacked(packed_chunks(chunks) + rest, size, 0, Seq::empty()) == unpacked(
            packed_chunks(chunks) + rest,
            size,
            packed_chunks(chunks).len() as int,
            joined_chunks(chunks),
        ),
    decreases chunks.len(),
{
    if chunks.len() > 0 {
        let before = chunks.drop_last();
        let chunk = chunks.last();
        assert forall|i: int| 0 <= i < before.len() implies 1 <= (
        #[trigger] before[i]).len() <= 127 by {
            assert(before[i] == chunks[i]);
        }
        assert(chunks[chunks.len() - 1] == chunk);
        let command = seq![(128 + chunk.len()) as u8];
        let packed = packed_chunks(chunks) + rest;
        let position = packed_chunks(before).len() as int;
        assert(packed =~= packed_chunks(before) + (command + chunk + rest));
        lemma_chunks_unpack(before, command + chunk + rest, size);
        assert(packed[position] == 128 + chunk.len());
        assert(packed.subrange(position + 1, position + 1 + chunk.len()) =~= chunk);
        assert(packed_chunks(chunks).len() == position + 1 + chunk.len());
    }
}

/// Unpacking undoes packing without repetition: of bytes that are cut into chunks, each packed as
/// a command that copies it, unpacking yields the bytes. What follows the last chunk does not
/// matter.
pub proof fn law_packed_chunks_unpack(chunks: Seq<Seq<u8>>, rest: Seq<u8>)
    requires
        chunks_fit(chunks),
    ensures
        unpacked(
            packed_chunks(chunks) + rest,
            joined_chunks(chunks).len() as int,
            0,
            Seq::empty(),
        ) == joined_chunks(chunks),
{
    lemma_chunks_unpack(chunks, rest, joined_chunks(chunks).len() as int);
}

/// A stream that holds bytes packed without repetition, and announces their number, is unpacked
/// to these bytes, where the block that it is unpacked into is mapped and no packed byte is
/// overwritten before it is read.
pub proof fn law_packed_stream_reads_back(state: MachineState, source: u32, chunks: Seq<Seq<u8>>)
    requires
        state.wf(),
        state.unpacks(source),
        state.unpacks_intact(source),
        chunks_fit(chunks),
        unpacked_size(state.memory, source) == joined_chunks(chunks).len(),
        state.packed_bytes(source) == packed_chunks(chunks),
    ensures
        ({
            let block = state.stream_block(source);
            let data = joined_chunks(chunks);
            &&& block != 0
            &&& bytes_from(state.stream_decoded(source).memory, block, data.len()) == data
        }),
{
    law_stream_is_unpacked(state, source);
    law_packed_chunks_unpack(chunks, Seq::empty());
    assert(packed_chunks(chunks) + Seq::<u8>::empty() =~= packed_chunks(chunks));
}

/// Two memories map the same bytes and hold the same packed bytes and the same first `written`
/// bytes of output.
spec fn same_progress(
    one: Map<u32, u8>,
    two: Map<u32, u8>,
    source: u32,
    output: u32,
    packed: int,
    written: int,
) -> bool {
    &&& one.dom() == two.dom()
    &&& forall|i: int|
        0 <= i < packed ==> #[trigger] read8(one, offset(source, STREAM_HEADER + i)) == read8(
            two,
            offset(source, STREAM_HEADER + i),
        )
    &&& forall|j: int|
        0 <= j < written ==> #[trigger] read8(one, offset(output, j)) == read8(
            two,
            offset(output, j),
        )
}

/// Where two memories hold the same byte, they do so later.
spec fn agreement_kept(
    one: Map<u32, u8>,
    two: Map<u32, u8>,
    one_after: Map<u32, u8>,
    two_after: Map<u32, u8>,
) -> bool {
    &&& one_after.dom() == two_after.dom()
    &&& forall|a: u32|
        read8(one, a) == read8(two, a) ==> #[trigger] read8(one_after, a) == read8(two_after, a)
}

/// Copying bytes that are the same in two memories, or that the copy itself has written, writes
/// the same bytes to both.
proof fn lemma_copies_agree(one: Map<u32, u8>, two: Map<u32, u8>, from: u32, to: u32, n: int)
    requires
        one.dom() == two.dom(),
        forall|i: int|
            0 <= i < n ==> read8(one, #[trigger] offset(from, i)) == read8(two, offset(from, i))
                || exists|j: int| 0 <= j < i && #[trigger] offset(to, j) == offset(from, i),
    ensures
        agreement_kept(
            one,
            two,
            bytes_copied(one, from, to, n),
            bytes_copied(two, from, to, n),
        ),
        forall|j: int|
            0 <= j < n ==> #[trigger] read8(bytes_copied(one, from, to, n), offset(to, j))
                == read8(bytes_copied(two, from, to, n), offset(to, j)),
    decreases n,
{
    if n > 0 {
        lemma_copies_agree(one, two, from, to, n - 1);
        let before = bytes_copied(one, from, to, n - 1);
        let other = bytes_copied(two, from, to, n - 1);
        let a = offset(from, n - 1);
        assert(read8(before, a) == read8(other, a)) by {
            if read8(one, a) != read8(two, a) {
                let j = choose|j: int| 0 <= j < n - 1 && #[trigger] offset(to, j) == a;
                assert(read8(before, offset(to, j)) == read8(other, offset(to, j)));
            }
        }
        let v = read8(before, a);
        let at = offset(to, n - 1);
        assert(write8(before, at, v).dom() =~= write8(other, at, v).dom());
        assert forall|b: u32| read8(before, b) == read8(other, b) implies #[trigger] read8(
            write8(before, at, v),
            b,
        ) == read8(write8(other, at, v), b) by {}
        assert(read8(write8(before, at, v), at) == read8(write8(other, at, v), at));
        assert forall|j: int| 0 <= j < n implies #[trigger] read8(
            bytes_copied(one, from, to, n),
            offset(to, j),
        ) == read8(bytes_copied(two, from, to, n), offset(to, j)) by {
            if j < n - 1 {
                assert(read8(before, offset(to, j)) == read8(other, offset(to, j)));
            }
        }
    }
}

/// One more command that copies the same bytes in two memories keeps their progress the same.
proof fn lemma_progress_agrees(
    one: Map<u32, u8>,
    two: Map<u32, u8>,
    source: u32,
    output: u32,
    packed: int,
    written: int,
    from: u32,
    count: int,
)
    requires
        same_progress(one, two, source, output, packed, written),
        0 <= written,
        0 <= count,
        forall|i: int|
            0 <= i < count ==> read8(one, #[trigger] offset(from, i)) == read8(
                two,
                offset(from, i),
            ) || exists|j: int|
                0 <= j < i && #[trigger] offset(offset(output, written), j) == offset(from, i),
    ensures
        ({
            let to = offset(output, written);
            let one_after = bytes_copied(one, from, to, count);
            let two_after = bytes_copied(two, from, to, count);
            &&& same_progress(one_after, two_after, source, output, packed, written + count)
            &&& agreement_kept(one, two, one_after, two_after)
        }),
{
    let to = offset(output, written);
    let one_after = bytes_copied(one, from, to, count);
    let two_after = bytes_copied(two, from, to, count);
    lemma_copies_agree(one, two, from, to, count);
    assert forall|i: int| 0 <= i < packed implies #[trigger] read8(
        one_after,
        offset(source, STREAM_HEADER + i),
    ) == read8(two_after, offset(source, STREAM_HEADER + i)) by {
        assert(read8(one, offset(source, STREAM_HEADER + i)) == read8(
            two,
            offset(source, STREAM_HEADER + i),
        ));
    }
    assert forall|j: int| 0 <= j < written + count implies #[trigger] read8(
        one_after,
        offset(output, j),
    ) == read8(two_after, offset(output, j)) by {
        if j < written {
            assert(read8(one, offset(output, j)) == read8(two, offset(output, j)));
        } else {
            lemma_offset_adds(output, written, j - written);
            assert(read8(one_after, offset(to, j - written)) == read8(
                two_after,
                offset(to, j - written),
            ));
        }
    }
}

/// Carrying out commands on two memories with the same progress yields the same output. Only the
/// first `limit` packed bytes have to be the same if no others are read: a command takes at most
/// two packed bytes for each byte of output.
proof fn lemma_commands_agree(
    one: Map<u32, u8>,
    two: Map<u32, u8>,
    source: u32,
    output: u32,
    packed: int,
    size: int,
    position: int,
    written: int,
    limit: int,
)
    requires
        0 <= position,
        0 <= written,
        packed <= limit || (position <= 2 * written && 2 * size < limit),
        same_progress(one, two, source, output, limit, written),
    ensures
        ({
            let (one_after, end) = commands_run(
                one,
                source,
                output,
                packed,
                size,
                position,
                written,
            );
            let (two_after, other_end) = commands_run(
                two,
                source,
                output,
                packed,
                size,
                position,
                written,
            );
            &&& end == other_end
            &&& same_progress(one_after, two_after, source, output, limit, end)
            &&& agreement_kept(one, two, one_after, two_after)
        }),
    decreases size - written,
{
    if position < packed && written < size {
        let command = read8(one, offset(source, STREAM_HEADER + position));
        let to = offset(output, written);
        if command > 128 && position + 1 + (command - 128) <= packed {
            let count = at_most(command - 128, size - written);
            let from = offset(source, STREAM_HEADER + position + 1);
            assert forall|i: int| 0 <= i < count implies read8(
                one,
                #[trigger] offset(from, i),
            ) == read8(two, offset(from, i)) by {
                lemma_offset_adds(source, STREAM_HEADER + position + 1, i);
                let k = position + 1 + i;
                assert(read8(one, offset(source, STREAM_HEADER + k)) == read8(
                    two,
                    offset(source, STREAM_HEADER + k),
                ));
            }
            lemma_progress_agrees(one, two, source, output, limit, written, from, count);
            lemma_commands_agree(
                bytes_copied(one, from, to, count),
                bytes_copied(two, from, to, count),
                source,
                output,
                packed,
                size,
                position + 1 + count,
                written + count,
                limit,
            );
        } else if 2 <= command < 128 && position + 1 < packed {
            let count = at_most(command as int / 2, size - written);
            let k = position + 1;
            assert(read8(one, offset(source, STREAM_HEADER + k)) == read8(
                two,
                offset(source, STREAM_HEADER + k),
            ));
            let distance = command as int % 2 * 256 + read8(
                one,
                offset(source, STREAM_HEADER + position + 1),
            );
            if 0 < distance <= written {
                let from = offset(output, written - distance);
                assert forall|i: int| 0 <= i < count implies read8(
                    one,
                    #[trigger] offset(from, i),
                ) == read8(two, offset(from, i)) || exists|j: int|
                    0 <= j < i && #[trigger] offset(to, j) == offset(from, i) by {
                    lemma_offset_adds(output, written - distance, i);
                    if i < distance {
                        let j = written - distance + i;
                        assert(read8(one, offset(output, j)) == read8(two, offset(output, j)));
                    } else {
                        lemma_offset_adds(output, written, i - distance);
                        assert(offset(to, i - distance) == offset(from, i));
                    }
                }
                lemma_progress_agrees(one, two, source, output, limit, written, from, count);
                lemma_commands_agree(
                    bytes_copied(one, from, to, count),
                    bytes_copied(two, from, to, count),
                    source,
                    output,
                    packed,
                    size,
                    position + 2,
                    written + count,
                    limit,
                );
            }
        }
    }
}

/// The byte at `a` does not count for the stream at `source`: it is the byte that the stream
/// starts with, or lies behind the packed bytes.
pub open spec fn stream_skips(m: Map<u32, u8>, source: u32, a: u32) -> bool {
    a == source || a.wrapping_sub(source) >= STREAM_HEADER + packed_size(m, source)
}

/// The byte that a stream starts with, the highest bit of the length that it announces and what
/// lies behind its packed bytes do not matter: where two machines differ in these alone, the
/// stream is unpacked into the same block with the same result and the same bytes, even where it
/// overlaps the block, and every byte that was the same in both stays so. Only a
/// stream of two gigabytes whose packed bytes would run round the address space into its own start
/// is left out.
pub proof fn law_only_sizes_and_packed_bytes_count(
    state: MachineState,
    other: MachineState,
    source: u32,
)
    requires
        state.heap == other.heap,
        state.memory.dom() == other.memory.dom(),
        state.unpacks(source) ==> STREAM_HEADER + packed_size(state.memory, source)
            <= 0x1_0000_0000 || unpacked_size(state.memory, source) < 0x7fff_fffc,
        read8(state.memory, offset(source, 5)) % 128 == read8(other.memory, offset(source, 5))
            % 128,
        forall|a: u32|
            a != offset(source, 5) && !stream_skips(state.memory, source, a) ==> #[trigger] read8(
                state.memory,
                a,
            ) == read8(other.memory, a),
    ensures
        ({
            let output = state.heap.next_block(unpacked_size(state.memory, source) as u32);
            let written = state.unpacked_to(source, output).1;
            let one = state.stream_decoded(source);
            let two = other.stream_decoded(source);
            &&& state.unpacks(source) == other.unpacks(source)
            &&& state.stream_block(source) == other.stream_block(source)
            &&& one.heap == two.heap
            &&& state.unpacks(source) ==> {
                &&& other.unpacked_to(source, output).1 == written
                &&& bytes_from(one.memory, output, written as nat) == bytes_from(
                    two.memory,
                    output,
                    written as nat,
                )
            }
            &&& forall|a: u32|
                read8(state.memory, a) == read8(other.memory, a) ==> #[trigger] read8(
                    one.memory,
                    a,
                ) == read8(two.memory, a)
        }),
{
    let m = state.memory;
    let n = other.memory;
    lemma_sizes_agree(m, n, source);
    let packed = packed_size(m, source);
    let size = unpacked_size(m, source);
    let output = state.heap.next_block(size as u32);
    if state.unpacks(source) {
        let limit = if STREAM_HEADER + packed <= 0x1_0000_0000 {
            packed
        } else {
            0x1_0000_0000 - STREAM_HEADER
        };
        lemma_packed_bytes_agree(m, n, source, output, limit);
        lemma_commands_agree(m, n, source, output, packed, size, 0, 0, limit);
        lemma_commands_stay(m, source, output, packed, size, 0, 0);
        let written = state.unpacked_to(source, output).1;
        let one = state.stream_decoded(source).memory;
        let two = other.stream_decoded(source).memory;
        assert forall|j: int| 0 <= j < written as nat implies #[trigger] bytes_from(
            one,
            output,
            written as nat,
        )[j] == bytes_from(two, output, written as nat)[j] by {
            assert(read8(one, offset(output, j)) == read8(two, offset(output, j)));
        }
        assert(bytes_from(one, output, written as nat) =~= bytes_from(
            two,
            output,
            written as nat,
        ));
    }
}

/// The packed bytes that lie before the stream's own start are among the bytes that count.
proof fn lemma_packed_bytes_agree(
    one: Map<u32, u8>,
    two: Map<u32, u8>,
    source: u32,
    output: u32,
    limit: int,
)
    requires
        one.dom() == two.dom(),
        limit <= packed_size(one, source),
        STREAM_HEADER + limit <= 0x1_0000_0000,
        forall|a: u32|
            a != offset(source, 5) && !stream_skips(one, source, a) ==> #[trigger] read8(one, a)
                == read8(two, a),
    ensures
        same_progress(one, two, source, output, limit, 0),
{
    assert forall|i: int| 0 <= i < limit implies #[trigger] read8(
        one,
        offset(source, STREAM_HEADER + i),
    ) == read8(two, offset(source, STREAM_HEADER + i)) by {
        let a = offset(source, STREAM_HEADER + i);
        lemma_block_place(source, STREAM_HEADER + i);
        lemma_block_place(source, 5);
        lemma_block_place(source, 0);
        assert(!stream_skips(one, source, a));
    }
}

/// The sizes that a stream announces come from the bytes that count.
proof fn lemma_sizes_agree(one: Map<u32, u8>, two: Map<u32, u8>, source: u32)
    requires
        read8(one, offset(source, 5)) % 128 == read8(two, offset(source, 5)) % 128,
        forall|a: u32|
            a != offset(source, 5) && !stream_skips(one, source, a) ==> #[trigger] read8(one, a)
                == read8(two, a),
    ensures
        packed_size(one, source) == packed_size(two, source),
        unpacked_size(one, source) == unpacked_size(two, source),
{
    assert forall|k: int| 1 <= k < 9 && k != 5 implies #[trigger] read8(one, offset(source, k))
        == read8(two, offset(source, k)) by {
        assert(offset(source, k).wrapping_sub(source) == k);
        assert(offset(source, 5).wrapping_sub(source) == 5);
    }
    lemma_word_steps(source, 1);
    lemma_word_steps(source, 5);
    assert(read8(one, offset(source, 1)) == read8(two, offset(source, 1)));
    assert(read8(one, offset(source, 2)) == read8(two, offset(source, 2)));
    assert(read8(one, offset(source, 3)) == read8(two, offset(source, 3)));
    assert(read8(one, offset(source, 4)) == read8(two, offset(source, 4)));
    assert(read8(one, offset(source, 6)) == read8(two, offset(source, 6)));
    assert(read8(one, offset(source, 7)) == read8(two, offset(source, 7)));
    assert(read8(one, offset(source, 8)) == read8(two, offset(source, 8)));
}

/// The bytes of a word in a stream's header are found by stepping on.
proof fn lemma_word_steps(source: u32, k: int)
    ensures
        offset(offset(source, k), 1) == offset(source, k + 1),
        offset(offset(source, k), 2) == offset(source, k + 2),
        offset(offset(source, k), 3) == offset(source, k + 3),
{
    lemma_offset_adds(source, k, 1);
    lemma_offset_adds(source, k, 2);
    lemma_offset_adds(source, k, 3);
}

} // verus!
