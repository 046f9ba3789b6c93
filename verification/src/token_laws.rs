//! What compressed streams mean: the tokens that packed bytes encode and the bytes that the tokens
//! denote, without regard to how a stream is unpacked.

use vstd::prelude::*;

use crate::heap::{law_request_takes_next_words, Block};
use crate::machine::MachineState;
use crate::memory::{bytes_from, law_offset_steps_on, offset, read8};
use crate::stream::{lemma_repeated_len, packed_size, repeated, unpacked, unpacked_size};
use crate::stream_laws::{law_separate_stream_is_intact, law_stream_is_unpacked};

verus! {

/// A part of a stream's meaning: bytes as they are, or a repetition of what came before.
pub enum Token {
    Literal(Seq<u8>),
    Repeat { count: int, distance: int },
}

/// The packed bytes of a token.
pub open spec fn token_bytes(token: Token) -> Seq<u8> {
    match token {
        Token::Literal(bytes) => seq![(128 + bytes.len()) as u8] + bytes,
        Token::Repeat { count, distance } => seq![
            (2 * count + distance / 256) as u8,
            (distance % 256) as u8,
        ],
    }
}

/// A token can be packed behind as many bytes of output.
pub open spec fn token_fits(token: Token, written: int) -> bool {
    match token {
        Token::Literal(bytes) => 1 <= bytes.len() <= 127,
        Token::Repeat { count, distance } => 1 <= count <= 63 && 1 <= distance <= 511 && distance
            <= written,
    }
}

/// Bytes with `count` more, which go through the last `distance` of them over and over.
pub open spec fn cycled(bytes: Seq<u8>, count: int, distance: int) -> Seq<u8> {
    Seq::new(
        (bytes.len() + count) as nat,
        |i: int|
            if i < bytes.len() {
                bytes[i]
            } else {
                bytes[bytes.len() - distance + (i - bytes.len()) % distance]
            },
    )
}

/// Bytes with what a token adds to them.
pub open spec fn with_token(bytes: Seq<u8>, token: Token) -> Seq<u8> {
    match token {
        Token::Literal(more) => bytes + more,
        Token::Repeat { count, distance } => cycled(bytes, count, distance),
    }
}

/// The bytes that tokens denote.
pub open spec fn denoted(tokens: Seq<Token>) -> Seq<u8>
    decreases tokens.len(),
{
    if tokens.len() == 0 {
        Seq::empty()
    } else {
        with_token(denoted(tokens.drop_last()), tokens.last())
    }
}

/// The packed bytes of tokens.
pub open spec fn encoded(tokens: Seq<Token>) -> Seq<u8>
    decreases tokens.len(),
{
    if tokens.len() == 0 {
        Seq::empty()
    } else {
        encoded(tokens.drop_last()) + token_bytes(tokens.last())
    }
}

/// Every token can be packed behind those before it.
pub open spec fn tokens_fit(tokens: Seq<Token>) -> bool
    decreases tokens.len(),
{
    tokens.len() == 0 || tokens_fit(tokens.drop_last()) && token_fits(
        tokens.last(),
        denoted(tokens.drop_last()).len() as int,
    )
}

/// No token starts the bytes: there are none, or they start with a command that copies nothing,
/// that lacks some of its bytes, or that reaches back to no output.
pub open spec fn no_token_starts(rest: Seq<u8>, written: int) -> bool {
    ||| rest.len() == 0
    ||| rest[0] <= 1
    ||| rest[0] == 128
    ||| rest[0] > 128 && rest.len() - 1 < rest[0] - 128
    ||| rest[0] < 128 && rest.len() == 1
    ||| rest[0] < 128 && rest[0] % 2 == 0 && rest[1] == 0
    ||| rest[0] < 128 && rest[0] as int % 2 * 256 + rest[1] > written
}

/// A repetition repeats: each byte that it adds is the one as far back as its distance says.
pub proof fn law_cycle_repeats_at_distance(bytes: Seq<u8>, count: int, distance: int, i: int)
    requires
        0 < distance <= bytes.len(),
        bytes.len() <= i < bytes.len() + count,
    ensures
        cycled(bytes, count, distance).len() == bytes.len() + count,
        cycled(bytes, count, distance)[i] == cycled(bytes, count, distance)[i - distance],
{
    let n = i - bytes.len();
    if n < distance {
        vstd::arithmetic::div_mod::lemma_small_mod(n as nat, distance as nat);
    } else {
        vstd::arithmetic::div_mod::lemma_mod_sub_multiples_vanish(n, distance);
    }
}

/// Repeating byte by byte goes through the last bytes over and over.
proof fn lemma_repeated_is_cycled(out: Seq<u8>, distance: int, n: int)
    requires
        0 <= n,
        0 < distance <= out.len(),
    ensures
        repeated(out, distance, n) == cycled(out, n, distance),
    decreases n,
{
    lemma_repeated_len(out, distance, n);
    if n == 0 {
        assert(cycled(out, 0, distance) =~= out);
    } else {
        lemma_repeated_is_cycled(out, distance, n - 1);
        let before = cycled(out, n - 1, distance);
        let i = out.len() + n - 1;
        law_cycle_repeats_at_distance(out, n, distance, i);
        assert(before[i - distance] == cycled(out, n, distance)[i - distance]);
        assert(before.push(before[i - distance]) =~= cycled(out, n, distance));
    }
}

/// A shorter cycle is the start of a longer one.
proof fn lemma_cycle_starts_alike(out: Seq<u8>, distance: int, n: int, more: int)
    requires
        0 <= n <= more,
    ensures
        cycled(out, n, distance) == cycled(out, more, distance).take(out.len() + n),
{
    assert(cycled(out, n, distance) =~= cycled(out, more, distance).take(out.len() + n));
}

/// The part of some bytes that there is room for.
pub open spec fn cut(bytes: Seq<u8>, size: int) -> Seq<u8> {
    if bytes.len() >= size {
        bytes.take(size)
    } else {
        bytes
    }
}

/// Unpacking one token adds what it denotes, cut off where the output is full.
proof fn lemma_token_unpacks(
    packed: Seq<u8>,
    size: int,
    position: int,
    out: Seq<u8>,
    token: Token,
)
    requires
        token_fits(token, out.len() as int),
        0 <= position,
        position + token_bytes(token).len() <= packed.len(),
        packed.subrange(position, position + token_bytes(token).len()) == token_bytes(token),
        out.len() < size,
    ensures
        ({
            let more = with_token(out, token);
            &&& more.len() > out.len()
            &&& more.take(out.len() as int) == out
            &&& more.len() >= size ==> unpacked(packed, size, position, out) == more.take(size)
            &&& more.len() < size ==> unpacked(packed, size, position, out) == unpacked(
                packed,
                size,
                position + token_bytes(token).len(),
                more,
            )
        }),
{
    let code = token_bytes(token);
    let more = with_token(out, token);
    assert(packed[position] == code[0]) by {
        assert(packed.subrange(position, position + code.len())[0] == code[0]);
    }
    match token {
        Token::Literal(bytes) => {
            assert(code[0] == 128 + bytes.len());
            let count = if bytes.len() < size - out.len() {
                bytes.len() as int
            } else {
                size - out.len()
            };
            let part = packed.subrange(position + 1, position + 1 + count);
            assert forall|i: int| 0 <= i < count implies #[trigger] part[i] == bytes[i] by {
                assert(packed.subrange(position, position + code.len())[i + 1] == code[i + 1]);
            }
            assert(part =~= bytes.take(count));
            let next = out + part;
            assert(next =~= more.take(out.len() + count));
            assert(more.take(out.len() as int) =~= out);
            assert(more.take(more.len() as int) =~= more);
            assert(unpacked(packed, size, position, out) == unpacked(
                packed,
                size,
                position + 1 + count,
                next,
            ));
            if next.len() >= size {
                assert(unpacked(packed, size, position + 1 + count, next) == next);
            }
        },
        Token::Repeat { count, distance } => {
            assert(packed[position + 1] == code[1]) by {
                assert(packed.subrange(position, position + code.len())[1] == code[1]);
            }
            let command = packed[position] as int;
            lemma_repeat_command(count, distance);
            assert(command / 2 == count);
            assert(command % 2 * 256 + packed[position + 1] == distance);
            let some = if count < size - out.len() {
                count
            } else {
                size - out.len()
            };
            lemma_repeated_len(out, distance, some);
            lemma_repeated_is_cycled(out, distance, some);
            lemma_cycle_starts_alike(out, distance, some, count);
            assert(more.take(out.len() as int) =~= out);
            assert(more.take(more.len() as int) =~= more);
            let next = repeated(out, distance, some);
            assert(unpacked(packed, size, position, out) == unpacked(
                packed,
                size,
                position + 2,
                next,
            ));
            if next.len() >= size {
                assert(unpacked(packed, size, position + 2, next) == next);
            }
        },
    }
}

/// The two bytes of a repetition hold its length and its distance.
proof fn lemma_repeat_command(count: int, distance: int)
    requires
        1 <= count <= 63,
        1 <= distance <= 511,
    ensures
        2 <= 2 * count + distance / 256 < 128,
        (2 * count + distance / 256) / 2 == count,
        (2 * count + distance / 256) % 2 * 256 + distance % 256 == distance,
{
}

/// Unpacking goes through tokens one by one.
proof fn lemma_tokens_unpack(tokens: Seq<Token>, rest: Seq<u8>, size: int)
    requires
        tokens_fit(tokens),
        0 <= size,
    ensures
        ({
            let packed = encoded(tokens) + rest;
            let result = unpacked(packed, size, 0, Seq::empty());
            if denoted(tokens).len() >= size {
                result == denoted(tokens).take(size)
            } else {
                result == unpacked(
                    packed,
                    size,
                    encoded(tokens).len() as int,
                    denoted(tokens),
                )
            }
        }),
    decreases tokens.len(),
{
    if tokens.len() == 0 {
        assert(denoted(tokens).take(0) =~= Seq::<u8>::empty());
    } else {
        let before = tokens.drop_last();
        let code = token_bytes(tokens.last());
        let packed = encoded(tokens) + rest;
        let position = encoded(before).len() as int;
        assert(packed =~= encoded(before) + (code + rest));
        lemma_tokens_unpack(before, code + rest, size);
        let out = denoted(before);
        if out.len() >= size {
            match tokens.last() {
                Token::Literal(_) => {},
                Token::Repeat { .. } => {},
            }
            assert(denoted(tokens).take(size) =~= out.take(size));
        } else {
            assert(packed.subrange(position, position + code.len()) =~= code);
            lemma_token_unpacks(packed, size, position, out, tokens.last());
        }
    }
}

/// Unpacking yields what the packed tokens denote, cut off at the announced size. It ends with the
/// tokens, or before the first bytes that are no token.
pub proof fn law_tokens_unpack(tokens: Seq<Token>, rest: Seq<u8>, size: int)
    requires
        tokens_fit(tokens),
        0 <= size,
        denoted(tokens).len() >= size || no_token_starts(rest, denoted(tokens).len() as int),
    ensures
        unpacked(encoded(tokens) + rest, size, 0, Seq::empty()) == cut(denoted(tokens), size),
{
    let packed = encoded(tokens) + rest;
    let position = encoded(tokens).len() as int;
    lemma_tokens_unpack(tokens, rest, size);
    if denoted(tokens).len() < size && rest.len() > 0 {
        assert(packed[position] == rest[0]);
        if rest.len() > 1 {
            assert(packed[position + 1] == rest[1]);
        }
    }
}

/// All packed bytes are tokens up to some place from which on they are none: unpacking is defined
/// by the tokens alone, whatever the bytes are.
pub proof fn law_packed_bytes_are_tokens(packed: Seq<u8>) -> (found: (Seq<Token>, Seq<u8>))
    ensures
        packed == encoded(found.0) + found.1,
        tokens_fit(found.0),
        no_token_starts(found.1, denoted(found.0).len() as int),
{
    lemma_token_prefix(packed, Seq::empty(), packed)
}

/// Tokens can be taken off the front of packed bytes until none is left.
proof fn lemma_token_prefix(packed: Seq<u8>, tokens: Seq<Token>, rest: Seq<u8>) -> (found: (
    Seq<Token>,
    Seq<u8>,
))
    requires
        packed == encoded(tokens) + rest,
        tokens_fit(tokens),
    ensures
        packed == encoded(found.0) + found.1,
        tokens_fit(found.0),
        no_token_starts(found.1, denoted(found.0).len() as int),
    decreases rest.len(),
{
    let written = denoted(tokens).len() as int;
    if no_token_starts(rest, written) {
        (tokens, rest)
    } else {
        let token = if rest[0] > 128 {
            Token::Literal(rest.subrange(1, 1 + (rest[0] - 128)))
        } else {
            Token::Repeat {
                count: rest[0] as int / 2,
                distance: rest[0] as int % 2 * 256 + rest[1],
            }
        };
        let code = token_bytes(token);
        assert(rest.take(code.len() as int) =~= code);
        let left = rest.skip(code.len() as int);
        let all = tokens.push(token);
        assert(all.drop_last() =~= tokens);
        assert(encoded(all) + left =~= packed);
        lemma_token_prefix(packed, all, left)
    }
}

/// The big-endian word that four bytes of a stream's header hold.
pub open spec fn header_word(m: Map<u32, u8>, source: u32, k: int) -> int {
    read8(m, offset(source, k)) * 0x100_0000 + read8(m, offset(source, k + 1)) * 0x1_0000 + read8(
        m,
        offset(source, k + 2),
    ) * 0x100 + read8(m, offset(source, k + 3))
}

/// A stream's header holds the length of the packed bytes and that of the output, big-endian, in
/// the eight bytes behind the first; the highest bit of the output's length does not count.
pub proof fn law_stream_header(m: Map<u32, u8>, source: u32)
    ensures
        packed_size(m, source) == header_word(m, source, 1),
        unpacked_size(m, source) == header_word(m, source, 5) % 0x8000_0000,
{
    law_offset_steps_on(source, 1, 1);
    law_offset_steps_on(source, 1, 2);
    law_offset_steps_on(source, 1, 3);
    law_offset_steps_on(source, 5, 1);
    law_offset_steps_on(source, 5, 2);
    law_offset_steps_on(source, 5, 3);
}

/// The service that unpacks a stream hands out a block of the announced size, which holds what the
/// stream's tokens denote; nothing else changes. The stream must not share a byte with the block,
/// which must be mapped.
pub proof fn law_stream_service_yields_tokens(
    state: MachineState,
    tokens: Seq<Token>,
    rest: Seq<u8>,
    rounded: int,
)
    requires
        state.wf(),
        ({
            let source = state.registers[0];
            let packed = encoded(tokens) + rest;
            let size = header_word(state.memory, source, 5) % 0x8000_0000;
            let output = (state.heap.base + state.heap.used) as u32;
            &&& source != 0
            &&& packed.len() > 0
            &&& packed.len() == header_word(state.memory, source, 1)
            &&& forall|i: int|
                0 <= i < packed.len() ==> #[trigger] packed[i] == read8(
                    state.memory,
                    offset(source, 9 + i),
                )
            &&& size > 0
            &&& rounded % 4 == 0 && size <= rounded < size + 4
            &&& state.heap.used + rounded <= state.heap.size
            &&& forall|j: int|
                0 <= j < size ==> state.memory.dom().contains(#[trigger] offset(output, j))
            &&& forall|i: int, j: int|
                #![trigger offset(source, 9 + i), offset(output, j)]
                0 <= i < packed.len() && 0 <= j < size ==> offset(source, 9 + i) != offset(
                    output,
                    j,
                )
            &&& denoted(tokens).len() >= size || no_token_starts(
                rest,
                denoted(tokens).len() as int,
            )
        }),
        tokens_fit(tokens),
    ensures
        ({
            let size = header_word(state.memory, state.registers[0], 5) % 0x8000_0000;
            let output = (state.heap.base + state.heap.used) as u32;
            let data = cut(denoted(tokens), size);
            let after = state.game_lcd_service(20);
            &&& after.registers[0] == if data.len() > 0 {
                output
            } else {
                0
            }
            &&& forall|j: int|
                0 <= j < data.len() ==> read8(after.memory, offset(output, j)) == #[trigger] data[j]
            &&& forall|a: u32|
                a.wrapping_sub(output) >= data.len() ==> #[trigger] read8(after.memory, a) == read8(
                    state.memory,
                    a,
                )
            &&& after.heap.used == state.heap.used + rounded
            &&& after.heap.blocks == state.heap.blocks.push(
                (Block { address: output, size: size as u32 }),
            )
        }),
{
    let source = state.registers[0];
    let packed = encoded(tokens) + rest;
    let size = header_word(state.memory, source, 5) % 0x8000_0000;
    let output = (state.heap.base + state.heap.used) as u32;
    law_stream_header(state.memory, source);
    law_request_takes_next_words(state.heap, size as u32, rounded);
    assert(state.unpacks(source));
    law_separate_stream_is_intact(state, source);
    law_stream_is_unpacked(state, source);
    law_tokens_unpack(tokens, rest, size);
    assert(state.packed_bytes(source) =~= packed) by {
        assert forall|i: int| 0 <= i < packed.len() implies #[trigger] state.packed_bytes(source)[i]
            == packed[i] by {
            law_offset_steps_on(source, 9, i);
        }
    }
    let data = cut(denoted(tokens), size);
    let after = state.game_lcd_service(20);
    assert(after.memory == state.stream_decoded(source).memory);
    assert(bytes_from(after.memory, output, data.len()) == data);
    assert forall|j: int| 0 <= j < data.len() implies read8(after.memory, offset(output, j))
        == #[trigger] data[j] by {
        assert(bytes_from(after.memory, output, data.len())[j] == data[j]);
    }
}

/// A stream that is not there, announces no packed bytes or no output, or an output that the heap
/// has no room for, is answered with zero and changes nothing.
pub proof fn law_stream_service_refuses(state: MachineState, rounded: int)
    requires
        state.wf(),
        ({
            let source = state.registers[0];
            let size = header_word(state.memory, source, 5) % 0x8000_0000;
            &&& rounded % 4 == 0 && size <= rounded < size + 4
            &&& source == 0 || header_word(state.memory, source, 1) == 0 || size == 0
                || state.heap.used + rounded > state.heap.size
        }),
    ensures
        state.game_lcd_service(20) == (MachineState {
            registers: state.registers.update(0, 0),
            ..state
        }),
{
    let source = state.registers[0];
    law_stream_header(state.memory, source);
    let size = header_word(state.memory, source, 5) % 0x8000_0000;
    law_request_takes_next_words(state.heap, size as u32, rounded);
    assert(!state.unpacks(source));
}

} // verus!
