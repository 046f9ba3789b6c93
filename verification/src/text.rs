//! Text in the guest's encoding.

use vstd::prelude::*;

verus! {

/// The text that GBK bytes stand for.
pub uninterp spec fn gbk_text(bytes: Seq<u8>) -> Seq<char>;

/// All bytes are ASCII.
pub open spec fn all_ascii_bytes(bytes: Seq<u8>) -> bool {
    forall|i: int| 0 <= i < bytes.len() ==> #[trigger] bytes[i] < 0x80
}

/// Bytes of ASCII as characters.
pub open spec fn ascii_text(bytes: Seq<u8>) -> Seq<char> {
    Seq::new(bytes.len(), |i: int| bytes[i] as char)
}

/// If the bytes are ASCII, they stand for themselves. Decoding shows this of every text.
pub open spec fn decodes_plainly(bytes: Seq<u8>) -> bool {
    all_ascii_bytes(bytes) ==> gbk_text(bytes) == ascii_text(bytes)
}

/// `encoding_rs::GBK.decode`: the characters that the bytes stand for, after a byte order mark
/// is dealt with and with U+FFFD in place of what cannot be decoded. The tables are the outside
/// crate's; the same bytes always give the same text, and ASCII bytes stand for themselves. Its
/// buffer sizes are computed without overflow for inputs of the length that is asked for here.
#[verifier::external_body]
fn decode_gbk(bytes: &[u8]) -> (text: String)
    requires
        bytes@.len() <= 0x1000_0000,
    ensures
        text@ == gbk_text(bytes@),
        all_ascii_bytes(bytes@) ==> text@ == ascii_text(bytes@),
{
    let (text, _, _) = encoding_rs::GBK.decode(bytes);
    text.into_owned()
}

/// Decodes a C string's bytes.
pub fn guest_text(bytes: &Vec<u8>) -> (text: String)
    requires
        bytes@.len() <= 0x1000_0000,
    ensures
        text@ == gbk_text(bytes@),
        all_ascii_bytes(bytes@) ==> text@ == ascii_text(bytes@),
{
    decode_gbk(bytes.as_slice())
}

/// The UTF-16 units of a character.
pub open spec fn utf16_units(c: char) -> Seq<u16> {
    if c as int <= 0xffff {
        seq![c as u16]
    } else {
        seq![
            (0xd800 + (c as int - 0x1_0000) / 1024) as u16,
            (0xdc00 + (c as int - 0x1_0000) % 1024) as u16,
        ]
    }
}

/// The UTF-16 units of a text.
pub open spec fn utf16(text: Seq<char>) -> Seq<u16>
    decreases text.len(),
{
    if text.len() == 0 {
        Seq::empty()
    } else {
        utf16(text.drop_last()) + utf16_units(text.last())
    }
}

/// The first `limit` elements, or all where there are fewer.
pub open spec fn first_units(units: Seq<u16>, limit: int) -> Seq<u16> {
    if units.len() <= limit {
        units
    } else {
        units.take(limit)
    }
}

/// The scalar value of a character.
fn char_value(c: char) -> (value: u32)
    ensures
        value == c as int,
        value <= 0x10_ffff,
{
    c as u32
}

/// Encodes text as UTF-16, cut off after `limit` units.
pub fn encode_utf16(text: &str, limit: usize) -> (units: Vec<u16>)
    ensures
        units@ == first_units(utf16(text@), limit as int),
{
    let mut units: Vec<u16> = Vec::new();
    for c in it: text.chars()
        invariant
            it.seq() == text@,
            units@ == utf16(text@.take(it.index() as int)),
    {
        let value: u32 = char_value(c);
        let ghost before = units@;
        if value <= 0xffff {
            units.push(value as u16);
        } else {
            let rest: u32 = value - 0x1_0000;
            units.push((0xd800 + rest / 1024) as u16);
            units.push((0xdc00 + rest % 1024) as u16);
        }
        assert(units@ =~= before + utf16_units(c));
        assert(text@.take(it.index() + 1).drop_last() =~= text@.take(it.index() as int));
    }
    assert(text@.take(text@.len() as int) =~= text@);
    if units.len() > limit {
        units.truncate(limit);
    }
    units
}

/// A character takes one or two UTF-16 units.
pub proof fn law_utf16_length(text: Seq<char>)
    ensures
        text.len() <= utf16(text).len() <= 2 * text.len(),
    decreases text.len(),
{
    if text.len() > 0 {
        law_utf16_length(text.drop_last());
    }
}

/// The UTF-16 units of ASCII text are its bytes.
pub proof fn law_utf16_of_ascii(bytes: Seq<u8>)
    requires
        all_ascii_bytes(bytes),
    ensures
        utf16(ascii_text(bytes)) == Seq::new(bytes.len(), |i: int| bytes[i] as u16),
    decreases bytes.len(),
{
    let text = ascii_text(bytes);
    if bytes.len() > 0 {
        let shorter = bytes.drop_last();
        assert(forall|i: int| 0 <= i < shorter.len() ==> #[trigger] shorter[i] == bytes[i]);
        law_utf16_of_ascii(shorter);
        assert(text.drop_last() =~= ascii_text(shorter));
        assert(bytes[bytes.len() - 1] < 0x80);
        assert(utf16_units(text.last()) =~= seq![bytes.last() as u16]);
    }
    assert(utf16(text) =~= Seq::new(bytes.len(), |i: int| bytes[i] as u16));
}

/// A character beyond the first 65536 is two units, one from each surrogate range, that hold ten
/// bits of it each; any other is a unit of its own.
pub proof fn law_units_hold_the_character(c: char)
    ensures
        c as int <= 0xffff ==> utf16_units(c).len() == 1 && utf16_units(c)[0] == c as int,
        c as int > 0xffff ==> {
            let units = utf16_units(c);
            &&& units.len() == 2
            &&& 0xd800 <= units[0] < 0xdc00
            &&& 0xdc00 <= units[1] < 0xe000
            &&& 0x1_0000 + (units[0] - 0xd800) * 1024 + (units[1] - 0xdc00) == c as int
        },
{
}

/// The units of a text are those of its parts, one after the other.
pub proof fn law_utf16_of_joined_text(first: Seq<char>, second: Seq<char>)
    ensures
        utf16(first + second) == utf16(first) + utf16(second),
        second.len() == 1 ==> utf16(second) == utf16_units(second[0]),
        utf16(Seq::<char>::empty()) == Seq::<u16>::empty(),
    decreases second.len(),
{
    if second.len() == 0 {
        assert(first + second =~= first);
        assert(utf16(first) + utf16(second) =~= utf16(first));
    } else {
        let shorter = second.drop_last();
        law_utf16_of_joined_text(first, shorter);
        assert((first + second).drop_last() =~= first + shorter);
        assert(utf16(first + second) =~= utf16(first) + utf16(second));
        if second.len() == 1 {
            assert(shorter =~= Seq::<char>::empty());
            assert(utf16(second) =~= utf16_units(second[0]));
        }
    }
}

/// Cutting off keeps the start of the units, as many as the limit allows.
pub proof fn law_cut_off_units_are_a_start(units: Seq<u16>, limit: int)
    requires
        0 <= limit,
    ensures
        units.len() <= limit ==> first_units(units, limit) == units,
        units.len() > limit ==> first_units(units, limit).len() == limit,
        forall|i: int|
            0 <= i < first_units(units, limit).len() ==> #[trigger] first_units(units, limit)[i]
                == units[i],
{
}

/// Bytes of ASCII stand for the characters with the same values.
pub proof fn law_ascii_bytes_are_characters(bytes: Seq<u8>, i: int)
    requires
        0 <= i < bytes.len(),
        bytes[i] < 0x80,
    ensures
        ascii_text(bytes).len() == bytes.len(),
        ascii_text(bytes)[i] as int == bytes[i],
{
}

} // verus!
