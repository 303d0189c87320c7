//! UTF-16 as RDP uses it: text is sent as little-endian 16-bit code units.

use vstd::prelude::*;

use crate::wire::{get_le16, le16_at, le16_bytes, put_le16};

verus! {

/// The character that stands for an unpaired surrogate.
pub const REPLACEMENT: char = '\u{FFFD}';

/// Whether a code unit opens a surrogate pair.
pub open spec fn is_high_surrogate(unit: u16) -> bool {
    0xD800 <= unit <= 0xDBFF
}

/// Whether a code unit closes a surrogate pair.
pub open spec fn is_low_surrogate(unit: u16) -> bool {
    0xDC00 <= unit <= 0xDFFF
}

/// The code units of one character: itself, or a surrogate pair above U+FFFF.
pub open spec fn char_units(c: char) -> Seq<u16> {
    if c as int <= 0xFFFF {
        seq![c as u16]
    } else {
        seq![
            (0xD800 + (c as int - 0x1_0000) / 0x400) as u16,
            (0xDC00 + (c as int - 0x1_0000) % 0x400) as u16,
        ]
    }
}

/// The code units of a text.
pub open spec fn encode(text: Seq<char>) -> Seq<u16>
    decreases text.len(),
{
    if text.len() == 0 {
        Seq::empty()
    } else {
        encode(text.drop_last()) + char_units(text.last())
    }
}

/// The character that a surrogate pair stands for.
pub open spec fn pair_char(high: u16, low: u16) -> char {
    (0x1_0000 + (high - 0xD800) * 0x400 + (low - 0xDC00)) as char
}

/// How many code units the first character of `units` takes.
pub open spec fn first_width(units: Seq<u16>) -> int {
    if is_high_surrogate(units[0]) && units.len() >= 2 && is_low_surrogate(units[1]) {
        2
    } else {
        1
    }
}

/// The first character of `units`; an unpaired surrogate reads as U+FFFD.
pub open spec fn first_char(units: Seq<u16>) -> char {
    if first_width(units) == 2 {
        pair_char(units[0], units[1])
    } else if is_high_surrogate(units[0]) || is_low_surrogate(units[0]) {
        REPLACEMENT
    } else {
        units[0] as char
    }
}

/// The text that code units stand for, unpaired surrogates replaced by U+FFFD.
pub open spec fn decode(units: Seq<u16>) -> Seq<char>
    decreases units.len(),
{
    if units.len() == 0 {
        Seq::empty()
    } else {
        seq![first_char(units)] + decode(units.skip(first_width(units)))
    }
}

/// The code units that little-endian bytes hold; an odd last byte is left out.
pub open spec fn units_of(bytes: Seq<u8>) -> Seq<u16> {
    Seq::new(bytes.len() / 2, |i: int| le16_at(bytes, 2 * i))
}

/// The little-endian bytes of a run of code units.
pub open spec fn bytes_of(units: Seq<u16>) -> Seq<u8>
    decreases units.len(),
{
    if units.len() == 0 {
        Seq::empty()
    } else {
        bytes_of(units.drop_last()) + le16_bytes(units.last())
    }
}

/// The part of `units` before the first zero unit, all of it when there is none.
pub open spec fn until_zero(units: Seq<u16>) -> Seq<u16>
    decreases units.len(),
{
    if units.len() == 0 || units[0] == 0 {
        Seq::empty()
    } else {
        seq![units[0]] + until_zero(units.skip(1))
    }
}

/// The little-endian UTF-16 bytes of a text.
pub open spec fn text_bytes(text: Seq<char>) -> Seq<u8> {
    bytes_of(encode(text))
}

/// `std::string::String::push` appends one character.
pub assume_specification[ String::push ](text: &mut String, c: char)
    ensures
        final(text)@ == old(text)@.push(c),
;

/// `char::from_u32` gives the character of a code point, and `None` for a
/// surrogate or a number above U+10FFFF.
pub assume_specification[ char::from_u32 ](code: u32) -> (c: Option<char>)
    ensures
        c == if code <= 0xD7FF || 0xE000 <= code <= 0x10_FFFF {
            Some(code as char)
        } else {
            None::<char>
        },
;

/// Decoding the code units of a text gives the text back.
pub proof fn law_decode_encode(text: Seq<char>)
    ensures
        decode(encode(text)) == text,
    decreases text.len(),
{
    lemma_decode_encode_then(text, Seq::empty());
    assert(encode(text) + Seq::<u16>::empty() =~= encode(text));
    assert(text + Seq::<char>::empty() =~= text);
}

/// Every character is a Unicode scalar value.
proof fn lemma_char_range(c: char)
    ensures
        0 <= c as int <= 0x10_FFFF,
        !(0xD800 <= c as int <= 0xDFFF),
        c as u32 as int == c as int,
{
}

proof fn lemma_decode_encode_then(text: Seq<char>, rest: Seq<u16>)
    ensures
        decode(encode(text) + rest) == text + decode(rest),
    decreases text.len(),
{
    if text.len() == 0 {
        assert(encode(text) + rest =~= rest);
        assert(text + decode(rest) =~= decode(rest));
    } else {
        let c = text.last();
        lemma_decode_encode_then(text.drop_last(), char_units(c) + rest);
        assert(encode(text) + rest =~= encode(text.drop_last()) + (char_units(c) + rest));
        let units = char_units(c) + rest;
        lemma_char_range(c);
        if c as int <= 0xFFFF {
            assert(units.skip(1) =~= rest);
        } else {
            assert(units.skip(2) =~= rest);
        }
        assert(first_char(units) == c);
        assert(text.drop_last() + (seq![c] + decode(rest)) =~= text + decode(rest));
    }
}

/// Splitting the bytes of code units gives the code units back.
pub proof fn law_units_of_bytes(units: Seq<u16>)
    ensures
        units_of(bytes_of(units)) == units,
        bytes_of(units).len() == 2 * units.len(),
    decreases units.len(),
{
    if units.len() > 0 {
        let front = units.drop_last();
        law_units_of_bytes(front);
        let all = bytes_of(units);
        assert(all =~= bytes_of(front) + le16_bytes(units.last()));
        assert forall|i: int| 0 <= i < units.len() implies #[trigger] units_of(all)[i] == units[i] by {
            if i < front.len() {
                assert(units_of(bytes_of(front))[i] == front[i]);
                assert(all[2 * i] == bytes_of(front)[2 * i]);
                assert(all[2 * i + 1] == bytes_of(front)[2 * i + 1]);
            } else {
                assert(all[2 * i] == le16_bytes(units.last())[0]);
                assert(all[2 * i + 1] == le16_bytes(units.last())[1]);
            }
        }
        assert(units_of(all) =~= units);
    } else {
        assert(units_of(bytes_of(units)) =~= units);
    }
}

/// Reading the UTF-16 bytes of a text gives the text back.
pub proof fn law_text_round_trip(text: Seq<char>)
    ensures
        decode(units_of(text_bytes(text))) == text,
{
    law_units_of_bytes(encode(text));
    law_decode_encode(text);
}

/// A text without U+0000 survives being sent with a terminating zero unit.
pub proof fn law_terminated_round_trip(text: Seq<char>, after: Seq<u16>)
    requires
        forall|i: int| 0 <= i < text.len() ==> text[i] != '\0',
    ensures
        decode(until_zero(encode(text) + seq![0u16] + after)) == text,
{
    lemma_encode_nonzero(text);
    lemma_until_zero_prefix(encode(text), after);
    law_decode_encode(text);
}

proof fn lemma_encode_nonzero(text: Seq<char>)
    requires
        forall|i: int| 0 <= i < text.len() ==> text[i] != '\0',
    ensures
        forall|i: int| 0 <= i < encode(text).len() ==> encode(text)[i] != 0,
    decreases text.len(),
{
    if text.len() > 0 {
        lemma_encode_nonzero(text.drop_last());
        let c = text.last();
        lemma_char_range(c);
        let front = encode(text.drop_last());
        assert forall|i: int| 0 <= i < encode(text).len() implies encode(text)[i] != 0 by {
            if i < front.len() {
                assert(encode(text)[i] == front[i]);
            } else {
                assert(encode(text)[i] == char_units(c)[i - front.len()]);
            }
        }
    }
}

proof fn lemma_until_zero_prefix(units: Seq<u16>, after: Seq<u16>)
    requires
        forall|i: int| 0 <= i < units.len() ==> units[i] != 0,
    ensures
        until_zero(units + seq![0u16] + after) == units,
    decreases units.len(),
{
    let all = units + seq![0u16] + after;
    if units.len() > 0 {
        lemma_until_zero_prefix(units.skip(1), after);
        assert(all.skip(1) =~= units.skip(1) + seq![0u16] + after);
        assert(seq![units[0]] + units.skip(1) =~= units);
    } else {
        assert(all[0] == 0);
    }
}

/// The number of bytes that `text` takes in UTF-16, which [`law_units_of_bytes`]
/// relates to its code units.
pub fn utf16_len(text: &str) -> (len: usize)
    requires
        2 * encode(text@).len() <= usize::MAX,
    ensures
        len == 2 * encode(text@).len(),
{
    let mut len: usize = 0;
    for c in it: text.chars()
        invariant
            it.seq() == text@,
            len == 2 * encode(text@.take(it.index() as int)).len(),
            2 * encode(text@).len() <= usize::MAX,
    {
        proof {
            let i = it.index() as int;
            assert(text@.take(i + 1).drop_last() =~= text@.take(i));
            lemma_encode_prefix_len(text@, i + 1);
            lemma_char_range(c);
        }
        if (c as u32) <= 0xFFFF {
            len = len + 2;
        } else {
            len = len + 4;
        }
    }
    assert(text@.take(text@.len() as int) =~= text@);
    len
}

/// The number of bytes that `text` takes in UTF-16, where there are no more than `limit`.
pub fn utf16_len_within(text: &str, limit: usize) -> (len: Option<usize>)
    ensures
        len == if 2 * encode(text@).len() <= limit {
            Some((2 * encode(text@).len()) as usize)
        } else {
            None::<usize>
        },
{
    let mut len: Option<usize> = Some(0);
    for c in it: text.chars()
        invariant
            it.seq() == text@,
            len == if 2 * encode(text@.take(it.index() as int)).len() <= limit {
                Some((2 * encode(text@.take(it.index() as int)).len()) as usize)
            } else {
                None::<usize>
            },
    {
        proof {
            let i = it.index() as int;
            assert(text@.take(i + 1).drop_last() =~= text@.take(i));
            lemma_char_range(c);
        }
        let width: usize = if (c as u32) <= 0xFFFF {
            2
        } else {
            4
        };
        len = match len {
            Some(n) => if width <= limit - n {
                Some(n + width)
            } else {
                None
            },
            None => None,
        };
    }
    assert(text@.take(text@.len() as int) =~= text@);
    len
}

proof fn lemma_encode_prefix_len(text: Seq<char>, n: int)
    requires
        0 <= n <= text.len(),
    ensures
        encode(text.take(n)).len() <= encode(text).len(),
    decreases text.len() - n,
{
    if n < text.len() {
        lemma_encode_prefix_len(text, n + 1);
        assert(text.take(n + 1).drop_last() =~= text.take(n));
    } else {
        assert(text.take(n) =~= text);
    }
}

/// Appends `text` as little-endian UTF-16.
pub fn write_utf16(out: &mut Vec<u8>, text: &str)
    ensures
        final(out)@ == old(out)@ + text_bytes(text@),
{
    assert(text@.take(0) =~= Seq::<char>::empty());
    assert(old(out)@ + text_bytes(text@.take(0)) =~= old(out)@);
    for c in it: text.chars()
        invariant
            it.seq() == text@,
            out@ == old(out)@ + text_bytes(text@.take(it.index() as int)),
    {
        proof {
            let i = it.index() as int;
            assert(text@.take(i + 1).drop_last() =~= text@.take(i));
            lemma_bytes_of_append(encode(text@.take(i)), char_units(c));
            lemma_char_range(c);
            reveal_with_fuel(bytes_of, 3);
        }
        let code: u32 = c as u32;
        if code <= 0xFFFF {
            put_le16(out, code as u16);
            assert(char_units(c).drop_last() =~= Seq::<u16>::empty());
            assert(bytes_of(char_units(c)) =~= le16_bytes(code as u16));
        } else {
            let high: u16 = (0xD800 + (code - 0x1_0000) / 0x400) as u16;
            let low: u16 = (0xDC00 + (code - 0x1_0000) % 0x400) as u16;
            put_le16(out, high);
            put_le16(out, low);
            assert(char_units(c) =~= seq![high, low]);
            assert(seq![high, low].drop_last() =~= seq![high]);
            assert(seq![high].drop_last() =~= Seq::<u16>::empty());
            assert(bytes_of(char_units(c)) =~= le16_bytes(high) + le16_bytes(low));
        }
        assert(out@ =~= old(out)@ + text_bytes(text@.take(it.index() as int + 1)));
    }
    assert(text@.take(text@.len() as int) =~= text@);
}

proof fn lemma_bytes_of_append(a: Seq<u16>, b: Seq<u16>)
    ensures
        bytes_of(a + b) == bytes_of(a) + bytes_of(b),
    decreases b.len(),
{
    if b.len() == 0 {
        assert(a + b =~= a);
        assert(bytes_of(a) + bytes_of(b) =~= bytes_of(a));
    } else {
        lemma_bytes_of_append(a, b.drop_last());
        assert((a + b).drop_last() =~= a + b.drop_last());
        assert(bytes_of(a + b) =~= bytes_of(a) + bytes_of(b));
    }
}

/// The text of code units, unpaired surrogates replaced.
pub fn decode_units(units: &[u16]) -> (text: String)
    ensures
        text@ == decode(units@),
{
    let mut text = String::new();
    let mut at: usize = 0;
    assert(units@.skip(0) =~= units@);
    while at < units.len()
        invariant
            at <= units@.len(),
            text@ + decode(units@.skip(at as int)) == decode(units@),
        decreases units@.len() - at,
    {
        let ghost rest = units@.skip(at as int);
        let ghost before = text@;
        let first: u16 = units[at];
        let mut width: usize = 1;
        let mut c: char = REPLACEMENT;
        if 0xD800 <= first && first <= 0xDBFF {
            if at + 1 < units.len() {
                let second: u16 = units[at + 1];
                if 0xDC00 <= second && second <= 0xDFFF {
                    width = 2;
                    let code: u32 = 0x1_0000 + (first as u32 - 0xD800) * 0x400 + (second as u32 - 0xDC00);
                    match char::from_u32(code) {
                        Some(paired) => {
                            c = paired;
                        }
                        None => {}
                    }
                }
            }
        } else if !(0xDC00 <= first && first <= 0xDFFF) {
            match char::from_u32(first as u32) {
                Some(single) => {
                    c = single;
                }
                None => {}
            }
        }
        assert(c == first_char(rest) && width == first_width(rest));
        text.push(c);
        at = at + width;
        proof {
            assert(rest.skip(width as int) =~= units@.skip(at as int));
            assert(before.push(c) + decode(units@.skip(at as int)) =~= before + decode(rest));
        }
    }
    assert(text@ + decode(units@.skip(at as int)) =~= text@);
    text
}

/// The code units of little-endian bytes.
pub fn split_units(bytes: &[u8]) -> (units: Vec<u16>)
    ensures
        units@ == units_of(bytes@),
{
    let count: usize = bytes.len() / 2;
    let mut units: Vec<u16> = Vec::with_capacity(count);
    let mut i: usize = 0;
    while i < count
        invariant
            count == bytes.len() / 2,
            i <= count,
            units@ == units_of(bytes@).take(i as int),
        decreases count - i,
    {
        let unit: u16 = get_le16(bytes, 2 * i);
        units.push(unit);
        assert(units@ =~= units_of(bytes@).take(i + 1));
        i = i + 1;
    }
    assert(units@ =~= units_of(bytes@));
    units
}

/// The text of little-endian UTF-16 bytes, unpaired surrogates replaced and an
/// odd last byte left out.
pub fn decode_bytes(bytes: &[u8]) -> (text: String)
    ensures
        text@ == decode(units_of(bytes@)),
{
    let units = split_units(bytes);
    decode_units(units.as_slice())
}

/// The text of little-endian UTF-16 bytes up to the first zero unit.
pub fn utf16le_to_string(bytes: &[u8]) -> (text: String)
    ensures
        text@ == decode(until_zero(units_of(bytes@))),
{
    let mut units = split_units(bytes);
    let mut n: usize = 0;
    assert(units@.skip(0) =~= units@);
    assert(units@.take(0) + until_zero(units@.skip(0)) =~= until_zero(units@));
    while n < units.len() && units[n] != 0
        invariant
            n <= units@.len(),
            units@ == units_of(bytes@),
            units@.take(n as int) + until_zero(units@.skip(n as int)) == until_zero(units@),
        decreases units@.len() - n,
    {
        proof {
            assert(units@.skip(n as int).skip(1) =~= units@.skip(n + 1));
            assert(units@.take(n + 1) + until_zero(units@.skip(n + 1))
                =~= units@.take(n as int) + (seq![units@[n as int]] + until_zero(units@.skip(n + 1))));
        }
        n = n + 1;
    }
    assert(units@.take(n as int) + until_zero(units@.skip(n as int)) =~= units@.take(n as int));
    units.truncate(n);
    decode_units(units.as_slice())
}

/// A character up to U+FFFF is one unit, its own number; one above is two, of which the first
/// holds the higher ten bits of what is above and the second the lower ten.
pub proof fn law_units_of_a_character(c: char)
    ensures
        (c as int) < 0x1_0000 ==> encode(seq![c]) == seq![c as u16],
        c as int >= 0x1_0000 ==> {
            let units = encode(seq![c]);
            &&& units.len() == 2
            &&& 0xD800 <= units[0] < 0xDC00
            &&& 0xDC00 <= units[1] < 0xE000
            &&& 0x400 * (units[0] - 0xD800) + (units[1] - 0xDC00) == c as int - 0x1_0000
        },
{
    lemma_char_range(c);
    reveal_with_fuel(encode, 2);
    assert(seq![c].drop_last() =~= Seq::<char>::empty());
    assert(encode(seq![c]) =~= char_units(c));
}

proof fn lemma_first_unit(text: Seq<char>)
    requires
        text.len() > 0,
    ensures
        encode(text).len() > 0,
        !is_low_surrogate(encode(text)[0]),
    decreases text.len(),
{
    let front = text.drop_last();
    lemma_char_range(text.last());
    if front.len() > 0 {
        lemma_first_unit(front);
        assert(encode(text)[0] == encode(front)[0]);
    } else {
        assert(encode(front) =~= Seq::<u16>::empty());
        assert(encode(text)[0] == char_units(text.last())[0]);
    }
}

/// Half of a pair without its other half reads as U+FFFD, and spoils nothing before or behind
/// it.
pub proof fn law_unpaired_half_is_replaced(before: Seq<char>, unit: u16, after: Seq<char>)
    requires
        0xD800 <= unit <= 0xDFFF,
    ensures
        decode(encode(before) + seq![unit] + encode(after)) == before + seq!['\u{FFFD}'] + after,
{
    let rest = seq![unit] + encode(after);
    assert(encode(before) + seq![unit] + encode(after) =~= encode(before) + rest);
    lemma_decode_encode_then(before, rest);
    if after.len() > 0 {
        lemma_first_unit(after);
        assert(rest[1] == encode(after)[0]);
    }
    assert(rest.skip(1) =~= encode(after));
    law_decode_encode(after);
    assert(before + (seq!['\u{FFFD}'] + after) =~= before + seq!['\u{FFFD}'] + after);
}

/// An odd byte at the end does not count.
pub proof fn law_odd_byte_does_not_count(units: Seq<u16>, byte: u8)
    ensures
        units_of(bytes_of(units).push(byte)) == units,
{
    law_units_of_bytes(units);
    let bytes = bytes_of(units);
    let more = units_of(bytes.push(byte));
    assert forall|i: int| 0 <= i < units.len() implies #[trigger] more[i] == units[i] by {
        assert(units_of(bytes)[i] == units[i]);
    }
    assert(more =~= units);
}

/// A text without U+0000 also survives being sent without a zero unit behind it.
pub proof fn law_unterminated_round_trip(text: Seq<char>)
    requires
        forall|i: int| 0 <= i < text.len() ==> text[i] != '\0',
    ensures
        decode(until_zero(encode(text))) == text,
{
    lemma_encode_nonzero(text);
    lemma_until_zero_whole(encode(text));
    law_decode_encode(text);
}

proof fn lemma_until_zero_whole(units: Seq<u16>)
    requires
        forall|i: int| 0 <= i < units.len() ==> units[i] != 0,
    ensures
        until_zero(units) == units,
    decreases units.len(),
{
    if units.len() > 0 {
        lemma_until_zero_whole(units.skip(1));
        assert(seq![units[0]] + units.skip(1) =~= units);
    } else {
        assert(until_zero(units) =~= units);
    }
}

} // verus!
