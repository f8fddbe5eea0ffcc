//! Bytes read as text: UTF-8, with U+FFFD for what is ill-formed.

use vstd::prelude::*;
use vstd::utf8::*;

verus! {

/// What stands for an ill-formed sequence of bytes.
pub const REPLACEMENT: char = '\u{fffd}';

/// Whether the encoding of some character starts with these bytes.
pub open spec fn starts_character(bytes: Seq<u8>) -> bool {
    exists|c: char| bytes.is_prefix_of(#[trigger] encode_scalar(c as u32))
}

/// How many of these bytes, which start with no whole character, are one ill-formed sequence:
/// as many as start a character, up to the byte that does not go on with it or the end of the
/// bytes, and at least one.
pub open spec fn ill_formed_len(bytes: Seq<u8>) -> int {
    if bytes.len() >= 3 && starts_character(bytes.take(3)) {
        3
    } else if bytes.len() >= 2 && starts_character(bytes.take(2)) {
        2
    } else {
        1
    }
}

/// The text that bytes stand for: the characters that they encode in UTF-8, and U+FFFD for each
/// ill-formed sequence among them.
pub open spec fn decoded(bytes: Seq<u8>) -> Seq<char>
    decreases bytes.len(),
{
    if bytes.len() == 0 {
        Seq::empty()
    } else if valid_first_scalar(bytes) {
        seq![decode_first_scalar(bytes) as char] + decoded(pop_first_scalar(bytes))
    } else {
        seq![REPLACEMENT] + decoded(bytes.skip(ill_formed_len(bytes)))
    }
}

/// `String::from_utf8_lossy`: replaces each invalid sequence by U+FFFD and keeps the rest. A
/// sequence ends, as `Utf8Error::error_len` and `Utf8Chunk::invalid` say of lossy decoding,
/// before the byte that is unexpected or at the end of the input; an unexpected byte at the
/// start is one of its own. Decoding resumes behind the sequence.
#[verifier::external_body]
pub(crate) fn decode_lossy(bytes: &[u8]) -> (text: String)
    ensures
        text@ == decoded(bytes@),
{
    String::from_utf8_lossy(bytes).into_owned()
}

/// Valid UTF-8 stands for the characters that it encodes.
pub proof fn law_valid_text_is_kept(bytes: Seq<u8>)
    requires
        valid_utf8(bytes),
    ensures
        decoded(bytes) == decode_utf8(bytes),
    decreases bytes.len(),
{
    if bytes.len() > 0 {
        law_valid_text_is_kept(pop_first_scalar(bytes));
    }
}

pub(crate) proof fn lemma_high_bytes(scalar: u32)
    ensures
        leading_byte_width_2(scalar) >= 0x80,
        leading_byte_width_3(scalar) >= 0x80,
        leading_byte_width_4(scalar) >= 0x80,
        last_continuation_byte(scalar) >= 0x80,
        second_last_continuation_byte(scalar) >= 0x80,
        third_last_continuation_byte(scalar) >= 0x80,
        has_width_1_encoding(scalar) ==> leading_byte_width_1(scalar) == scalar,
{
    assert(forall|b: u8| #[trigger] (0xC0 | b) >= 0x80) by (bit_vector);
    assert(forall|b: u8| #[trigger] (0xE0 | b) >= 0x80) by (bit_vector);
    assert(forall|b: u8| #[trigger] (0xF0 | b) >= 0x80) by (bit_vector);
    assert(forall|b: u8| #[trigger] (0x80 | b) >= 0x80) by (bit_vector);
    assert(scalar <= 0x7f ==> (scalar & 0x7F) as u8 == scalar) by (bit_vector);
}

/// No character of more than one byte is encoded with an ASCII byte.
proof fn lemma_starts_character_high(bytes: Seq<u8>)
    requires
        starts_character(bytes),
        bytes.len() >= 2,
    ensures
        bytes.last() >= 0x80,
{
    let c = choose|c: char| bytes.is_prefix_of(#[trigger] encode_scalar(c as u32));
    lemma_high_bytes(c as u32);
    assert(bytes.last() == encode_scalar(c as u32)[bytes.len() - 1]);
}

/// An ASCII byte stands for itself and changes nothing of what stands before it.
pub proof fn law_ascii_stands_for_itself(bytes: Seq<u8>, b: u8)
    requires
        b < 0x80,
    ensures
        decoded(bytes.push(b)) == decoded(bytes).push(b as char),
    decreases bytes.len(),
{
    let more = bytes.push(b);
    if bytes.len() == 0 {
        assert(b < 0x80 ==> (b & 0x7F) as u32 == b) by (bit_vector);
        assert(pop_first_scalar(more) =~= Seq::empty());
        reveal_with_fuel(decoded, 2);
        assert(decoded(more) =~= decoded(bytes).push(b as char));
    } else if valid_first_scalar(bytes) {
        law_ascii_stands_for_itself(pop_first_scalar(bytes), b);
        assert(pop_first_scalar(more) =~= pop_first_scalar(bytes).push(b));
        assert(decoded(more) =~= decoded(bytes).push(b as char));
    } else {
        assert(!valid_first_scalar(more));
        let n = ill_formed_len(bytes);
        assert(ill_formed_len(more) == n) by {
            if bytes.len() == 1 && starts_character(more.take(2)) {
                lemma_starts_character_high(more.take(2));
            }
            if bytes.len() == 2 && starts_character(more.take(3)) {
                lemma_starts_character_high(more.take(3));
            }
            assert(bytes.len() >= 2 ==> more.take(2) =~= bytes.take(2));
            assert(bytes.len() >= 3 ==> more.take(3) =~= bytes.take(3));
        }
        law_ascii_stands_for_itself(bytes.skip(n), b);
        assert(more.skip(n) =~= bytes.skip(n).push(b));
        assert(decoded(more) =~= decoded(bytes).push(b as char));
    }
}

/// The codepoints of more than one byte are no ASCII, and within the range of characters.
proof fn lemma_wide_scalar(bytes: Seq<u8>)
    requires
        valid_first_scalar(bytes),
    ensures
        is_leading_byte_width_1(bytes[0]) ==> decode_first_scalar(bytes) == bytes[0],
        !is_leading_byte_width_1(bytes[0]) ==> decode_first_scalar(bytes) >= 0x80,
        is_scalar(decode_first_scalar(bytes)),
{
    let b1 = bytes[0];
    let b2 = bytes[1];
    let b3 = bytes[2];
    assert(b1 < 0x80 ==> (b1 & 0x7F) as u32 == b1) by (bit_vector);
    assert((((b1 & 0x1F) as u32) << 6) | (b2 & 0x3f) as u32 <= 0x7ff) by (bit_vector);
    assert((((b1 & 0x0F) as u32) << 12) | (((b2 & 0x3f) as u32) << 6) | (b3 & 0x3f) as u32
        <= 0xffff) by (bit_vector);
}

/// A line feed is read only from the byte of a line feed.
pub(crate) proof fn lemma_decoded_newline(bytes: Seq<u8>)
    requires
        !bytes.contains(10),
    ensures
        !decoded(bytes).contains('\n'),
    decreases bytes.len(),
{
    if bytes.len() > 0 {
        let (first, rest) = if valid_first_scalar(bytes) {
            (decode_first_scalar(bytes) as char, pop_first_scalar(bytes))
        } else {
            (REPLACEMENT, bytes.skip(ill_formed_len(bytes)))
        };
        assert(first != '\n') by {
            assert(bytes.contains(bytes[0]));
            if valid_first_scalar(bytes) {
                lemma_wide_scalar(bytes);
            }
        }
        assert(!rest.contains(10)) by {
            if rest.contains(10) {
                let i = choose|i: int| 0 <= i < rest.len() && rest[i] == 10;
                assert(bytes[bytes.len() - rest.len() + i] == 10);
            }
        }
        lemma_decoded_newline(rest);
        let text = decoded(bytes);
        if text.contains('\n') {
            let i = choose|i: int| 0 <= i < text.len() && text[i] == '\n';
            assert(decoded(rest)[i - 1] == '\n');
        }
    }
}

} // verus!
