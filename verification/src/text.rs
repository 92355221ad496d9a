//! Bytes and characters: the classes of bytes the grammar speaks of, and the
//! passage between ASCII bytes and the characters of a string.

use vstd::prelude::*;
use vstd::utf8::*;

verus! {

/// The byte `.`.
pub const DOT: u8 = 0x2e;

/// The byte `-`.
pub const HYPHEN: u8 = 0x2d;

/// The byte `+`.
pub const PLUS: u8 = 0x2b;

/// The byte `0`.
pub const ZERO: u8 = 0x30;

/// Whether `byte` is one of the ASCII digits `0` to `9`.
pub open spec fn spec_is_digit(byte: u8) -> bool {
    0x30 <= byte <= 0x39
}

/// Whether `byte` is an ASCII letter or digit.
pub open spec fn spec_is_alphanumeric(byte: u8) -> bool {
    spec_is_digit(byte) || 0x41 <= byte <= 0x5a || 0x61 <= byte <= 0x7a
}

/// Whether `byte` is one of the ASCII digits `0` to `9`.
#[verifier::when_used_as_spec(spec_is_digit)]
pub fn is_digit(byte: u8) -> (r: bool)
    ensures
        r == spec_is_digit(byte),
{
    0x30 <= byte && byte <= 0x39
}

/// Whether `byte` is an ASCII letter or digit.
#[verifier::when_used_as_spec(spec_is_alphanumeric)]
pub fn is_alphanumeric(byte: u8) -> (r: bool)
    ensures
        r == spec_is_alphanumeric(byte),
{
    is_digit(byte) || (0x41 <= byte && byte <= 0x5a) || (0x61 <= byte && byte <= 0x7a)
}

/// Whether every byte of `bytes` is an ASCII digit.
pub open spec fn all_digits(bytes: Seq<u8>) -> bool {
    forall|i: int| 0 <= i < bytes.len() ==> is_digit(#[trigger] bytes[i])
}

/// Whether every byte of `bytes` is an ASCII digit.
pub fn every_digit(bytes: &[u8]) -> (r: bool)
    ensures
        r == all_digits(bytes@),
{
    let mut i: usize = 0;
    while i < bytes.len()
        invariant
            i <= bytes.len(),
            all_digits(bytes@.take(i as int)),
        decreases bytes.len() - i,
    {
        if !is_digit(bytes[i]) {
            return false;
        }
        assert(bytes@.take(i + 1) =~= bytes@.take(i as int).push(bytes@[i as int]));
        i += 1;
    }
    assert(bytes@.take(i as int) =~= bytes@);
    true
}

/// Whether every byte of `bytes` is ASCII.
pub open spec fn all_ascii(bytes: Seq<u8>) -> bool {
    forall|i: int| 0 <= i < bytes.len() ==> #[trigger] bytes[i] < 0x80
}

/// The characters that the ASCII bytes `bytes` spell.
pub open spec fn ascii_text(bytes: Seq<u8>) -> Seq<char> {
    Seq::new(bytes.len(), |i: int| bytes[i] as char)
}

/// The bytes that the ASCII characters `text` are stored as.
pub open spec fn ascii_bytes(text: Seq<char>) -> Seq<u8> {
    Seq::new(text.len(), |i: int| text[i] as u8)
}

/// The pieces of `pieces` in order, with `separator` between each two.
pub open spec fn join<T>(pieces: Seq<Seq<T>>, separator: T) -> Seq<T>
    decreases pieces.len(),
{
    if pieces.len() == 0 {
        Seq::empty()
    } else if pieces.len() == 1 {
        pieces[0]
    } else {
        join(pieces.drop_last(), separator).push(separator) + pieces.last()
    }
}

/// Joined pieces begin with the first piece; the separator and the other
/// pieces, joined, follow.
pub proof fn lemma_join_front<T>(pieces: Seq<Seq<T>>, separator: T)
    requires
        pieces.len() > 1,
    ensures
        join(pieces, separator) == pieces[0].push(separator) + join(
            pieces.drop_first(),
            separator,
        ),
    decreases pieces.len(),
{
    let front = pieces.drop_last();
    let rest = pieces.drop_first();
    if pieces.len() == 2 {
        assert(join(front, separator) == pieces[0]);
        assert(join(rest, separator) == pieces[1]);
    } else {
        lemma_join_front(front, separator);
        assert(front.drop_first() =~= rest.drop_last());
        assert(join(rest, separator) == join(rest.drop_last(), separator).push(separator)
            + rest.last());
        assert(join(pieces, separator) =~= pieces[0].push(separator) + join(rest, separator));
    }
}

/// ASCII characters are stored as themselves, one byte each.
pub proof fn lemma_ascii_text_encoding(text: Seq<char>)
    requires
        is_ascii_chars(text),
    ensures
        encode_utf8(text) == ascii_bytes(text),
        all_ascii(encode_utf8(text)),
        ascii_text(ascii_bytes(text)) == text,
{
    is_ascii_chars_encode_utf8(text);
    assert(encode_utf8(text) =~= ascii_bytes(text));
    assert(ascii_text(ascii_bytes(text)) =~= text);
}

/// ASCII bytes spell ASCII characters, and are what these are stored as.
pub proof fn lemma_ascii_bytes_text(bytes: Seq<u8>)
    requires
        all_ascii(bytes),
    ensures
        is_ascii_chars(ascii_text(bytes)),
        encode_utf8(ascii_text(bytes)) == bytes,
        ascii_bytes(ascii_text(bytes)) == bytes,
{
    let text = ascii_text(bytes);
    assert forall|i: int| 0 <= i < text.len() implies '\0' <= #[trigger] text[i] <= '\u{7f}' by {
        assert(bytes[i] < 0x80);
    }
    is_ascii_chars_encode_utf8(text);
    assert(encode_utf8(text) =~= bytes);
    assert(ascii_bytes(text) =~= bytes);
}

/// The first byte that a character beyond ASCII is stored as is not ASCII.
proof fn lemma_wide_scalar_leads_high(scalar: u32)
    requires
        !has_width_1_encoding(scalar),
    ensures
        encode_scalar(scalar)[0] >= 0x80,
{
    assert(leading_byte_width_2(scalar) >= 0x80) by (bit_vector);
    assert(leading_byte_width_3(scalar) >= 0x80) by (bit_vector);
    assert(leading_byte_width_4(scalar) >= 0x80) by (bit_vector);
}

/// A text that is stored as ASCII bytes only is made of ASCII characters:
/// the characters that its bytes spell.
pub proof fn lemma_text_of_ascii_encoding(text: Seq<char>)
    requires
        all_ascii(encode_utf8(text)),
    ensures
        is_ascii_chars(text),
        text == ascii_text(encode_utf8(text)),
    decreases text.len(),
{
    if text.len() > 0 {
        let first = text[0] as u32;
        char_is_scalar(text[0]);
        char_u32_cast(text[0], first);
        let rest = text.drop_first();
        let bytes = encode_utf8(text);
        assert(bytes == encode_scalar(first) + encode_utf8(rest));
        assert(bytes[0] == encode_scalar(first)[0]);
        if !has_width_1_encoding(first) {
            lemma_wide_scalar_leads_high(first);
            assert(bytes[0] < 0x80);
        }
        assert(encode_scalar(first).len() == 1);
        assert forall|i: int| 0 <= i < encode_utf8(rest).len() implies #[trigger] encode_utf8(
            rest,
        )[i] < 0x80 by {
            assert(encode_utf8(rest)[i] == bytes[i + 1]);
        }
        lemma_text_of_ascii_encoding(rest);
        assert forall|i: int| 0 <= i < text.len() implies '\0' <= #[trigger] text[i]
            <= '\u{7f}' by {
            if i > 0 {
                assert(text[i] == rest[i - 1]);
            } else {
                assert(text[0] == first as char);
            }
        }
    }
    lemma_ascii_text_encoding(text);
}

} // verus!
