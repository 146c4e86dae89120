//! Conversions between byte strings and text.

use vstd::prelude::*;
use vstd::utf8::*;

verus! {

/// True when every byte is below 128.
pub open spec fn all_ascii(bytes: Seq<u8>) -> bool {
    forall|i: int| 0 <= i < bytes.len() ==> #[trigger] bytes[i] < 128
}

/// The characters that a sequence of ASCII bytes stands for.
pub open spec fn ascii_chars(bytes: Seq<u8>) -> Seq<char> {
    Seq::new(bytes.len(), |i: int| bytes[i] as char)
}

/// The bytes that a sequence of ASCII characters is written as.
pub open spec fn ascii_bytes(chars: Seq<char>) -> Seq<u8> {
    Seq::new(chars.len(), |i: int| chars[i] as u8)
}

/// The parts one after the other, with `separator` between each two.
pub open spec fn joined_with(parts: Seq<Seq<char>>, separator: Seq<char>) -> Seq<char>
    decreases parts.len(),
{
    if parts.len() == 0 {
        Seq::empty()
    } else if parts.len() == 1 {
        parts[0]
    } else {
        joined_with(parts.drop_last(), separator) + separator + parts.last()
    }
}

/// ASCII bytes are well-formed UTF-8, and decode to one character per byte.
pub proof fn lemma_ascii_is_utf8(bytes: Seq<u8>)
    requires
        all_ascii(bytes),
    ensures
        valid_utf8(bytes),
        decode_utf8(bytes) == ascii_chars(bytes),
        is_ascii_chars(ascii_chars(bytes)),
        ascii_bytes(ascii_chars(bytes)) == bytes,
{
    let chars = ascii_chars(bytes);
    assert forall|i: int| 0 <= i < chars.len() implies '\0' <= #[trigger] chars[i] <= '\u{7f}' by {
        assert(bytes[i] < 128);
    }
    is_ascii_chars_encode_utf8(chars);
    assert(encode_utf8(chars) =~= bytes) by {
        assert forall|i: int| 0 <= i < bytes.len() implies encode_utf8(chars)[i] == bytes[i] by {
            assert(bytes[i] < 128);
            assert(chars[i] as u8 == bytes[i]);
        }
    }
    encode_utf8_valid_utf8(chars);
    encode_utf8_decode_utf8(chars);
    assert(ascii_bytes(chars) =~= bytes) by {
        assert forall|i: int| 0 <= i < bytes.len() implies ascii_bytes(chars)[i] == bytes[i] by {
            assert(bytes[i] < 128);
        }
    }
}

/// ASCII text is written as one byte per character, and reads back as itself.
pub proof fn lemma_ascii_text_bytes(chars: Seq<char>)
    requires
        is_ascii_chars(chars),
    ensures
        encode_utf8(chars) == ascii_bytes(chars),
        all_ascii(ascii_bytes(chars)),
        ascii_chars(ascii_bytes(chars)) == chars,
{
    is_ascii_chars_encode_utf8(chars);
    assert(encode_utf8(chars) =~= ascii_bytes(chars));
    assert forall|i: int| 0 <= i < chars.len() implies #[trigger] ascii_bytes(chars)[i] < 128 by {
        assert('\0' <= chars[i] <= '\u{7f}');
    }
    assert(ascii_chars(ascii_bytes(chars)) =~= chars) by {
        assert forall|i: int| 0 <= i < chars.len() implies ascii_chars(ascii_bytes(chars))[i] == chars[i] by {
            assert('\0' <= chars[i] <= '\u{7f}');
        }
    }
}

/// `String::from_utf8` of the standard library, with the error dropped: the
/// text is returned exactly when the bytes are well-formed UTF-8, and is then
/// the character sequence that they encode.
#[verifier::external_body]
pub(crate) fn string_from_utf8(bytes: Vec<u8>) -> (text: Option<String>)
    ensures
        text is Some <==> valid_utf8(bytes@),
        text is Some ==> text->0@ == decode_utf8(bytes@),
{
    String::from_utf8(bytes).ok()
}

/// Builds the text that a vector of ASCII bytes stands for.
pub fn string_from_ascii(bytes: Vec<u8>) -> (text: String)
    requires
        all_ascii(bytes@),
    ensures
        text@ == ascii_chars(bytes@),
{
    proof {
        lemma_ascii_is_utf8(bytes@);
    }
    string_from_utf8(bytes).unwrap()
}

/// Tells whether every byte is below 128.
pub fn is_all_ascii(bytes: &Vec<u8>) -> (ascii: bool)
    ensures
        ascii == all_ascii(bytes@),
{
    let mut i: usize = 0;
    while i < bytes.len()
        invariant
            i <= bytes.len(),
            forall|k: int| 0 <= k < i ==> #[trigger] bytes@[k] < 128,
        decreases bytes.len() - i,
    {
        if bytes[i] >= 128 {
            return false;
        }
        i += 1;
    }
    true
}

} // verus!
