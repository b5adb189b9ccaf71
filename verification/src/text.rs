//! Strings: the number of bytes of the text, then the text in UTF-8.

use crate::varint::{
    encode_unbounded, lemma_unbounded_read_of_encoding, parse_unbounded, unbounded_encoding,
    unbounded_read,
};
use vstd::prelude::*;
use vstd::slice::slice_subrange;
use vstd::utf8::{
    decode_utf8, encode_utf8, encode_utf8_decode_utf8, encode_utf8_valid_utf8, valid_utf8,
};

verus! {

/// The error of `std::str::from_utf8`. The library does not look into it.
#[verifier::external_type_specification]
#[verifier::external_body]
pub struct ExUtf8Error(std::str::Utf8Error);

/// Taken on trust from the documentation of the standard library, not proved
/// here: `std::str::from_utf8` accepts exactly the byte slices that are
/// well-formed UTF-8, and the string slice it then gives consists of the very
/// bytes it was handed.
pub assume_specification[ std::str::from_utf8 ](v: &[u8]) -> (r: Result<&str, std::str::Utf8Error>)
    ensures
        r is Ok <==> valid_utf8(v@),
        r matches Ok(text) ==> encode_utf8(text@) == v@,
;

/// The string at the front of `s` and the number of bytes it occupies. `None`
/// where the length cannot be read, where fewer bytes follow the length than
/// it announces, and where those bytes are not well-formed UTF-8.
pub open spec fn string_read(s: Seq<u8>) -> Option<(Seq<char>, nat)> {
    match unbounded_read(s) {
        Some((len, n)) => if n + len <= s.len() {
            let bytes = s.subrange(n as int, n + len);
            if valid_utf8(bytes) {
                Some((decode_utf8(bytes), n + len as nat))
            } else {
                None
            }
        } else {
            None
        },
        None => None,
    }
}

/// The bytes that stand for `text`.
pub open spec fn string_encoding(text: Seq<char>) -> Seq<u8> {
    unbounded_encoding(encode_utf8(text).len()) + encode_utf8(text)
}

/// Reads one string from the front of `input`. Gives the string and the
/// number of bytes it occupies, its length included.
pub fn parse_string(input: &[u8]) -> (r: Option<(String, usize)>)
    ensures
        match r {
            Some((text, n)) => string_read(input@) == Some((text@, n as nat)),
            None => string_read(input@) is None,
        },
        r matches Some((_, n)) ==> 1 <= n <= input@.len(),
{
    let (len, n) = match parse_unbounded(input) {
        Some(read) => read,
        None => {
            return None;
        },
    };
    let len = len as usize;
    if len > input.len() - n {
        return None;
    }
    let bytes = slice_subrange(input, n, n + len);
    match std::str::from_utf8(bytes) {
        Ok(text) => {
            proof {
                encode_utf8_decode_utf8(text@);
            }
            Some((text.to_string(), n + len))
        },
        Err(_) => None,
    }
}

/// Writes `text` with its length before it. `None` where `text` has more than
/// `u32::MAX` bytes.
pub fn encode_string(text: &str) -> (r: Option<Vec<u8>>)
    ensures
        match r {
            Some(out) => encode_utf8(text@).len() <= u32::MAX && out@ == string_encoding(text@),
            None => encode_utf8(text@).len() > u32::MAX,
        },
{
    let bytes = text.as_bytes();
    if bytes.len() > u32::MAX as usize {
        return None;
    }
    let mut out = encode_unbounded(bytes.len() as u32);
    let ghost head = out@;
    out.extend_from_slice(bytes);
    Some(out)
}

/// A text of at most `u32::MAX` bytes is read back as it was written,
/// whatever follows it.
pub proof fn lemma_string_round_trip(text: Seq<char>, tail: Seq<u8>)
    requires
        encode_utf8(text).len() <= u32::MAX,
    ensures
        string_read(string_encoding(text) + tail) == Some(
            (text, string_encoding(text).len()),
        ),
{
    let bytes = encode_utf8(text);
    let head = unbounded_encoding(bytes.len());
    let s = string_encoding(text) + tail;
    assert(s =~= head + (bytes + tail));
    lemma_unbounded_read_of_encoding(bytes.len() as u32, bytes + tail);
    assert(s.subrange(head.len() as int, (head.len() + bytes.len()) as int) =~= bytes);
    encode_utf8_valid_utf8(text);
    encode_utf8_decode_utf8(text);
}

} // verus!
