//! Hexadecimal text of identifiers.

use vstd::prelude::*;
use vstd::string::*;
use vstd::utf8::*;

use crate::types::ContentHash;
use crate::types::Context;
use crate::types::CONTEXT_SIZE;
use crate::types::HASH_SIZE;

verus! {

/// The lower case digit of a number below sixteen.
pub open spec fn hex_digit(d: int) -> char {
    if d == 0 {
        '0'
    } else if d == 1 {
        '1'
    } else if d == 2 {
        '2'
    } else if d == 3 {
        '3'
    } else if d == 4 {
        '4'
    } else if d == 5 {
        '5'
    } else if d == 6 {
        '6'
    } else if d == 7 {
        '7'
    } else if d == 8 {
        '8'
    } else if d == 9 {
        '9'
    } else if d == 10 {
        'a'
    } else if d == 11 {
        'b'
    } else if d == 12 {
        'c'
    } else if d == 13 {
        'd'
    } else if d == 14 {
        'e'
    } else {
        'f'
    }
}

/// Two lower case digits for each byte, the high half first.
pub open spec fn hex_text(bytes: Seq<u8>) -> Seq<char> {
    Seq::new(
        bytes.len() * 2,
        |i: int|
            if i % 2 == 0 {
                hex_digit(bytes[i / 2] as int / 16)
            } else {
                hex_digit(bytes[i / 2] as int % 16)
            },
    )
}

/// The value of a hexadecimal digit of either case.
pub open spec fn hex_value(digit: u8) -> Option<int> {
    if 0x41 <= digit <= 0x46 {
        Some(digit - 0x41 + 10)
    } else if 0x61 <= digit <= 0x66 {
        Some(digit - 0x61 + 10)
    } else if 0x30 <= digit <= 0x39 {
        Some(digit - 0x30)
    } else {
        None
    }
}

/// The text is made of pairs of hexadecimal digits.
pub open spec fn is_hex(text: Seq<u8>) -> bool {
    &&& text.len() % 2 == 0
    &&& forall|i: int| 0 <= i < text.len() ==> hex_value(#[trigger] text[i]) is Some
}

/// The bytes that pairs of hexadecimal digits write.
pub open spec fn hex_bytes(text: Seq<u8>) -> Seq<u8> {
    Seq::new(
        (text.len() / 2) as nat,
        |i: int| (hex_value(text[2 * i])->0 * 16 + hex_value(text[2 * i + 1])->0) as u8,
    )
}

/// `hex::encode` writes two lower case digits for each byte.
#[verifier::external_body]
pub(crate) fn encode(bytes: &[u8]) -> (text: String)
    requires
        bytes@.len() <= isize::MAX / 2,
    ensures
        text@ == hex_text(bytes@),
{
    hex::encode(bytes)
}

/// `hex::decode` reads pairs of digits of either case, and fails on an odd
/// number of bytes and on any byte that is no hexadecimal digit.
#[verifier::external_body]
pub(crate) fn decode(text: &str) -> (bytes: Option<Vec<u8>>)
    ensures
        bytes is Some <==> is_hex(text.spec_bytes()),
        bytes matches Some(b) ==> b@ == hex_bytes(text.spec_bytes()),
{
    hex::decode(text).ok()
}

/// Hexadecimal text takes one byte for each digit.
pub proof fn lemma_hex_text_is_ascii(bytes: Seq<u8>)
    ensures
        is_ascii_chars(hex_text(bytes)),
        encode_utf8(hex_text(bytes)) == Seq::new(
            hex_text(bytes).len(),
            |i: int| hex_text(bytes)[i] as u8,
        ),
{
    let text = hex_text(bytes);
    assert forall|i: int| 0 <= i < text.len() implies '\0' <= #[trigger] text[i] <= '\u{7f}' by {
    }
    is_ascii_chars_encode_utf8(text);
}

/// Reading the hexadecimal text of bytes gives the bytes back.
pub proof fn law_hex_round_trip(bytes: Seq<u8>)
    ensures
        is_hex(encode_utf8(hex_text(bytes))),
        hex_bytes(encode_utf8(hex_text(bytes))) == bytes,
{
    lemma_hex_text_is_ascii(bytes);
    let text = hex_text(bytes);
    let raw = encode_utf8(text);
    assert forall|i: int| 0 <= i < raw.len() implies hex_value(#[trigger] raw[i]) is Some by {
        assert(raw[i] == text[i] as u8);
    }
    assert forall|i: int| 0 <= i < bytes.len() implies #[trigger] hex_bytes(raw)[i] == bytes[i] by {
        let b = bytes[i] as int;
        assert((2 * i) % 2 == 0 && (2 * i) / 2 == i && (2 * i + 1) % 2 == 1 && (2 * i + 1) / 2 == i);
        assert(raw[2 * i] == hex_digit(b / 16) as u8);
        assert(raw[2 * i + 1] == hex_digit(b % 16) as u8);
        assert(hex_value(raw[2 * i]) == Some(b / 16));
        assert(hex_value(raw[2 * i + 1]) == Some(b % 16));
    }
    assert(hex_bytes(raw) =~= bytes);
}

impl Context {
    /// The hexadecimal text of the context.
    pub fn to_text(&self) -> (text: String)
        ensures
            text@ == hex_text(self.data@),
    {
        encode(&self.data)
    }

    /// Reads a context from its hexadecimal text.
    pub fn from_text(text: &str) -> (context: Option<Context>)
        ensures
            context is Some <==> is_hex(text.spec_bytes()) && hex_bytes(text.spec_bytes()).len()
                == CONTEXT_SIZE,
            context matches Some(c) ==> c.data@ == hex_bytes(text.spec_bytes()),
    {
        match decode(text) {
            Some(bytes) => if bytes.len() == CONTEXT_SIZE {
                Some(Context::from_slice(bytes.as_slice()))
            } else {
                None
            },
            None => None,
        }
    }
}

impl ContentHash {
    /// The hexadecimal text of the hash.
    pub fn to_text(&self) -> (text: String)
        ensures
            text@ == hex_text(self.data@),
    {
        encode(&self.data)
    }

    /// Reads a hash from its hexadecimal text.
    pub fn from_text(text: &str) -> (hash: Option<ContentHash>)
        ensures
            hash is Some <==> is_hex(text.spec_bytes()) && hex_bytes(text.spec_bytes()).len()
                == HASH_SIZE,
            hash matches Some(h) ==> h.data@ == hex_bytes(text.spec_bytes()),
    {
        match decode(text) {
            Some(bytes) => if bytes.len() == HASH_SIZE {
                Some(ContentHash::from_slice(bytes.as_slice()))
            } else {
                None
            },
            None => None,
        }
    }
}

/// The hexadecimal digits of a number, most significant first.
pub open spec fn hex_digits(n: nat) -> Seq<char>
    decreases n,
{
    if n < 16 {
        seq![hex_digit(n as int)]
    } else {
        hex_digits(n / 16).push(hex_digit((n % 16) as int))
    }
}

fn digit(d: u64) -> (c: char)
    requires
        d < 16,
    ensures
        c == hex_digit(d as int),
{
    match d {
        0 => '0',
        1 => '1',
        2 => '2',
        3 => '3',
        4 => '4',
        5 => '5',
        6 => '6',
        7 => '7',
        8 => '8',
        9 => '9',
        10 => 'a',
        11 => 'b',
        12 => 'c',
        13 => 'd',
        14 => 'e',
        _ => 'f',
    }
}

/// Writes a number in hexadecimal.
pub fn hex_number(n: u64) -> (text: String)
    ensures
        text@ == hex_digits(n as nat),
    decreases n,
{
    if n < 16 {
        let mut text = String::new();
        text.push(digit(n));
        assert(text@ =~= hex_digits(n as nat));
        return text;
    }
    let mut text = hex_number(n / 16);
    text.push(digit(n % 16));
    text
}

} // verus!
