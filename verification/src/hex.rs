//! Hexadecimal text of 20-byte identifiers.

use vstd::prelude::*;

verus! {

/// `0`-`9`, `a`-`f` or `A`-`F`.
pub open spec fn is_hex_digit(b: u8) -> bool {
    (0x30 <= b <= 0x39) || (0x61 <= b <= 0x66) || (0x41 <= b <= 0x46)
}

/// `0`-`9` or `a`-`f`.
pub open spec fn is_lower_hex_digit(b: u8) -> bool {
    (0x30 <= b <= 0x39) || (0x61 <= b <= 0x66)
}

/// The number that a hexadecimal digit stands for.
pub open spec fn hex_digit_value(b: u8) -> int {
    if 0x30 <= b <= 0x39 {
        b - 0x30
    } else if 0x61 <= b <= 0x66 {
        b - 0x61 + 10
    } else {
        b - 0x41 + 10
    }
}

/// The bytes that a text of hexadecimal digits spells, two digits to a byte,
/// the high digit first.
pub open spec fn hex_decoded(text: Seq<u8>) -> Seq<u8> {
    Seq::new(
        text.len() / 2,
        |i: int| (16 * hex_digit_value(text[2 * i]) + hex_digit_value(text[2 * i + 1])) as u8,
    )
}

/// Every byte is a hexadecimal digit.
pub open spec fn all_hex_digits(text: Seq<u8>) -> bool {
    forall|i: int| 0 <= i < text.len() ==> is_hex_digit(#[trigger] text[i])
}

/// Every byte is a hexadecimal digit in lower case.
pub open spec fn all_lower_hex_digits(text: Seq<u8>) -> bool {
    forall|i: int| 0 <= i < text.len() ==> is_lower_hex_digit(#[trigger] text[i])
}

/// `index` is the place of the first byte that is not a hexadecimal digit.
pub open spec fn first_non_hex_digit(text: Seq<u8>, index: int) -> bool {
    &&& 0 <= index < text.len()
    &&& !is_hex_digit(text[index])
    &&& forall|j: int| 0 <= j < index ==> is_hex_digit(#[trigger] text[j])
}

/// `index` is the place of the first byte that is not a hexadecimal digit in
/// lower case.
pub open spec fn first_non_lower_hex_digit(text: Seq<u8>, index: int) -> bool {
    &&& 0 <= index < text.len()
    &&& !is_lower_hex_digit(text[index])
    &&& forall|j: int| 0 <= j < index ==> is_lower_hex_digit(#[trigger] text[j])
}

/// Why a text is not the forty hexadecimal digits of an identifier.
#[derive(Clone, Copy, Debug, PartialEq, Eq)]
pub enum HexError {
    /// The number of bytes is odd.
    OddLength,
    /// The number of bytes is even, but not forty.
    InvalidStringLength,
    /// The byte at `index` is no hexadecimal digit.
    InvalidHexCharacter { index: usize },
}

/// `hex::decode_to_slice` into twenty bytes.
///
/// The call succeeds on forty hexadecimal digits of either case and then
/// yields the bytes they spell. It refuses an odd length first, then a length
/// other than forty, then the first byte that is no hexadecimal digit.
#[verifier::external_body]
pub(crate) fn decode_hex_20(text: &[u8]) -> (decoded: Result<[u8; 20], HexError>)
    ensures
        match decoded {
            Ok(bytes) => text@.len() == 40 && all_hex_digits(text@) && bytes@ == hex_decoded(
                text@,
            ),
            Err(HexError::OddLength) => text@.len() % 2 == 1,
            Err(HexError::InvalidStringLength) => text@.len() % 2 == 0 && text@.len() != 40,
            Err(HexError::InvalidHexCharacter { index }) => text@.len() == 40
                && first_non_hex_digit(text@, index as int),
        },
{
    let mut out = [0u8; 20];
    match hex::decode_to_slice(text, &mut out) {
        Ok(()) => Ok(out),
        Err(hex::FromHexError::OddLength) => Err(HexError::OddLength),
        Err(hex::FromHexError::InvalidStringLength) => Err(HexError::InvalidStringLength),
        Err(hex::FromHexError::InvalidHexCharacter { index, .. }) => Err(
            HexError::InvalidHexCharacter { index },
        ),
    }
}

/// Why a line is not an info-hash.
#[derive(Clone, Copy, Debug, PartialEq, Eq)]
pub enum InfoHashParseError {
    /// The number of bytes is odd.
    OddLength,
    /// The number of bytes is even, but not forty.
    InvalidLength,
    /// The byte at `index` is the first that is no hexadecimal digit in lower
    /// case.
    InvalidCharacter { index: usize },
}

/// The place of the first byte before `end` that is not a hexadecimal digit
/// in lower case.
fn find_non_lower_hex_digit(text: &[u8], end: usize) -> (found: Option<usize>)
    requires
        end <= text@.len(),
    ensures
        match found {
            Some(index) => index < end && first_non_lower_hex_digit(text@, index as int),
            None => forall|j: int| 0 <= j < end ==> is_lower_hex_digit(#[trigger] text@[j]),
        },
{
    let mut i: usize = 0;
    while i < end
        invariant
            i <= end <= text@.len(),
            forall|j: int| 0 <= j < i ==> is_lower_hex_digit(#[trigger] text@[j]),
        decreases end - i,
    {
        let b = text[i];
        let lower = (0x30 <= b && b <= 0x39) || (0x61 <= b && b <= 0x66);
        if !lower {
            return Some(i);
        }
        i += 1;
    }
    None
}

/// Reads forty hexadecimal digits in lower case as the twenty bytes of an
/// info-hash.
///
/// An odd length is refused first, then a length other than forty, then the
/// first byte that is no hexadecimal digit in lower case.
pub fn parse_info_hash_bytes(text: &[u8]) -> (parsed: Result<[u8; 20], InfoHashParseError>)
    ensures
        match parsed {
            Ok(bytes) => text@.len() == 40 && all_lower_hex_digits(text@) && bytes@ == hex_decoded(
                text@,
            ),
            Err(InfoHashParseError::OddLength) => text@.len() % 2 == 1,
            Err(InfoHashParseError::InvalidLength) => text@.len() % 2 == 0 && text@.len() != 40,
            Err(InfoHashParseError::InvalidCharacter { index }) => text@.len() == 40
                && first_non_lower_hex_digit(text@, index as int),
        },
{
    match decode_hex_20(text) {
        Ok(bytes) => match find_non_lower_hex_digit(text, 40) {
            Some(index) => Err(InfoHashParseError::InvalidCharacter { index }),
            None => Ok(bytes),
        },
        Err(HexError::OddLength) => Err(InfoHashParseError::OddLength),
        Err(HexError::InvalidStringLength) => Err(InfoHashParseError::InvalidLength),
        Err(HexError::InvalidHexCharacter { index }) => match find_non_lower_hex_digit(text, index) {
            Some(earlier) => Err(InfoHashParseError::InvalidCharacter { index: earlier }),
            None => Err(InfoHashParseError::InvalidCharacter { index }),
        },
    }
}

} // verus!
