//! Hexadecimal text for digests, block hashes and addresses.
//!
//! The encoding and decoding themselves are done by the `hex` crate; this
//! module states what those calls return and builds the `0x`-prefixed forms
//! on top of them.

use vstd::prelude::*;
use vstd::slice::slice_subrange;
use vstd::string::*;

verus! {

/// Why a hexadecimal text could not be turned into bytes.
#[derive(Debug, Clone, Copy, PartialEq, Eq)]
pub enum HexError {
    /// The byte `c` at position `index` is no hexadecimal digit.
    InvalidHexCharacter { c: char, index: usize },
    /// The text has an odd number of bytes.
    OddLength,
    /// The text does not have exactly two digits per expected byte.
    InvalidStringLength,
}

/// Why a `0x`-prefixed hexadecimal text could not be turned into bytes.
#[derive(Debug, Clone, Copy, PartialEq, Eq)]
pub enum DecodeError {
    /// The text does not start with `0x`.
    MissingPrefix,
    /// The digits after the prefix are malformed.
    Hex(HexError),
}

/// The lowercase digit for a value below sixteen.
pub open spec fn lower_hex_digit(n: int) -> char {
    seq!['0', '1', '2', '3', '4', '5', '6', '7', '8', '9', 'a', 'b', 'c', 'd', 'e', 'f'][n]
}

/// Lowercase hexadecimal text of `bytes`: two digits per byte, high nibble first.
pub open spec fn hex_encode(bytes: Seq<u8>) -> Seq<char> {
    Seq::new(
        2 * bytes.len(),
        |i: int|
            if i % 2 == 0 {
                lower_hex_digit(bytes[i / 2] as int / 16)
            } else {
                lower_hex_digit(bytes[i / 2] as int % 16)
            },
    )
}

/// The value of one ASCII hexadecimal digit, either case; `None` for any other byte.
pub open spec fn nibble(c: u8) -> Option<int> {
    if 0x30 <= c <= 0x39 {
        Some(c as int - 0x30)
    } else if 0x61 <= c <= 0x66 {
        Some(c as int - 0x61 + 10)
    } else if 0x41 <= c <= 0x46 {
        Some(c as int - 0x41 + 10)
    } else {
        None
    }
}

/// Position of the first byte of `text` that is no hexadecimal digit, or
/// `text.len()` when every byte is one.
pub open spec fn first_non_hex(text: Seq<u8>) -> int
    decreases text.len(),
{
    if text.len() == 0 {
        0
    } else if nibble(text[0]) is None {
        0
    } else {
        1 + first_non_hex(text.skip(1))
    }
}

/// The bytes that an even-length run of hexadecimal digits stands for.
pub open spec fn hex_bytes(text: Seq<u8>) -> Seq<u8> {
    Seq::new(
        text.len() / 2,
        |i: int| (nibble(text[2 * i]).unwrap() * 16 + nibble(text[2 * i + 1]).unwrap()) as u8,
    )
}

/// The error for the first byte of `text` that is no hexadecimal digit.
pub open spec fn bad_digit(text: Seq<u8>) -> HexError {
    let at = first_non_hex(text);
    HexError::InvalidHexCharacter { c: text[at] as char, index: at as usize }
}

/// Decoding of hexadecimal text of any even length.
pub open spec fn hex_decode(text: Seq<u8>) -> Result<Seq<u8>, HexError> {
    if text.len() % 2 != 0 {
        Err(HexError::OddLength)
    } else if first_non_hex(text) < text.len() {
        Err(bad_digit(text))
    } else {
        Ok(hex_bytes(text))
    }
}

/// Decoding of hexadecimal text that must stand for exactly `n` bytes.
pub open spec fn hex_decode_exact(text: Seq<u8>, n: nat) -> Result<Seq<u8>, HexError> {
    if text.len() % 2 != 0 {
        Err(HexError::OddLength)
    } else if text.len() / 2 != n {
        Err(HexError::InvalidStringLength)
    } else if first_non_hex(text) < text.len() {
        Err(bad_digit(text))
    } else {
        Ok(hex_bytes(text))
    }
}

/// Whether `text` begins with the two ASCII bytes `0x`.
pub open spec fn has_0x_prefix(text: Seq<u8>) -> bool {
    text.len() >= 2 && text[0] == 0x30 && text[1] == 0x78
}

/// `text` without any leading run of `0x` markers.
pub open spec fn trim_0x(text: Seq<u8>) -> Seq<u8>
    decreases text.len(),
{
    if has_0x_prefix(text) {
        trim_0x(text.skip(2))
    } else {
        text
    }
}

/// Decoding of text that must carry exactly one leading `0x` marker.
pub open spec fn decode_prefixed(text: Seq<u8>) -> Result<Seq<u8>, DecodeError> {
    if has_0x_prefix(text) {
        match hex_decode(text.skip(2)) {
            Ok(bytes) => Ok(bytes),
            Err(e) => Err(DecodeError::Hex(e)),
        }
    } else {
        Err(DecodeError::MissingPrefix)
    }
}

/// The `0x`-prefixed lowercase rendering of `bytes`.
pub open spec fn prefixed_hex(bytes: Seq<u8>) -> Seq<char> {
    seq!['0', 'x'] + hex_encode(bytes)
}

/// Calls `hex::encode`. Trusted: the result is the lowercase hexadecimal
/// text of `data`, two digits per byte with the high nibble first.
#[verifier::external_body]
pub(crate) fn encode(data: &[u8]) -> (text: String)
    ensures
        text@ == hex_encode(data@),
{
    hex::encode(data)
}

/// Calls `hex::decode`. Trusted: an odd length is refused first, then the
/// first byte that is no digit (either case is a digit); otherwise each pair
/// of digits gives one byte.
#[verifier::external_body]
pub(crate) fn decode(text: &[u8]) -> (res: Result<Vec<u8>, HexError>)
    ensures
        match hex_decode(text@) {
            Ok(bytes) => res matches Ok(v) && v@ == bytes,
            Err(e) => res == Err::<Vec<u8>, HexError>(e),
        },
{
    match hex::decode(text) {
        Ok(v) => Ok(v),
        Err(hex::FromHexError::InvalidHexCharacter { c, index }) => Err(
            HexError::InvalidHexCharacter { c, index },
        ),
        Err(hex::FromHexError::OddLength) => Err(HexError::OddLength),
        Err(hex::FromHexError::InvalidStringLength) => Err(HexError::InvalidStringLength),
    }
}

/// Calls `hex::FromHex::from_hex` for an array of 32 bytes. Trusted: an odd
/// length is refused first, then a length other than 64 digits, then the
/// first byte that is no digit; otherwise each pair of digits gives one byte.
#[verifier::external_body]
pub(crate) fn decode_32(text: &[u8]) -> (res: Result<[u8; 32], HexError>)
    ensures
        match hex_decode_exact(text@, 32) {
            Ok(bytes) => res matches Ok(a) && a@ == bytes,
            Err(e) => res == Err::<[u8; 32], HexError>(e),
        },
{
    match <[u8; 32] as hex::FromHex>::from_hex(text) {
        Ok(a) => Ok(a),
        Err(hex::FromHexError::InvalidHexCharacter { c, index }) => Err(
            HexError::InvalidHexCharacter { c, index },
        ),
        Err(hex::FromHexError::OddLength) => Err(HexError::OddLength),
        Err(hex::FromHexError::InvalidStringLength) => Err(HexError::InvalidStringLength),
    }
}

/// Lowercase hexadecimal text of `data`, without a prefix.
pub fn encode_hex(data: &[u8]) -> (text: String)
    ensures
        text@ == hex_encode(data@),
        text@.len() == 2 * data@.len(),
{
    encode(data)
}

/// Lowercase hexadecimal text of `data` behind a `0x` marker.
pub fn encode_prefixed(data: &[u8]) -> (text: String)
    ensures
        text@ == prefixed_hex(data@),
{
    let digits = encode(data);
    let mut text = String::from_str("0x");
    proof {
        reveal_strlit("0x");
        assert("0x"@ =~= seq!['0', 'x']);
    }
    text.append(digits.as_str());
    text
}

/// Number of leading bytes of `text` taken up by `0x` markers.
pub fn leading_markers(text: &[u8]) -> (k: usize)
    ensures
        k <= text@.len(),
        text@.skip(k as int) == trim_0x(text@),
{
    let mut k: usize = 0;
    assert(text@.skip(0) =~= text@);
    while text.len() - k >= 2 && text[k] == 0x30 && text[k + 1] == 0x78
        invariant
            k <= text@.len(),
            trim_0x(text@.skip(k as int)) == trim_0x(text@),
        decreases text@.len() - k,
    {
        proof {
            let rest = text@.skip(k as int);
            assert(has_0x_prefix(rest));
            assert(rest.skip(2) =~= text@.skip(k + 2));
        }
        k = k + 2;
    }
    proof {
        let rest = text@.skip(k as int);
        assert(!has_0x_prefix(rest));
    }
    k
}

/// Bytes of a hexadecimal text that starts with `0x`.
///
/// The text is refused when the marker is missing, and otherwise exactly
/// when its digits are: odd in number, or holding a byte that is no digit.
pub fn decode_bytes(s: &str) -> (res: Result<Vec<u8>, DecodeError>)
    ensures
        match decode_prefixed(s.spec_bytes()) {
            Ok(bytes) => res matches Ok(v) && v@ == bytes,
            Err(e) => res == Err::<Vec<u8>, DecodeError>(e),
        },
{
    let text = s.as_bytes();
    if text.len() < 2 || text[0] != 0x30 || text[1] != 0x78 {
        return Err(DecodeError::MissingPrefix);
    }
    let digits = slice_subrange(text, 2, text.len());
    assert(digits@ =~= text@.skip(2));
    match decode(digits) {
        Ok(v) => Ok(v),
        Err(e) => Err(DecodeError::Hex(e)),
    }
}

/// Bytes shown as `0x`-prefixed lowercase hexadecimal text.
#[derive(Debug, Clone)]
pub struct HexString(pub Vec<u8>);

impl View for HexString {
    type V = Seq<u8>;

    open spec fn view(&self) -> Seq<u8> {
        self.0@
    }
}

impl HexString {
    /// The text form: `0x` and two lowercase digits per byte.
    pub fn to_string(&self) -> (text: String)
        ensures
            text@ == prefixed_hex(self@),
    {
        encode_prefixed(self.0.as_slice())
    }

    /// Reads the text form back; see [`decode_bytes`] for what is refused.
    pub fn parse(s: &str) -> (res: Result<HexString, DecodeError>)
        ensures
            match decode_prefixed(s.spec_bytes()) {
                Ok(bytes) => res matches Ok(h) && h@ == bytes,
                Err(e) => res matches Err(err) && err == e,
            },
    {
        match decode_bytes(s) {
            Ok(v) => Ok(HexString(v)),
            Err(e) => Err(e),
        }
    }
}

/// Decoding gives back what encoding was given: every byte sequence
/// survives a trip through its lowercase hexadecimal text.
pub proof fn lemma_decode_of_encode(bytes: Seq<u8>, text: Seq<u8>)
    requires
        text.len() == 2 * bytes.len(),
        forall|i: int| 0 <= i < text.len() ==> text[i] as char == #[trigger] hex_encode(bytes)[i],
    ensures
        hex_decode(text) == Ok::<Seq<u8>, HexError>(bytes),
{
    assert forall|i: int| 0 <= i < text.len() implies nibble(#[trigger] text[i]) == Some(
        if i % 2 == 0 {
            bytes[i / 2] as int / 16
        } else {
            bytes[i / 2] as int % 16
        },
    ) by {
        let c = hex_encode(bytes)[i];
        assert(text[i] as char == c);
        let n = if i % 2 == 0 {
            bytes[i / 2] as int / 16
        } else {
            bytes[i / 2] as int % 16
        };
        assert(0 <= n < 16);
        assert(c == lower_hex_digit(n));
    }
    lemma_all_digits(text);
    assert(hex_bytes(text) =~= bytes);
}

/// A text whose bytes are all digits has no first non-digit.
pub proof fn lemma_all_digits(text: Seq<u8>)
    requires
        forall|i: int| 0 <= i < text.len() ==> nibble(#[trigger] text[i]) is Some,
    ensures
        first_non_hex(text) == text.len(),
    decreases text.len(),
{
    if text.len() > 0 {
        let rest = text.skip(1);
        assert forall|i: int| 0 <= i < rest.len() implies nibble(#[trigger] rest[i]) is Some by {
            assert(rest[i] == text[i + 1]);
        }
        lemma_all_digits(rest);
    }
}

} // verus!
