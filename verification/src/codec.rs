//! Text encodings of byte strings: hexadecimal (the `hex` crate) and
//! Base58 (the `bs58` crate).
use vstd::prelude::*;

verus! {

/// Whether `c` is an ASCII hexadecimal digit, either case.
pub open spec fn is_hex_digit(c: u8) -> bool {
    (0x30 <= c <= 0x39) || (0x41 <= c <= 0x46) || (0x61 <= c <= 0x66)
}

/// The value of an ASCII hexadecimal digit.
pub open spec fn hex_digit_value(c: u8) -> u8 {
    if 0x30 <= c <= 0x39 {
        (c - 0x30) as u8
    } else if 0x41 <= c <= 0x46 {
        (c - 0x41 + 10) as u8
    } else {
        (c - 0x61 + 10) as u8
    }
}

/// What decoding the hexadecimal text `s` (its bytes) gives: one byte per
/// pair of digits, high digit first; nothing for an odd length or a byte
/// that is not a hex digit.
pub open spec fn hex_decoded(s: Seq<u8>) -> Option<Seq<u8>> {
    if s.len() % 2 == 0 && (forall|i: int| 0 <= i < s.len() ==> is_hex_digit(#[trigger] s[i])) {
        Some(
            Seq::new(
                (s.len() / 2) as nat,
                |i: int| (hex_digit_value(s[2 * i]) * 16 + hex_digit_value(s[2 * i + 1])) as u8,
            ),
        )
    } else {
        None
    }
}

/// Calls `hex::decode` on the text bytes `s`. Trusted: the crate accepts
/// exactly an even number of hex digits (either case) and turns each pair into
/// one byte, high digit first (`val` and `decode_to_slice` in its source); it
/// rejects anything else.
#[verifier::external_body]
pub(crate) fn hex_decode(s: &[u8]) -> (r: Option<Vec<u8>>)
    ensures
        match r {
            Some(v) => hex_decoded(s@) == Some(v@),
            None => hex_decoded(s@) is None,
        },
{
    hex::decode(s).ok()
}

/// The value of a digit of the Bitcoin Base58 alphabet
/// `123456789ABCDEFGHJKLMNPQRSTUVWXYZabcdefghijkmnopqrstuvwxyz`, or `None`
/// for any other character.
pub open spec fn b58_digit(c: char) -> Option<nat> {
    if '1' <= c <= '9' {
        Some((c as nat - '1' as nat) as nat)
    } else if 'A' <= c <= 'H' {
        Some((c as nat - 'A' as nat + 9) as nat)
    } else if 'J' <= c <= 'N' {
        Some((c as nat - 'J' as nat + 17) as nat)
    } else if 'P' <= c <= 'Z' {
        Some((c as nat - 'P' as nat + 22) as nat)
    } else if 'a' <= c <= 'k' {
        Some((c as nat - 'a' as nat + 33) as nat)
    } else if 'm' <= c <= 'z' {
        Some((c as nat - 'm' as nat + 44) as nat)
    } else {
        None
    }
}

/// The number the Base58 digits of `s` spell, most significant first.
pub open spec fn b58_value(s: Seq<char>) -> nat
    decreases s.len(),
{
    if s.len() == 0 {
        0
    } else {
        b58_value(s.drop_last()) * 58 + b58_digit(s.last()).unwrap_or(0)
    }
}

/// How many `1` (zero digits) the text starts with.
pub open spec fn b58_leading_zeros(s: Seq<char>) -> nat
    decreases s.len(),
{
    if s.len() > 0 && s[0] == '1' {
        1 + b58_leading_zeros(s.drop_first())
    } else {
        0
    }
}

/// `v` in big-endian bytes, without leading zero bytes (none for zero).
pub open spec fn be_bytes(v: nat) -> Seq<u8>
    decreases v,
{
    if v == 0 {
        seq![]
    } else {
        be_bytes(v / 256) + seq![(v % 256) as u8]
    }
}

/// What `bs58::decode(..).into_vec()` gives for the text `s` with the Bitcoin
/// alphabet: a zero byte for each leading `1`, then the number the digits
/// spell in big-endian bytes; nothing where a character is not a digit.
pub open spec fn bs58_decoded(s: Seq<char>) -> Option<Seq<u8>> {
    if forall|i: int| 0 <= i < s.len() ==> #[trigger] b58_digit(s[i]) is Some {
        Some(Seq::new(b58_leading_zeros(s), |i: int| 0u8) + be_bytes(b58_value(s)))
    } else {
        None
    }
}

/// Calls `bs58::decode(s).into_vec()`. Trusted: with the Bitcoin alphabet
/// the crate refuses a character outside it (`decode_into` in its source),
/// and otherwise builds the number the digits spell and puts a zero byte in
/// front of it for each leading `1`, as [`bs58_decoded`] states; its output
/// buffer, as long as the text, always suffices.
#[verifier::external_body]
pub(crate) fn bs58_decode(s: &str) -> (r: Option<Vec<u8>>)
    ensures
        match r {
            Some(v) => bs58_decoded(s@) == Some(v@),
            None => bs58_decoded(s@) is None,
        },
{
    bs58::decode(s).into_vec().ok()
}

} // verus!
