//! Byte blobs on the wire: `0x`-prefixed lowercase hex strings.
//!
//! Call data, signatures and order identifiers are exchanged in this
//! form.  Rendering goes through `hex::encode`, parsing through
//! `hex::decode`, each behind a trusted wrapper with an exact contract;
//! the prefix handling around them is verified.

use vstd::prelude::*;
use vstd::slice::{slice_index_get, slice_subrange};
use vstd::string::StringSliceAdditionalSpecFns;
use crate::solve::SolveError;

verus! {

/// The lowercase hex digit of a value below 16.
pub open spec fn hex_digit(n: u8) -> char
    recommends
        n < 16,
{
    if n < 10 {
        ((n + 0x30) as u8) as char
    } else {
        ((n + 0x57) as u8) as char
    }
}

/// The lowercase hex form of bytes: two digits per byte, high nibble
/// first.
pub open spec fn hex_of(b: Seq<u8>) -> Seq<char> {
    Seq::new(
        b.len() * 2,
        |i: int|
            if i % 2 == 0 {
                hex_digit(b[i / 2] >> 4)
            } else {
                hex_digit(b[i / 2] & 0xf)
            },
    )
}

/// Whether the byte is an ASCII hex digit, either case.
pub open spec fn is_hex_byte(c: u8) -> bool {
    (0x30 <= c && c <= 0x39) || (0x61 <= c && c <= 0x66) || (0x41 <= c && c <= 0x46)
}

/// The value of an ASCII hex digit byte.
pub open spec fn hex_byte_val(c: u8) -> u8
    recommends
        is_hex_byte(c),
{
    if 0x30 <= c && c <= 0x39 {
        (c - 0x30) as u8
    } else if 0x61 <= c && c <= 0x66 {
        (c - 0x61 + 10) as u8
    } else {
        (c - 0x41 + 10) as u8
    }
}

/// The bytes an even-length run of hex digit bytes stands for.
pub open spec fn bytes_of_hex(s: Seq<u8>) -> Seq<u8> {
    Seq::new(
        s.len() / 2,
        |i: int| ((hex_byte_val(s[2 * i]) as int) * 16 + hex_byte_val(s[2 * i + 1]) as int) as u8,
    )
}

/// The error type `hex::decode` reports: an odd input length or a byte
/// that is no hex digit.
#[verifier::external_type_specification]
#[verifier::external_body]
pub struct ExFromHexError(hex::FromHexError);

/// Relies on `hex::encode`: two lowercase digits per byte, high nibble
/// first.
#[verifier::external_body]
fn hex_encode(b: &Vec<u8>) -> (r: String)
    ensures
        r@ == hex_of(b@),
{
    hex::encode(b.as_slice())
}

/// Relies on `hex::decode`: it succeeds exactly on an even number of
/// hex digit bytes, either case, pairing them into bytes high nibble
/// first.
#[verifier::external_body]
fn hex_decode(s: &[u8]) -> (r: Result<Vec<u8>, hex::FromHexError>)
    ensures
        r is Ok <==> (s@.len() % 2 == 0 && forall|i: int|
            0 <= i < s@.len() ==> is_hex_byte(#[trigger] s@[i])),
        r matches Ok(v) ==> v@ == bytes_of_hex(s@),
{
    hex::decode(s)
}

/// Renders a byte blob in its wire form: `0x`, then lowercase hex.
pub fn bytes_to_hex(b: &Vec<u8>) -> (r: String)
    ensures
        r@ == seq!['0', 'x'] + hex_of(b@),
{
    let digits = hex_encode(b);
    let mut r = String::from_str("0x");
    r.append(digits.as_str());
    proof {
        reveal_strlit("0x");
        assert(r@ =~= seq!['0', 'x'] + hex_of(b@));
    }
    r
}

/// Parses a byte blob from its wire form.  Succeeds exactly on a `0x`
/// prefix followed by an even number of hex digits, either case.
pub fn hex_to_bytes(s: &str) -> (r: Result<Vec<u8>, SolveError>)
    ensures
        r is Ok <==> (s.spec_bytes().len() >= 2 && s.spec_bytes()[0] == 0x30 && s.spec_bytes()[1]
            == 0x78 && (s.spec_bytes().len() - 2) % 2 == 0 && forall|i: int|
            2 <= i < s.spec_bytes().len() ==> is_hex_byte(#[trigger] s.spec_bytes()[i])),
        r matches Ok(v) ==> v@ == bytes_of_hex(s.spec_bytes().skip(2)),
        r matches Err(e) ==> e == SolveError::MalformedInput,
{
    let sb = s.as_bytes();
    if sb.len() < 2 {
        return Err(SolveError::MalformedInput);
    }
    if *slice_index_get(sb, 0) != 0x30u8 || *slice_index_get(sb, 1) != 0x78u8 {
        return Err(SolveError::MalformedInput);
    }
    let rest = slice_subrange(sb, 2, sb.len());
    proof {
        assert(rest@ =~= s.spec_bytes().skip(2));
    }
    match hex_decode(rest) {
        Ok(v) => {
            proof {
                assert forall|i: int| 2 <= i < s.spec_bytes().len() implies is_hex_byte(
                    #[trigger] s.spec_bytes()[i],
                ) by {
                    assert(rest@[i - 2] == s.spec_bytes()[i]);
                }
            }
            Ok(v)
        },
        Err(_) => Err(SolveError::MalformedInput),
    }
}

} // verus!
