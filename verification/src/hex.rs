//! Conversion between hexadecimal text and raw bytes.

use vstd::prelude::*;

use crate::error::Error;
use vstd::string::StringSliceAdditionalSpecFns;
use vstd::string::StrSliceExecFns;

verus! {

/// The byte is the ASCII code of a hexadecimal digit.
pub open spec fn is_hex_digit(b: u8) -> bool {
    (48 <= b <= 57) || (65 <= b <= 70) || (97 <= b <= 102)
}

/// Numeric value of a hexadecimal digit byte.
pub open spec fn hex_val(b: u8) -> u8 {
    if 48 <= b <= 57 {
        (b - 48) as u8
    } else if 65 <= b <= 70 {
        (b - 55) as u8
    } else {
        (b - 87) as u8
    }
}

/// Lowercase ASCII hexadecimal digit of a nibble value below sixteen.
pub open spec fn hex_digit_of(n: u8) -> u8 {
    if n < 10 {
        (48 + n) as u8
    } else {
        (87 + n) as u8
    }
}

/// Every byte of the sequence is a hexadecimal digit.
pub open spec fn all_hex_digits(s: Seq<u8>) -> bool {
    forall|i: int| 0 <= i < s.len() ==> is_hex_digit(#[trigger] s[i])
}

/// The bytes a hexadecimal digit sequence denotes: two digits per byte,
/// most significant nibble first.
pub open spec fn decoded(s: Seq<u8>) -> Seq<u8> {
    Seq::new(s.len() / 2, |i: int| (hex_val(s[2 * i]) * 16 + hex_val(s[2 * i + 1])) as u8)
}

/// Lowercase hexadecimal text of a byte sequence, two digits per byte,
/// most significant nibble first.
pub open spec fn encoded(b: Seq<u8>) -> Seq<u8> {
    Seq::new(
        b.len() * 2,
        |i: int|
            if i % 2 == 0 {
                hex_digit_of(b[i / 2] / 16)
            } else {
                hex_digit_of(b[i / 2] % 16)
            },
    )
}

/// The lowercase image of a hexadecimal digit byte.
pub open spec fn lower_hex(b: u8) -> u8 {
    if 65 <= b <= 70 {
        (b + 32) as u8
    } else {
        b
    }
}

/// The sequence with every uppercase hexadecimal digit lowered.
pub open spec fn lowered(s: Seq<u8>) -> Seq<u8> {
    Seq::new(s.len(), |i: int| lower_hex(s[i]))
}

/// Numeric value of one hexadecimal digit byte, or the invalid-character
/// error.
fn hex_digit_val(c: u8) -> (r: Result<u8, Error>)
    ensures
        r is Ok <==> is_hex_digit(c),
        r matches Ok(v) ==> v == hex_val(c) && v < 16,
        r is Err ==> r == Err::<u8, Error>(Error::InvalidCharacter),
{
    if 48 <= c && c <= 57 {
        Ok(c - 48)
    } else if 65 <= c && c <= 70 {
        Ok(c - 55)
    } else if 97 <= c && c <= 102 {
        Ok(c - 87)
    } else {
        Err(Error::InvalidCharacter)
    }
}

/// Lowercase hexadecimal digit of a nibble value.
pub(crate) fn hex_digit(n: u8) -> (r: u8)
    requires
        n < 16,
    ensures
        r == hex_digit_of(n),
{
    if n < 10 {
        48 + n
    } else {
        87 + n
    }
}

/// Decodes an even number of hexadecimal digit bytes into raw bytes, two
/// digits per byte, most significant nibble first.
pub(crate) fn decode_hex_bytes(hex: &Vec<u8>) -> (r: Result<Vec<u8>, Error>)
    requires
        hex@.len() % 2 == 0,
    ensures
        r is Ok <==> all_hex_digits(hex@),
        r matches Ok(v) ==> v@ == decoded(hex@),
        r is Err ==> r == Err::<Vec<u8>, Error>(Error::InvalidCharacter),
{
    let n = hex.len();
    let mut out: Vec<u8> = Vec::new();
    let mut i: usize = 0;
    while i < n
        invariant
            i % 2 == 0,
            i <= n,
            n == hex@.len(),
            n % 2 == 0,
            all_hex_digits(hex@.subrange(0, i as int)),
            out@ == decoded(hex@.subrange(0, i as int)),
        decreases n - i,
    {
        let hi = match hex_digit_val(hex[i]) {
            Ok(v) => v,
            Err(e) => {
                return Err(e);
            },
        };
        let lo = match hex_digit_val(hex[i + 1]) {
            Ok(v) => v,
            Err(e) => {
                return Err(e);
            },
        };
        out.push(hi * 16 + lo);
        i = i + 2;
        assert(out@ =~= decoded(hex@.subrange(0, i as int)));
    }
    assert(hex@.subrange(0, n as int) =~= hex@);
    Ok(out)
}

/// Decodes hexadecimal text into raw bytes, two characters per byte, most
/// significant nibble first. The caller pads odd-length input beforehand.
pub fn decode_hex(hex: &str) -> (r: Result<Vec<u8>, Error>)
    requires
        hex.spec_bytes().len() % 2 == 0,
    ensures
        r is Ok <==> all_hex_digits(hex.spec_bytes()),
        r matches Ok(v) ==> v@ == decoded(hex.spec_bytes()),
        r is Err ==> r == Err::<Vec<u8>, Error>(Error::InvalidCharacter),
{
    let bytes = hex.as_bytes_vec();
    decode_hex_bytes(&bytes)
}

/// Encodes raw bytes as lowercase hexadecimal text, two digits per byte,
/// most significant nibble first.
pub fn encode_hex(bytes: &Vec<u8>) -> (r: Vec<u8>)
    requires
        bytes@.len() * 2 <= usize::MAX,
    ensures
        r@ == encoded(bytes@),
{
    let n = bytes.len();
    let mut out: Vec<u8> = Vec::new();
    let mut i: usize = 0;
    while i < n
        invariant
            i <= n,
            n == bytes@.len(),
            n * 2 <= usize::MAX,
            out@ == encoded(bytes@.subrange(0, i as int)),
        decreases n - i,
    {
        let b = bytes[i];
        assert(b >> 4 == b / 16 && b / 16 < 16) by (bit_vector);
        assert(b & 0xf == b % 16 && b % 16 < 16) by (bit_vector);
        out.push(hex_digit(b >> 4));
        out.push(hex_digit(b & 0xf));
        i = i + 1;
        assert(out@ =~= encoded(bytes@.subrange(0, i as int)));
    }
    assert(bytes@.subrange(0, n as int) =~= bytes@);
    out
}

/// Law: decoding an even-length hexadecimal digit sequence and re-encoding
/// the result yields the lowercase form of the original text.
pub proof fn lemma_hex_round_trip(s: Seq<u8>)
    requires
        s.len() % 2 == 0,
        all_hex_digits(s),
    ensures
        encoded(decoded(s)) == lowered(s),
{
    assert forall|i: int| 0 <= i < s.len() implies encoded(decoded(s))[i] == lower_hex(s[i]) by {
        let j = i / 2;
        let hi = hex_val(s[2 * j]);
        let lo = hex_val(s[2 * j + 1]);
        assert(hi < 16 && lo < 16);
        let d = decoded(s)[j];
        assert(d == hi * 16 + lo);
        assert(d / 16 == hi && d % 16 == lo) by (nonlinear_arith)
            requires
                d == hi * 16 + lo,
                hi < 16,
                lo < 16,
        ;
        if i % 2 == 0 {
            assert(i == 2 * j);
            assert(encoded(decoded(s))[i] == hex_digit_of(hi));
        } else {
            assert(i == 2 * j + 1);
            assert(encoded(decoded(s))[i] == hex_digit_of(lo));
        }
    }
    assert(encoded(decoded(s)) =~= lowered(s));
}

} // verus!
