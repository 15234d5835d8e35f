//! One iteration of the brute-force search: write the counter, digest the
//! buffer, test the prefix. The parallel engine drives this in one loop
//! per worker, each worker owning a clone of the prepared buffer and a
//! counter stride equal to the worker count.

use vstd::prelude::*;

use crate::counter::update_hex_counter;
use crate::counter::with_counter;
use crate::error::Error;
use crate::hex::all_hex_digits;
use crate::hex::decode_hex_bytes;
use crate::hex::decoded;
use crate::hex::encode_hex;
use crate::hex::encoded;
use crate::hex::is_hex_digit;
use crate::matcher::matches_prefix;
use crate::matcher::matches_spec;
use vstd::arithmetic::div_mod::lemma_fundamental_div_mod;
use vstd::arithmetic::div_mod::lemma_mod_multiples_vanish;
use vstd::arithmetic::div_mod::lemma_small_mod;
use vstd::string::StringSliceAdditionalSpecFns;
use vstd::string::StrSliceExecFns;

verus! {

/// What the secure hash function returns for a byte sequence: its
/// 160-bit digest, as twenty bytes.
pub uninterp spec fn sha1_of(data: Seq<u8>) -> Seq<u8>;

/// The lowercase hexadecimal text of a byte sequence, as characters.
pub open spec fn hex_chars(b: Seq<u8>) -> Seq<char> {
    Seq::new(encoded(b).len(), |i: int| encoded(b)[i] as char)
}

/// Relies on sha1::Sha1 through digest::Digest::digest: the digest is a
/// function of the input bytes alone, and is twenty bytes long.
#[verifier::external_body]
fn sha1_digest(data: &Vec<u8>) -> (r: Vec<u8>)
    ensures
        r@ == sha1_of(data@),
        r@.len() == 20,
{
    <sha1::Sha1 as sha1::Digest>::digest(data.as_slice()).to_vec()
}

/// Relies on String::from_utf8: bytes below 128 are valid UTF-8 and
/// decode to the characters with the same code points.
#[verifier::external_body]
fn ascii_to_string(bytes: Vec<u8>) -> (r: String)
    requires
        forall|i: int| 0 <= i < bytes@.len() ==> bytes@[i] < 128,
    ensures
        r@.len() == bytes@.len(),
        forall|i: int| 0 <= i < bytes@.len() ==> r@[i] == bytes@[i] as char,
{
    String::from_utf8(bytes).unwrap()
}

/// Decodes a requested digest prefix: rejects one longer than forty
/// hexadecimal characters or holding a character that is no hexadecimal
/// digit, pads odd-length input with a trailing `0`, and records that the
/// padding occurred (half-byte mode).
pub fn parse_prefix(sha_prefix: &str) -> (r: Result<(Vec<u8>, bool), Error>)
    ensures
        r is Ok <==> sha_prefix.spec_bytes().len() <= 40 && all_hex_digits(
            sha_prefix.spec_bytes(),
        ),
        r matches Ok((target, half)) ==> half == (sha_prefix.spec_bytes().len() % 2 == 1)
            && target@ == (if sha_prefix.spec_bytes().len() % 2 == 0 {
            decoded(sha_prefix.spec_bytes())
        } else {
            decoded(sha_prefix.spec_bytes() + seq![48u8])
        }),
        r matches Ok((target, half)) ==> target@.len() <= 20 && (half ==> target@.len() >= 1),
        r is Err ==> r == Err::<(Vec<u8>, bool), Error>(Error::InvalidPrefixFormat),
{
    let mut bytes = sha_prefix.as_bytes_vec();
    if bytes.len() > 40 {
        return Err(Error::InvalidPrefixFormat);
    }
    let half = bytes.len() % 2 == 1;
    if half {
        bytes.push(48);
    }
    assert(half ==> bytes@ == sha_prefix.spec_bytes() + seq![48u8]);
    match decode_hex_bytes(&bytes) {
        Ok(t) => {
            assert(all_hex_digits(sha_prefix.spec_bytes())) by {
                assert(forall|i: int|
                    0 <= i < sha_prefix.spec_bytes().len() ==> sha_prefix.spec_bytes()[i]
                        == bytes@[i]);
            }
            Ok((t, half))
        },
        Err(_) => {
            assert(!all_hex_digits(sha_prefix.spec_bytes())) by {
                if all_hex_digits(sha_prefix.spec_bytes()) {
                    assert(forall|i: int|
                        0 <= i < bytes@.len() ==> is_hex_digit(#[trigger] bytes@[i]))
                        by {
                        assert(forall|i: int|
                            0 <= i < sha_prefix.spec_bytes().len() ==> bytes@[i]
                                == sha_prefix.spec_bytes()[i]);
                        assert(is_hex_digit(48u8));
                    }
                }
            }
            Err(Error::InvalidPrefixFormat)
        },
    }
}

/// One search iteration. Writes the current counter into the private
/// buffer at `hex_counter_start`, digests the whole buffer, and tests the
/// digest against the target prefix. On a match it leaves the counter in
/// place and returns the buffer together with the digest's hexadecimal
/// text; otherwise it advances the counter by the stride and returns
/// nothing.
pub fn inner_loop(
    i: &mut usize,
    commit_data: &mut Vec<u8>,
    hex_counter_start: usize,
    sha_prefix: &Vec<u8>,
    half: bool,
    stride: &usize,
) -> (r: Option<(Vec<u8>, String)>)
    requires
        hex_counter_start + 16 <= old(commit_data)@.len(),
        sha_prefix@.len() <= 20,
        half ==> sha_prefix@.len() >= 1,
        *old(i) + *stride <= usize::MAX,
    ensures
        final(commit_data)@ == with_counter(
            old(commit_data)@,
            *old(i) as u64,
            hex_counter_start as int,
        ),
        r is Some <==> matches_spec(sha1_of(final(commit_data)@), sha_prefix@, half),
        r matches Some((buf, text)) ==> buf@ == final(commit_data)@ && text@ == hex_chars(
            sha1_of(final(commit_data)@),
        ),
        r is Some ==> *final(i) == *old(i),
        r is None ==> *final(i) == *old(i) + *stride,
{
    update_hex_counter(commit_data, *i as u64, hex_counter_start);
    let new_sha = sha1_digest(commit_data);
    if matches_prefix(&new_sha, sha_prefix, half) {
        let text_bytes = encode_hex(&new_sha);
        assert(forall|k: int| 0 <= k < text_bytes@.len() ==> #[trigger] text_bytes@[k] < 128);
        let text = ascii_to_string(text_bytes);
        assert(text@ =~= hex_chars(sha1_of(commit_data@)));
        Some((commit_data.clone(), text))
    } else {
        *i = *i + *stride;
        None
    }
}

/// Worker `k` of a `w`-worker search visits counter `c`: starting at `k`
/// and advancing by `w`, it reaches `c` after some number of steps.
pub open spec fn visits(k: nat, w: nat, c: nat) -> bool {
    exists|t: nat| c == k + #[trigger] (t * w)
}

/// Law: the worker strides partition the counter space. For a worker
/// count `w` and any counter `c`, worker `k` visits `c` exactly when `k`
/// is `c % w` — so exactly one worker visits each counter, and together
/// the workers cover them all.
pub proof fn lemma_disjoint_coverage(c: nat, w: nat, k: nat)
    requires
        1 <= w,
        k < w,
    ensures
        visits(k, w, c) <==> k == c % w,
{
    let ci = c as int;
    let wi = w as int;
    let ki = k as int;
    if visits(k, w, c) {
        let t = choose|t: nat| c == k + #[trigger] (t * w);
        let ti = t as int;
        assert(ci == wi * ti + ki) by (nonlinear_arith)
            requires
                ci == ki + ti * wi,
        ;
        lemma_mod_multiples_vanish(ti, ki, wi);
        assert(ci % wi == ki % wi);
        lemma_small_mod(k, w);
    }
    if k == c % w {
        lemma_fundamental_div_mod(ci, wi);
        assert(ci == wi * (ci / wi) + ki);
        assert(ci / wi >= 0) by (nonlinear_arith)
            requires
                ci >= 0,
                wi >= 1,
        ;
        let t = (ci / wi) as nat;
        assert(ci == ki + (t as int) * wi) by (nonlinear_arith)
            requires
                ci == wi * (t as int) + ki,
        ;
        assert(c == k + t * w);
        assert(visits(k, w, c));
    }
}

} // verus!
