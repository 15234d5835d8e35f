//! The prefix matcher: compares a candidate digest's leading bytes
//! against a target prefix.

use vstd::prelude::*;

use crate::hex::encoded;

verus! {

/// The digest's leading bytes equal the target prefix. When `half` is
/// set, the final byte of the prefix counts only by its upper nibble: its
/// lower nibble is a padding artifact and is ignored.
pub open spec fn matches_spec(digest: Seq<u8>, prefix: Seq<u8>, half: bool) -> bool {
    if half {
        digest.subrange(0, prefix.len() - 1) == prefix.subrange(0, prefix.len() - 1)
            && digest[prefix.len() - 1] / 16 == prefix[prefix.len() - 1] / 16
    } else {
        digest.subrange(0, prefix.len() as int) == prefix
    }
}

/// Law: a matching digest's hexadecimal text begins with the target
/// prefix's hexadecimal text — every digit of the prefix in full-byte
/// mode, and every digit but the padded last one in half-byte mode.
pub proof fn lemma_match_fixes_text_prefix(digest: Seq<u8>, prefix: Seq<u8>, half: bool)
    requires
        prefix.len() <= digest.len(),
        half ==> prefix.len() >= 1,
        matches_spec(digest, prefix, half),
    ensures
        !half ==> encoded(digest).subrange(0, 2 * prefix.len() as int) == encoded(prefix),
        half ==> encoded(digest).subrange(0, 2 * prefix.len() - 1) == encoded(prefix).subrange(
            0,
            2 * prefix.len() - 1,
        ),
{
    let n = prefix.len() as int;
    if half {
        assert forall|i: int| 0 <= i < 2 * n - 1 implies encoded(digest)[i] == encoded(prefix)[i]
            by {
            if i / 2 < n - 1 {
                assert(digest.subrange(0, n - 1)[i / 2] == prefix.subrange(0, n - 1)[i / 2]);
                assert(digest[i / 2] == prefix[i / 2]);
            } else {
                assert(i == 2 * n - 2 && i / 2 == n - 1);
            }
        }
        assert(encoded(digest).subrange(0, 2 * n - 1) =~= encoded(prefix).subrange(0, 2 * n - 1));
    } else {
        assert forall|i: int| 0 <= i < 2 * n implies encoded(digest)[i] == encoded(prefix)[i] by {
            assert(digest.subrange(0, n)[i / 2] == prefix[i / 2]);
            assert(digest[i / 2] == prefix[i / 2]);
        }
        assert(encoded(digest).subrange(0, 2 * n) =~= encoded(prefix));
    }
}

/// The first `n` bytes of the two vectors are equal.
fn bytes_eq_upto(a: &Vec<u8>, b: &Vec<u8>, n: usize) -> (r: bool)
    requires
        n <= a@.len(),
        n <= b@.len(),
    ensures
        r == (a@.subrange(0, n as int) == b@.subrange(0, n as int)),
{
    let mut i: usize = 0;
    while i < n
        invariant
            i <= n,
            n <= a@.len(),
            n <= b@.len(),
            forall|j: int| 0 <= j < i ==> a@[j] == b@[j],
        decreases n - i,
    {
        if a[i] != b[i] {
            assert(a@.subrange(0, n as int)[i as int] != b@.subrange(0, n as int)[i as int]);
            return false;
        }
        i = i + 1;
    }
    assert(a@.subrange(0, n as int) =~= b@.subrange(0, n as int));
    true
}

/// Decides whether the candidate digest begins with the target prefix:
/// exact byte equality, or, when `half` is set, equality up to the final
/// byte's upper nibble.
pub fn matches_prefix(new_sha: &Vec<u8>, sha_prefix: &Vec<u8>, half: bool) -> (r: bool)
    requires
        sha_prefix@.len() <= new_sha@.len(),
        half ==> sha_prefix@.len() >= 1,
    ensures
        r == matches_spec(new_sha@, sha_prefix@, half),
{
    let len = sha_prefix.len();
    if half {
        let front = bytes_eq_upto(new_sha, sha_prefix, len - 1);
        let a = new_sha[len - 1];
        let b = sha_prefix[len - 1];
        assert(a >> 4 == a / 16) by (bit_vector);
        assert(b >> 4 == b / 16) by (bit_vector);
        front && (a >> 4 == b >> 4)
    } else {
        let r = bytes_eq_upto(new_sha, sha_prefix, len);
        assert(sha_prefix@.subrange(0, len as int) =~= sha_prefix@);
        r
    }
}

} // verus!
