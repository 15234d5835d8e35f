//! The buffer preparer: splits a raw commit payload into header and body,
//! injects the synthetic counter header line, and rebuilds the outer
//! length header.

use vstd::prelude::*;

use crate::error::Error;

verus! {

/// The tag that opens the outer header of a commit record.
pub open spec fn commit_tag() -> Seq<u8> {
    seq![99u8, 111u8, 109u8, 109u8, 105u8, 116u8, 32u8]
}

/// The synthetic header line that carries the rewritable counter:
/// a newline, the word `bruteforce`, a space, sixteen `0` digits and a
/// closing newline.
pub open spec fn bruteforce_header_bytes() -> Seq<u8> {
    seq![
        10u8,
        98u8,
        114u8,
        117u8,
        116u8,
        101u8,
        102u8,
        111u8,
        114u8,
        99u8,
        101u8,
        32u8,
        48u8,
        48u8,
        48u8,
        48u8,
        48u8,
        48u8,
        48u8,
        48u8,
        48u8,
        48u8,
        48u8,
        48u8,
        48u8,
        48u8,
        48u8,
        48u8,
        10u8,
    ]
}

/// The decimal digits of a number, most significant first.
pub open spec fn dec_rep(n: nat) -> Seq<u8>
    decreases n,
{
    if n < 10 {
        seq![(48 + n) as u8]
    } else {
        dec_rep(n / 10) + seq![(48 + n % 10) as u8]
    }
}

/// The sequence holds a zero byte.
pub open spec fn has_zero(s: Seq<u8>) -> bool {
    exists|i: int| 0 <= i < s.len() && s[i] == 0
}

/// `z` is the index of the first zero byte of the sequence.
pub open spec fn is_first_zero(s: Seq<u8>, z: int) -> bool {
    &&& 0 <= z < s.len()
    &&& s[z] == 0
    &&& forall|j: int| 0 <= j < z ==> s[j] != 0
}

/// The index of the first zero byte, meaningful when one exists.
pub open spec fn first_zero(s: Seq<u8>) -> int {
    choose|z: int| is_first_zero(s, z)
}

/// The outer header: everything before the first zero byte.
pub open spec fn commit_header(s: Seq<u8>) -> Seq<u8> {
    s.subrange(0, first_zero(s))
}

/// The inner payload: everything after the first zero byte.
pub open spec fn commit_body(s: Seq<u8>) -> Seq<u8> {
    s.subrange(first_zero(s) + 1, s.len() as int)
}

/// The sequence begins with the commit tag.
pub open spec fn starts_with_commit(s: Seq<u8>) -> bool {
    s.len() >= 7 && s.subrange(0, 7) == commit_tag()
}

/// `p` is the index of the first blank-line separator (two consecutive
/// newlines) of the sequence.
pub open spec fn is_first_sep(s: Seq<u8>, p: int) -> bool {
    &&& 0 <= p
    &&& p + 2 <= s.len()
    &&& s[p] == 10
    &&& s[p + 1] == 10
    &&& forall|j: int| 0 <= j < p ==> !((#[trigger] s[j]) == 10 && s[j + 1] == 10)
}

/// The sequence holds a blank-line separator.
pub open spec fn has_sep(s: Seq<u8>) -> bool {
    exists|p: int| is_first_sep(s, p)
}

/// The index of the first blank-line separator, meaningful when one
/// exists.
pub open spec fn first_sep(s: Seq<u8>) -> int {
    choose|p: int| is_first_sep(s, p)
}

/// The prepared buffer for a payload whose inner body splits at `p`: the
/// new outer header, the existing header lines, the synthetic counter
/// header, the blank-line separator, and the message.
pub open spec fn prepared(body: Seq<u8>) -> Seq<u8> {
    commit_tag() + dec_rep((body.len() + 29) as nat) + seq![0u8] + body.subrange(0, first_sep(body))
        + bruteforce_header_bytes() + seq![10u8, 10u8] + body.subrange(
        first_sep(body) + 2,
        body.len() as int,
    )
}

proof fn lemma_first_zero_agrees(s: Seq<u8>, z: int)
    requires
        is_first_zero(s, z),
    ensures
        first_zero(s) == z,
        has_zero(s),
{
    assert(has_zero(s)) by {
        assert(0 <= z < s.len() && s[z] == 0);
    }
    let z2 = first_zero(s);
    assert(is_first_zero(s, z2));
    if z2 < z {
        assert(s[z2] != 0);
    } else if z < z2 {
        assert(s[z] != 0);
    }
}

proof fn lemma_first_sep_agrees(s: Seq<u8>, p: int)
    requires
        is_first_sep(s, p),
    ensures
        first_sep(s) == p,
        has_sep(s),
{
    assert(has_sep(s)) by {
        assert(is_first_sep(s, p));
    }
    let p2 = first_sep(s);
    assert(is_first_sep(s, p2));
    if p2 < p {
        assert(!(s[p2] == 10 && s[p2 + 1] == 10));
    } else if p < p2 {
        assert(!(s[p] == 10 && s[p + 1] == 10));
    }
}

/// Law: the number embedded in the new outer header equals the byte
/// length of the rebuilt inner payload: existing headers, synthetic
/// counter header, blank-line separator and message.
pub proof fn lemma_prepared_length(body: Seq<u8>)
    requires
        has_sep(body),
    ensures
        body.len() + 29 == body.subrange(0, first_sep(body)).len()
            + bruteforce_header_bytes().len() + 2 + body.subrange(
            first_sep(body) + 2,
            body.len() as int,
        ).len(),
{
    assert(is_first_sep(body, first_sep(body)));
}

/// Splits the payload at its first zero byte and returns the inner
/// payload, after checking that the outer header marks a commit record.
pub fn extract_commit_data(decoded_data: &Vec<u8>) -> (r: Result<Vec<u8>, Error>)
    ensures
        r is Ok <==> has_zero(decoded_data@) && starts_with_commit(commit_header(decoded_data@)),
        r is Ok ==> is_first_zero(decoded_data@, first_zero(decoded_data@)),
        r matches Ok(body) ==> body@ == commit_body(decoded_data@),
        r == Err::<Vec<u8>, Error>(Error::MalformedObject) <==> !has_zero(decoded_data@),
        r == Err::<Vec<u8>, Error>(Error::NotACommit) <==> has_zero(decoded_data@)
            && !starts_with_commit(commit_header(decoded_data@)),
{
    let n = decoded_data.len();
    let mut z: usize = 0;
    while z < n && decoded_data[z] != 0
        invariant
            z <= n,
            n == decoded_data@.len(),
            forall|j: int| 0 <= j < z ==> decoded_data@[j] != 0,
        decreases n - z,
    {
        z = z + 1;
    }
    if z == n {
        assert(!has_zero(decoded_data@));
        return Err(Error::MalformedObject);
    }
    assert(is_first_zero(decoded_data@, z as int));
    proof {
        lemma_first_zero_agrees(decoded_data@, z as int);
    }
    let header_ok = z >= 7 && decoded_data[0] == 99u8 && decoded_data[1] == 111u8
        && decoded_data[2] == 109u8 && decoded_data[3] == 109u8 && decoded_data[4] == 105u8
        && decoded_data[5] == 116u8 && decoded_data[6] == 32u8;
    if !header_ok {
        assert(!starts_with_commit(commit_header(decoded_data@))) by {
            if z >= 7 && commit_header(decoded_data@).subrange(0, 7) == commit_tag() {
                assert(commit_header(decoded_data@).subrange(0, 7)[0] == decoded_data@[0]);
                assert(commit_header(decoded_data@).subrange(0, 7)[1] == decoded_data@[1]);
                assert(commit_header(decoded_data@).subrange(0, 7)[2] == decoded_data@[2]);
                assert(commit_header(decoded_data@).subrange(0, 7)[3] == decoded_data@[3]);
                assert(commit_header(decoded_data@).subrange(0, 7)[4] == decoded_data@[4]);
                assert(commit_header(decoded_data@).subrange(0, 7)[5] == decoded_data@[5]);
                assert(commit_header(decoded_data@).subrange(0, 7)[6] == decoded_data@[6]);
            }
        }
        return Err(Error::NotACommit);
    }
    assert(starts_with_commit(commit_header(decoded_data@))) by {
        assert(commit_header(decoded_data@).subrange(0, 7) =~= commit_tag());
    }
    let mut body: Vec<u8> = Vec::new();
    let mut i: usize = z + 1;
    while i < n
        invariant
            z + 1 <= i <= n,
            n == decoded_data@.len(),
            body@ == decoded_data@.subrange(z + 1, i as int),
        decreases n - i,
    {
        body.push(decoded_data[i]);
        assert(body@ =~= decoded_data@.subrange(z + 1, i + 1));
        i = i + 1;
    }
    Ok(body)
}

/// Appends the decimal digits of a number, most significant first.
fn push_decimal(out: &mut Vec<u8>, n: usize)
    ensures
        final(out)@ == old(out)@ + dec_rep(n as nat),
    decreases n,
{
    if n >= 10 {
        push_decimal(out, n / 10);
    }
    out.push(48 + (n % 10) as u8);
    assert(final(out)@ =~= old(out)@ + dec_rep(n as nat));
}

/// Appends the synthetic counter header line.
fn push_bruteforce_header(out: &mut Vec<u8>)
    ensures
        final(out)@ == old(out)@ + bruteforce_header_bytes(),
{
    out.push(10u8);
    out.push(98u8);
    out.push(114u8);
    out.push(117u8);
    out.push(116u8);
    out.push(101u8);
    out.push(102u8);
    out.push(111u8);
    out.push(114u8);
    out.push(99u8);
    out.push(101u8);
    out.push(32u8);
    let mut i: usize = 0;
    while i < 16
        invariant
            i <= 16,
            out@ == old(out)@ + bruteforce_header_bytes().subrange(0, 12 + i),
        decreases 16 - i,
    {
        out.push(48u8);
        i = i + 1;
        assert(out@ =~= old(out)@ + bruteforce_header_bytes().subrange(0, 12 + i));
    }
    out.push(10u8);
    assert(final(out)@ =~= old(out)@ + bruteforce_header_bytes());
}

/// Rebuilds a raw commit payload with the synthetic counter header
/// inserted between the existing header lines and the message, and a
/// recomputed outer length header. Returns the new buffer and the byte
/// index where the synthetic header line begins; the counter's digits
/// begin twelve bytes further in.
pub fn add_bruteforce_header(commit_data: &Vec<u8>) -> (r: Result<(Vec<u8>, usize), Error>)
    requires
        commit_data@.len() + 29 <= usize::MAX,
    ensures
        r is Ok <==> has_zero(commit_data@) && starts_with_commit(commit_header(commit_data@))
            && has_sep(commit_body(commit_data@)),
        r matches Ok((buf, idx)) ==> buf@ == prepared(commit_body(commit_data@)) && idx == 8
            + dec_rep((commit_body(commit_data@).len() + 29) as nat).len() + first_sep(
            commit_body(commit_data@),
        ),
        r == Err::<(Vec<u8>, usize), Error>(Error::NotACommit) <==> has_zero(commit_data@)
            && !starts_with_commit(commit_header(commit_data@)),
        r == Err::<(Vec<u8>, usize), Error>(Error::MalformedObject) <==> !has_zero(commit_data@)
            || (has_zero(commit_data@) && starts_with_commit(commit_header(commit_data@))
            && !has_sep(commit_body(commit_data@))),
{
    let body = match extract_commit_data(commit_data) {
        Ok(b) => b,
        Err(e) => {
            return Err(e);
        },
    };
    let bn = body.len();
    assert(bn + 29 <= usize::MAX);
    let mut p: usize = 0;
    while p + 1 < bn && !(body[p] == 10 && body[p + 1] == 10)
        invariant
            p <= bn,
            bn + 29 <= usize::MAX,
            bn == body@.len(),
            forall|j: int| 0 <= j < p ==> !((#[trigger] body@[j]) == 10 && body@[j + 1] == 10),
        decreases bn - p,
    {
        p = p + 1;
    }
    if p + 1 >= bn {
        assert(!has_sep(body@)) by {
            if has_sep(body@) {
                let q = choose|q: int| is_first_sep(body@, q);
                assert(!(body@[q] == 10 && body@[q + 1] == 10));
            }
        }
        return Err(Error::MalformedObject);
    }
    assert(is_first_sep(body@, p as int));
    proof {
        lemma_first_sep_agrees(body@, p as int);
    }
    let n = bn + 29;
    let mut out: Vec<u8> = Vec::new();
    out.push(99u8);
    out.push(111u8);
    out.push(109u8);
    out.push(109u8);
    out.push(105u8);
    out.push(116u8);
    out.push(32u8);
    assert(out@ =~= commit_tag());
    push_decimal(&mut out, n);
    out.push(0);
    assert(out@ =~= commit_tag() + dec_rep(n as nat) + seq![0u8]);
    let ghost head = out@;
    let mut i: usize = 0;
    while i < p
        invariant
            i <= p,
            p + 1 < bn,
            bn == body@.len(),
            out@ == head + body@.subrange(0, i as int),
        decreases p - i,
    {
        out.push(body[i]);
        i = i + 1;
        assert(out@ =~= head + body@.subrange(0, i as int));
    }
    let idx = out.len();
    push_bruteforce_header(&mut out);
    out.push(10u8);
    out.push(10u8);
    let ghost mid = out@;
    let mut j: usize = p + 2;
    while j < bn
        invariant
            p + 2 <= j <= bn,
            bn == body@.len(),
            out@ == mid + body@.subrange(p + 2, j as int),
        decreases bn - j,
    {
        out.push(body[j]);
        j = j + 1;
        assert(out@ =~= mid + body@.subrange(p + 2, j as int));
    }
    assert(out@ =~= prepared(body@));
    assert(idx == 8 + dec_rep(n as nat).len() + p);
    Ok((out, idx))
}

} // verus!
