//! The counter field encoder: writes a 64-bit counter as sixteen
//! hexadecimal digits into a fixed range of a buffer.

use vstd::prelude::*;

use crate::hex::hex_digit;
use crate::hex::hex_digit_of;

verus! {

/// Nibble `i` of the counter, counting from the least significant end.
pub open spec fn nibble(v: u64, i: int) -> u8 {
    ((v >> ((4 * i) as u64)) & 0xf) as u8
}

/// The counter's sixteen hexadecimal digits: digit `i` is the ASCII image
/// of nibble `i`, so the least significant nibble comes first.
pub open spec fn counter_digits(v: u64) -> Seq<u8> {
    Seq::new(16, |i: int| hex_digit_of(nibble(v, i)))
}

/// The buffer with the counter's digits written over the sixteen bytes
/// starting at `off`, everything else unchanged.
pub open spec fn with_counter(buf: Seq<u8>, v: u64, off: int) -> Seq<u8> {
    Seq::new(
        buf.len(),
        |j: int|
            if off <= j < off + 16 {
                counter_digits(v)[j - off]
            } else {
                buf[j]
            },
    )
}

/// Writes the counter's sixteen hexadecimal digits into
/// `buffer[index .. index + 16]`, least significant nibble first, and
/// leaves every other byte unchanged.
pub fn update_hex_counter(buffer: &mut Vec<u8>, counter: u64, index: usize)
    requires
        index + 16 <= old(buffer)@.len(),
    ensures
        final(buffer)@ == with_counter(old(buffer)@, counter, index as int),
{
    let n = buffer.len();
    let mut i: usize = 0;
    while i < 16
        invariant
            i <= 16,
            index + 16 <= n,
            n == buffer@.len(),
            buffer@.len() == old(buffer)@.len(),
            forall|j: int| 0 <= j < i ==> buffer@[index + j] == counter_digits(counter)[j],
            forall|j: int|
                0 <= j < buffer@.len() && !(index <= j < index + i) ==> buffer@[j] == old(
                    buffer,
                )@[j],
        decreases 16 - i,
    {
        let shift: u64 = 4 * (i as u64);
        let shifted: u64 = counter >> shift;
        let nib: u8 = #[verifier::truncate] ((shifted & 0xf) as u8);
        assert(shifted & 0xf < 16) by (bit_vector);
        assert(nib == nibble(counter, i as int));
        buffer.set(index + i, hex_digit(nib));
        i = i + 1;
    }
    assert(final(buffer)@ =~= with_counter(old(buffer)@, counter, index as int));
}

} // verus!
