//! The two running sums of Adler-32.

use vstd::prelude::*;

verus! {

/// Largest prime below 2^16.
pub const ADLER_MOD: u32 = 65521;

/// The sums after one more byte.
pub open spec fn adler32_byte(s: (u32, u32), b: u8) -> (u32, u32) {
    let s1 = ((s.0 + b) % (ADLER_MOD as int)) as u32;
    let s2 = ((s.1 + s1) % (ADLER_MOD as int)) as u32;
    (s1, s2)
}

/// The sums after the bytes of `data`, fed in order.
pub open spec fn adler32_spec(s: (u32, u32), data: Seq<u8>) -> (u32, u32)
    decreases data.len(),
{
    if data.len() == 0 {
        s
    } else {
        adler32_byte(adler32_spec(s, data.drop_last()), data.last())
    }
}

/// Feeding two pieces one after the other is feeding their concatenation.
pub proof fn lemma_adler32_concat(s: (u32, u32), a: Seq<u8>, b: Seq<u8>)
    ensures
        adler32_spec(adler32_spec(s, a), b) == adler32_spec(s, a + b),
    decreases b.len(),
{
    if b.len() == 0 {
        assert(a + b =~= a);
    } else {
        lemma_adler32_concat(s, a, b.drop_last());
        assert((a + b).drop_last() =~= a + b.drop_last());
        assert((a + b).last() == b.last());
    }
}

/// Feeds `data` into the sums `(s1, s2)`; start from `(1, 0)`.
///
/// Each step adds without wrapping and reduces modulo 65521, whatever the
/// sums were before.
pub fn adler32(s1: u32, s2: u32, data: &[u8]) -> (r: (u32, u32))
    ensures
        r == adler32_spec((s1, s2), data@),
{
    let mut s1: u32 = s1;
    let mut s2: u32 = s2;
    let ghost start = (s1, s2);
    let mut i: usize = 0;
    while i < data.len()
        invariant
            i <= data@.len(),
            (s1, s2) == adler32_spec(start, data@.take(i as int)),
        decreases data@.len() - i,
    {
        let b: u8 = data[i];
        proof {
            assert(data@.take(i + 1).drop_last() =~= data@.take(i as int));
            assert(data@.take(i + 1).last() == b);
        }
        s1 = ((s1 as u64 + b as u64) % (ADLER_MOD as u64)) as u32;
        s2 = ((s2 as u64 + s1 as u64) % (ADLER_MOD as u64)) as u32;
        i += 1;
    }
    assert(data@.take(i as int) =~= data@);
    (s1, s2)
}

} // verus!
