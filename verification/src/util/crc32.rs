//! Bitwise CRC-32 with the reflected polynomial `0xEDB88320`.
//!
//! The checksum is streaming-friendly: start from `!0`, feed the data in any
//! number of pieces, and finish by inverting the register.

use vstd::prelude::*;

verus! {

/// Reflected generator polynomial.
pub const CRC32_POLY: u32 = 0xEDB88320;

/// Register value to start a checksum from.
pub const CRC32_INIT: u32 = 0xFFFF_FFFF;

/// One shift of the register: divide by `x` and reduce by the polynomial where
/// a bit falls out.
pub open spec fn crc32_shift(x: u32) -> u32 {
    if x & 1 != 0 {
        (x >> 1) ^ CRC32_POLY
    } else {
        x >> 1
    }
}

/// `n` shifts of the register.
pub open spec fn crc32_shifts(x: u32, n: nat) -> u32
    decreases n,
{
    if n == 0 {
        x
    } else {
        crc32_shift(crc32_shifts(x, (n - 1) as nat))
    }
}

/// Register after one more byte.
pub open spec fn crc32_byte(crc: u32, b: u8) -> u32 {
    (crc >> 8) ^ crc32_shifts((crc ^ (b as u32)) & 0xFF, 8)
}

/// Register after the bytes of `buf`, fed in order.
pub open spec fn crc32_update_spec(crc: u32, buf: Seq<u8>) -> u32
    decreases buf.len(),
{
    if buf.len() == 0 {
        crc
    } else {
        crc32_byte(crc32_update_spec(crc, buf.drop_last()), buf.last())
    }
}

/// Checksum of `buf` taken in one piece.
pub open spec fn crc32_spec(buf: Seq<u8>) -> u32 {
    !crc32_update_spec(CRC32_INIT, buf)
}

/// Feeding two pieces one after the other is feeding their concatenation.
pub proof fn lemma_crc32_update_concat(crc: u32, a: Seq<u8>, b: Seq<u8>)
    ensures
        crc32_update_spec(crc32_update_spec(crc, a), b) == crc32_update_spec(crc, a + b),
    decreases b.len(),
{
    if b.len() == 0 {
        assert(a + b =~= a);
    } else {
        lemma_crc32_update_concat(crc, a, b.drop_last());
        assert((a + b).drop_last() =~= a + b.drop_last());
        assert((a + b).last() == b.last());
    }
}

/// Feeds `buf` into the register `crc` and returns the new register.
pub fn crc32_update(crc: u32, buf: &[u8]) -> (r: u32)
    ensures
        r == crc32_update_spec(crc, buf@),
{
    let mut crc: u32 = crc;
    let ghost start = crc;
    let mut i: usize = 0;
    while i < buf.len()
        invariant
            i <= buf@.len(),
            crc == crc32_update_spec(start, buf@.take(i as int)),
        decreases buf@.len() - i,
    {
        let b: u8 = buf[i];
        let mut x: u32 = (crc ^ (b as u32)) & 0xFF;
        let ghost x0 = x;
        let mut k: u8 = 0;
        while k < 8
            invariant
                k <= 8,
                x == crc32_shifts(x0, k as nat),
            decreases 8 - k,
        {
            let lsb: u32 = x & 1;
            x = x >> 1;
            if lsb != 0 {
                x = x ^ CRC32_POLY;
            }
            k += 1;
        }
        proof {
            assert(buf@.take(i + 1).drop_last() =~= buf@.take(i as int));
            assert(buf@.take(i + 1).last() == b);
        }
        crc = (crc >> 8) ^ x;
        i += 1;
    }
    assert(buf@.take(i as int) =~= buf@);
    crc
}

/// Turns the register into the checksum.
pub fn crc32_finish(crc: u32) -> (r: u32)
    ensures
        r == !crc,
{
    !crc
}

} // verus!
