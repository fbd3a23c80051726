//! Reads over the cartridge bus, which moves whole 64-byte granules in bursts
//! of at most 32 KiB.

use vstd::prelude::*;
use crate::config::ROM_LIMIT_BYTES;
use crate::io::rom_reader::reads_as;
use crate::platform::cart::{
    is_burst,
    read_burst_into,
    source_still_serves,
    RomSource,
    ALIGN,
    BURST_MAX,
};

verus! {

/// Bus address of the first cartridge byte.
pub const CART_BASE: u64 = 0x1000_0000;

/// Why a bus read failed.
#[derive(Debug, Copy, Clone, PartialEq, Eq, Structural)]
pub enum PiError {
    /// The bus reported a failed transfer.
    DmaFailed,
    /// The bus was asked for a transfer that is not granule-aligned.
    Misaligned,
    /// The request reaches beyond the address ceiling.
    Oob,
}

/// Whether `bus` serves every burst over the granules that the `len` bytes at
/// `off` touch.
pub open spec fn granules_served<B: RomSource>(bus: B, off: u64, len: nat) -> bool {
    forall|o: u64, n: nat|
        is_burst(o, n) && off < o + ALIGN && o + n < off + len + ALIGN ==> #[trigger] bus.serves(
            o,
            n,
        )
}

/// Copies `src[from..from + len]` to `dst[at..at + len]`.
fn copy_part(dst: &mut [u8], at: usize, src: &[u8], from: usize, len: usize)
    requires
        at + len <= old(dst)@.len(),
        from + len <= src@.len(),
    ensures
        final(dst)@.len() == old(dst)@.len(),
        forall|i: int| 0 <= i < at ==> final(dst)@[i] == old(dst)@[i],
        forall|i: int| at <= i < at + len ==> final(dst)@[i] == src@[from + (i - at)],
        forall|i: int| at + len <= i < old(dst)@.len() ==> final(dst)@[i] == old(dst)@[i],
{
    let dst_len: usize = dst.len();
    let src_len: usize = src.len();
    let mut k: usize = 0;
    while k < len
        invariant
            k <= len,
            at + len <= dst@.len(),
            from + len <= src@.len(),
            dst_len == dst@.len(),
            src_len == src@.len(),
            dst@.len() == old(dst)@.len(),
            forall|i: int| 0 <= i < at ==> dst@[i] == old(dst)@[i],
            forall|i: int| at <= i < at + k ==> dst@[i] == src@[from + (i - at)],
            forall|i: int| at + k <= i < dst@.len() ==> dst@[i] == old(dst)@[i],
        decreases len - k,
    {
        dst[at + k] = src[from + k];
        k += 1;
    }
}

/// Serves the start of a request that begins inside a granule: the granule
/// is read into `scratch` and its wanted part copied to the front of `dst`.
/// Returns the number of bytes served, or `None` where the bus fails.
fn read_head<B: RomSource>(bus: &mut B, cart: u64, dst: &mut [u8], scratch: &mut [u8; 64]) -> (r: Option<
    usize,
>)
    requires
        cart % (ALIGN as u64) != 0,
        old(dst)@.len() > 0,
        cart + old(dst)@.len() <= ROM_LIMIT_BYTES,
    ensures
        (*final(bus)).rom() == (*old(bus)).rom(),
        final(dst)@.len() == old(dst)@.len(),
        source_still_serves(*old(bus), *final(bus)),
        (*old(bus)).serves((cart - cart % (ALIGN as u64)) as u64, ALIGN as nat) ==> r is Some,
        r matches Some(n) ==> {
            &&& 0 < n <= old(dst)@.len()
            &&& n < old(dst)@.len() ==> (cart + n) % (ALIGN as int) == 0
            &&& reads_as((*old(bus)).rom(), cart as int, final(dst)@.subrange(0, n as int))
        },
{
    let ghost rom = bus.rom();
    let total: usize = dst.len();
    let within: u64 = cart % 64;
    proof {
        vstd::arithmetic::div_mod::lemma_fundamental_div_mod(cart as int, 64);
        vstd::arithmetic::div_mod::lemma_mod_multiples_basic(cart as int / 64, 64);
        assert(64 * (cart as int / 64) == (cart as int / 64) * 64);
    }
    let head_off: usize = within as usize;
    let granule: u64 = cart - within;
    if !read_burst_into(bus, granule, scratch, 0, ALIGN) {
        return None;
    }
    let room: usize = ALIGN - head_off;
    let copy_sz: usize = if room < total {
        room
    } else {
        total
    };
    assert(scratch@.subrange(0, 64) =~= scratch@);
    copy_part(dst, 0, scratch, head_off, copy_sz);
    assert(dst@.subrange(0, copy_sz as int) =~= rom.subrange(cart as int, cart + copy_sz));
    Some(copy_sz)
}

/// Serves the end of a request that stops inside a granule: the granule is
/// read into `scratch` and its wanted part copied to `dst[done..]`.
fn read_tail<B: RomSource>(bus: &mut B, cart: u64, dst: &mut [u8], done: usize, scratch: &mut [u8; 64]) -> (ok:
    bool)
    requires
        cart % (ALIGN as u64) == 0,
        done < old(dst)@.len(),
        old(dst)@.len() - done < ALIGN,
    ensures
        (*final(bus)).rom() == (*old(bus)).rom(),
        final(dst)@.len() == old(dst)@.len(),
        forall|i: int| 0 <= i < done ==> final(dst)@[i] == old(dst)@[i],
        source_still_serves(*old(bus), *final(bus)),
        (*old(bus)).serves(cart, ALIGN as nat) ==> ok,
        ok ==> reads_as(
            (*old(bus)).rom(),
            cart as int,
            final(dst)@.subrange(done as int, old(dst)@.len() as int),
        ),
{
    let ghost rom = bus.rom();
    let total: usize = dst.len();
    if !read_burst_into(bus, cart, scratch, 0, ALIGN) {
        return false;
    }
    assert(scratch@.subrange(0, 64) =~= scratch@);
    copy_part(dst, done, scratch, 0, total - done);
    assert(dst@.subrange(done as int, total as int) =~= rom.subrange(cart as int, cart + (total - done)));
    true
}

/// Length of the next burst when `rem` bytes are left: the whole granules
/// that are left, up to [`BURST_MAX`].
fn burst_len(rem: usize) -> (sz: usize)
    requires
        rem >= ALIGN,
    ensures
        0 < sz <= rem,
        sz <= BURST_MAX,
        sz % ALIGN == 0,
        sz == if rem - rem % ALIGN < BURST_MAX {
            rem - rem % ALIGN
        } else {
            BURST_MAX as int
        },
{
    let whole: usize = rem - rem % ALIGN;
    if whole < BURST_MAX {
        whole
    } else {
        BURST_MAX
    }
}

/// Reads `dst.len()` bytes at cartridge offset `rom_abs_off` over `bus`,
/// asking the bus only for bursts: whole granules at granule-aligned offsets,
/// at most [`BURST_MAX`] bytes at a time.
///
/// A request that starts or ends inside a granule is served by reading that
/// granule into a scratch buffer and copying the wanted part out, so an
/// unaligned request yields the same bytes as an aligned one would for the
/// same range. A request that reaches beyond [`ROM_LIMIT_BYTES`] fails with
/// `Oob` before the bus or `dst` is touched; an empty request succeeds at
/// once. A request below the ceiling succeeds where the bus serves every
/// burst over the granules that the request touches.
#[verifier::loop_isolation(false)]
pub fn pi_dma_read<B: RomSource>(bus: &mut B, rom_abs_off: u64, dst: &mut [u8]) -> (r: Result<
    (),
    PiError,
>)
    ensures
        (*final(bus)).rom() == (*old(bus)).rom(),
        final(dst)@.len() == old(dst)@.len(),
        r is Ok ==> reads_as((*old(bus)).rom(), rom_abs_off as int, final(dst)@),
        old(dst)@.len() == 0 ==> r is Ok,
        r == Err::<(), PiError>(PiError::Oob) <==> old(dst)@.len() > 0 && rom_abs_off + old(dst)@.len()
            > ROM_LIMIT_BYTES,
        r is Err ==> r == Err::<(), PiError>(PiError::Oob) || r == Err::<(), PiError>(
            PiError::DmaFailed,
        ),
        r == Err::<(), PiError>(PiError::Oob) ==> final(dst)@ == old(dst)@,
        rom_abs_off + old(dst)@.len() <= ROM_LIMIT_BYTES && granules_served(
            *old(bus),
            rom_abs_off,
            old(dst)@.len(),
        ) ==> r is Ok,
        source_still_serves(*old(bus), *final(bus)),
{
    let total: usize = dst.len();
    if total == 0 {
        return Ok(());
    }
    if rom_abs_off > ROM_LIMIT_BYTES || total as u64 > ROM_LIMIT_BYTES - rom_abs_off {
        return Err(PiError::Oob);
    }
    let ghost rom = bus.rom();
    let ghost bus0 = *bus;
    let mut scratch: [u8; 64] = [0; 64];
    let mut done: usize = 0;
    if rom_abs_off % (ALIGN as u64) != 0 {
        match read_head(bus, rom_abs_off, dst, &mut scratch) {
            None => {
                return Err(PiError::DmaFailed);
            },
            Some(n) => {
                done = n;
            },
        }
    }
    while total - done >= ALIGN
        invariant
            done <= total,
            total == dst@.len(),
            done < total ==> (rom_abs_off + done) % (ALIGN as int) == 0,
            bus.rom() == rom,
            source_still_serves(bus0, *bus),
            reads_as(rom, rom_abs_off as int, dst@.subrange(0, done as int)),
        decreases total - done,
    {
        let sz: usize = burst_len(total - done);
        let ghost before = dst@;
        if !read_burst_into(bus, rom_abs_off + done as u64, dst, done, sz) {
            return Err(PiError::DmaFailed);
        }
        proof {
            assert(dst@.subrange(0, done as int) =~= before.subrange(0, done as int));
            assert(dst@.subrange(0, done + sz) =~= dst@.subrange(0, done as int) + dst@.subrange(
                done as int,
                done + sz,
            ));
            assert(dst@.subrange(0, done + sz) =~= rom.subrange(
                rom_abs_off as int,
                rom_abs_off + done + sz,
            ));
        }
        done = done + sz;
    }
    if done < total {
        let ghost before = dst@;
        if !read_tail(bus, rom_abs_off + done as u64, dst, done, &mut scratch) {
            return Err(PiError::DmaFailed);
        }
        proof {
            assert(dst@.subrange(0, done as int) =~= before.subrange(0, done as int));
            assert(dst@ =~= dst@.subrange(0, done as int) + dst@.subrange(done as int, total as int));
            assert(dst@ =~= rom.subrange(rom_abs_off as int, rom_abs_off + total));
        }
    } else {
        assert(dst@.subrange(0, done as int) =~= dst@);
    }
    Ok(())
}

} // verus!
