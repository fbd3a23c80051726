//! The capability to read bytes of the cartridge at an absolute offset.

use vstd::prelude::*;
use crate::config::ROM_LIMIT_BYTES;
use crate::platform::cart::RomSource;
use crate::platform::pi::{granules_served, pi_dma_read};

verus! {

/// Whether `got` is what the medium `rom` holds from offset `off` on. An empty
/// read says nothing about the offset.
pub open spec fn reads_as(rom: Seq<u8>, off: int, got: Seq<u8>) -> bool {
    got.len() == 0 || (0 <= off && off + got.len() <= rom.len() && got == rom.subrange(
        off,
        off + got.len(),
    ))
}

/// The `len` bytes of the medium at `off`; nothing where `len` is zero.
pub open spec fn rom_range(rom: Seq<u8>, off: int, len: int) -> Seq<u8> {
    if len <= 0 {
        Seq::empty()
    } else {
        rom.subrange(off, off + len)
    }
}

/// A source of cartridge bytes that reports success as a flag.
pub trait RomReader {
    /// The bytes of the medium, which no read changes. They are whatever the
    /// medium holds, unless an implementation says more.
    open spec fn rom(&self) -> Seq<u8> {
        arbitrary()
    }

    /// Whether the reader undertakes to serve a read of `len` bytes at
    /// `off`. A reader that says nothing undertakes nothing.
    open spec fn serves(&self, off: u64, len: nat) -> bool {
        false
    }

    /// Fills `dst` with the bytes at `rom_abs_off` and returns `true`, or
    /// returns `false`, in which case `dst` holds nothing of use. A read
    /// that the reader undertakes to serve succeeds, and what a reader
    /// undertakes to serve it goes on serving.
    fn read(&mut self, rom_abs_off: u64, dst: &mut [u8]) -> (ok: bool)
        ensures
            (*final(self)).rom() == (*old(self)).rom(),
            final(dst)@.len() == old(dst)@.len(),
            ok ==> reads_as((*old(self)).rom(), rom_abs_off as int, final(dst)@),
            (*old(self)).serves(rom_abs_off, old(dst)@.len()) ==> ok,
            forall|o: u64, n: nat|
                #![trigger (*old(self)).serves(o, n)]
                #![trigger (*final(self)).serves(o, n)]
                (*old(self)).serves(o, n) ==> (*final(self)).serves(o, n),
    ;

    /// Highest offset (exclusive) that this reader considers safe. A reader
    /// that says nothing of its own sets no limit.
    fn rom_limit_bytes(&self) -> (limit: u64)
        default_ensures
            limit == u64::MAX,
    {
        u64::MAX
    }
}

/// Whether `after` serves every read that `before` served.
pub open spec fn still_serves<R: RomReader>(before: R, after: R) -> bool {
    forall|o: u64, n: nat|
        #![trigger before.serves(o, n)]
        #![trigger after.serves(o, n)]
        before.serves(o, n) ==> after.serves(o, n)
}

/// Whether `rr` serves every read of some, but at most `most`, bytes that lies within
/// the offsets `from` to `to`.
pub open spec fn serves_within<R: RomReader>(rr: R, from: int, to: int, most: nat) -> bool {
    forall|o: u64, n: nat| from <= o && o + n <= to && 0 < n <= most ==> #[trigger] rr.serves(o, n)
}

/// Reads `len` bytes at `off` into `dst[at..at + len]` and leaves the rest of
/// `dst` as it was.
pub fn read_into<R: RomReader>(rr: &mut R, off: u64, dst: &mut [u8], at: usize, len: usize) -> (ok:
    bool)
    requires
        at + len <= old(dst)@.len(),
    ensures
        (*final(rr)).rom() == (*old(rr)).rom(),
        final(dst)@.len() == old(dst)@.len(),
        ok ==> reads_as((*old(rr)).rom(), off as int, final(dst)@.subrange(at as int, at + len)),
        (*old(rr)).serves(off, len as nat) ==> ok,
        still_serves(*old(rr), *final(rr)),
        forall|i: int| 0 <= i < at ==> final(dst)@[i] == old(dst)@[i],
        forall|i: int| at + len <= i < old(dst)@.len() ==> final(dst)@[i] == old(dst)@[i],
{
    let (_head, rest) = dst.split_at_mut(at);
    let (mid, _tail) = rest.split_at_mut(len);
    let ok = rr.read(off, mid);
    let ghost got = mid@;
    assert(dst@.subrange(at as int, at + len) =~= got);
    ok
}

/// Flat view of the cartridge over a bus that serves aligned bursts: every
/// request goes through [`pi_dma_read`].
pub struct FlatRomReader<B: RomSource> {
    bus: B,
}

impl<B: RomSource> FlatRomReader<B> {
    /// Reader over `bus`.
    pub fn new(bus: B) -> (r: Self)
        ensures
            r.rom() == bus.rom(),
            forall|o: u64, n: nat|
                #[trigger] r.serves(o, n) == (n == 0 || (o + n <= ROM_LIMIT_BYTES && granules_served(
                    bus,
                    o,
                    n,
                ))),
    {
        FlatRomReader { bus }
    }

    /// Gives the bus back.
    pub fn into_inner(self) -> (bus: B)
        ensures
            bus.rom() == self.rom(),
    {
        self.bus
    }
}

impl<B: RomSource> RomReader for FlatRomReader<B> {
    closed spec fn rom(&self) -> Seq<u8> {
        self.bus.rom()
    }

    /// An empty read is served; another one where it ends below the address
    /// ceiling and the bus serves every burst over the granules it touches.
    closed spec fn serves(&self, off: u64, len: nat) -> bool {
        len == 0 || (off + len <= ROM_LIMIT_BYTES && granules_served(self.bus, off, len))
    }

    /// An empty request succeeds without touching the bus. A request that
    /// reaches beyond the address ceiling fails without touching the bus or
    /// `dst`.
    fn read(&mut self, rom_abs_off: u64, dst: &mut [u8]) -> (ok: bool)
        ensures
            old(dst)@.len() == 0 ==> ok,
            old(dst)@.len() > 0 && rom_abs_off + old(dst)@.len() > ROM_LIMIT_BYTES ==> !ok
                && final(dst)@ == old(dst)@,
    {
        pi_dma_read(&mut self.bus, rom_abs_off, dst).is_ok()
    }
}

} // verus!
