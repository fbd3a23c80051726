//! A source of cartridge bytes that reports success as a `Result`.

use vstd::prelude::*;
use crate::io::rom_reader::{reads_as, RomReader};

verus! {

/// A source of cartridge bytes, flat or banked.
pub trait RomSource {
    /// The bytes of the medium, which no read changes. They are whatever the
    /// medium holds, unless an implementation says more.
    open spec fn rom(&self) -> Seq<u8> {
        arbitrary()
    }

    /// Whether the source undertakes to serve a read of `len` bytes at
    /// `off`. A source that says nothing undertakes nothing.
    open spec fn serves(&self, off: u64, len: nat) -> bool {
        false
    }

    /// Fills `dst` with the bytes at `rom_abs_off`, or fails, in which case
    /// `dst` holds nothing of use. A read that the source undertakes to
    /// serve succeeds, and what a source undertakes to serve it goes on
    /// serving.
    fn read_abs(&mut self, rom_abs_off: u64, dst: &mut [u8]) -> (r: Result<(), ()>)
        ensures
            (*final(self)).rom() == (*old(self)).rom(),
            final(dst)@.len() == old(dst)@.len(),
            r is Ok ==> reads_as((*old(self)).rom(), rom_abs_off as int, final(dst)@),
            (*old(self)).serves(rom_abs_off, old(dst)@.len()) ==> r is Ok,
            forall|o: u64, n: nat|
                #![trigger (*old(self)).serves(o, n)]
                #![trigger (*final(self)).serves(o, n)]
                (*old(self)).serves(o, n) ==> (*final(self)).serves(o, n),
    ;

    /// A read as a bus performs it: whole granules from a granule-aligned
    /// offset, at most one burst long.
    fn read_burst(&mut self, rom_abs_off: u64, dst: &mut [u8]) -> (r: Result<(), ()>)
        requires
            is_burst(rom_abs_off, old(dst)@.len()),
        ensures
            (*final(self)).rom() == (*old(self)).rom(),
            final(dst)@.len() == old(dst)@.len(),
            r is Ok ==> reads_as((*old(self)).rom(), rom_abs_off as int, final(dst)@),
            (*old(self)).serves(rom_abs_off, old(dst)@.len()) ==> r is Ok,
            forall|o: u64, n: nat|
                #![trigger (*old(self)).serves(o, n)]
                #![trigger (*final(self)).serves(o, n)]
                (*old(self)).serves(o, n) ==> (*final(self)).serves(o, n),
    {
        self.read_abs(rom_abs_off, dst)
    }
}

/// Largest single transfer of the bus.
pub const BURST_MAX: usize = 32 * 1024;

/// Granule of the bus: transfers start and end on multiples of it.
pub const ALIGN: usize = 64;

/// Whether a transfer of `len` bytes at `offset` is one that the bus can
/// perform: it starts on a granule, is a whole number of granules long, and
/// is neither empty nor longer than a burst.
pub open spec fn is_burst(offset: u64, len: nat) -> bool {
    &&& offset as int % ALIGN as int == 0
    &&& len as int % ALIGN as int == 0
    &&& 0 < len <= BURST_MAX
}

/// Whether `after` serves every read that `before` served.
pub open spec fn source_still_serves<S: RomSource>(before: S, after: S) -> bool {
    forall|o: u64, n: nat|
        #![trigger before.serves(o, n)]
        #![trigger after.serves(o, n)]
        before.serves(o, n) ==> after.serves(o, n)
}

/// Whether `src` serves every read of some, but at most `most`, bytes that lies within
/// the offsets `from` to `to`.
pub open spec fn source_serves_within<S: RomSource>(src: S, from: int, to: int, most: nat) -> bool {
    forall|o: u64, n: nat| from <= o && o + n <= to && 0 < n <= most ==> #[trigger] src.serves(o, n)
}

impl<T: RomReader + ?Sized> RomSource for &mut T {
    open spec fn rom(&self) -> Seq<u8> {
        (**self).rom()
    }

    open spec fn serves(&self, off: u64, len: nat) -> bool {
        (**self).serves(off, len)
    }

    fn read_abs(&mut self, rom_abs_off: u64, dst: &mut [u8]) -> (r: Result<(), ()>) {
        if (**self).read(rom_abs_off, dst) {
            Ok(())
        } else {
            Err(())
        }
    }
}

/// Reads the burst of `len` bytes at `off` into `dst[at..at + len]` and
/// leaves the rest of `dst` as it was.
pub fn read_burst_into<S: RomSource>(
    src: &mut S,
    off: u64,
    dst: &mut [u8],
    at: usize,
    len: usize,
) -> (ok: bool)
    requires
        at + len <= old(dst)@.len(),
        is_burst(off, len as nat),
    ensures
        (*final(src)).rom() == (*old(src)).rom(),
        final(dst)@.len() == old(dst)@.len(),
        ok ==> reads_as((*old(src)).rom(), off as int, final(dst)@.subrange(at as int, at + len)),
        (*old(src)).serves(off, len as nat) ==> ok,
        source_still_serves(*old(src), *final(src)),
        forall|i: int| 0 <= i < at ==> final(dst)@[i] == old(dst)@[i],
        forall|i: int| at + len <= i < old(dst)@.len() ==> final(dst)@[i] == old(dst)@[i],
{
    let (_head, rest) = dst.split_at_mut(at);
    let (mid, _tail) = rest.split_at_mut(len);
    let r = src.read_burst(off, mid);
    let ghost got = mid@;
    assert(dst@.subrange(at as int, at + len) =~= got);
    r.is_ok()
}

/// Reads `len` bytes at `off` into `dst[at..at + len]` and leaves the rest of
/// `dst` as it was.
pub fn read_abs_into<S: RomSource>(
    src: &mut S,
    off: u64,
    dst: &mut [u8],
    at: usize,
    len: usize,
) -> (ok: bool)
    requires
        at + len <= old(dst)@.len(),
    ensures
        (*final(src)).rom() == (*old(src)).rom(),
        final(dst)@.len() == old(dst)@.len(),
        ok ==> reads_as((*old(src)).rom(), off as int, final(dst)@.subrange(at as int, at + len)),
        (*old(src)).serves(off, len as nat) ==> ok,
        source_still_serves(*old(src), *final(src)),
        forall|i: int| 0 <= i < at ==> final(dst)@[i] == old(dst)@[i],
        forall|i: int| at + len <= i < old(dst)@.len() ==> final(dst)@[i] == old(dst)@[i],
{
    let (_head, rest) = dst.split_at_mut(at);
    let (mid, _tail) = rest.split_at_mut(len);
    let r = src.read_abs(off, mid);
    let ghost got = mid@;
    assert(dst@.subrange(at as int, at + len) =~= got);
    r.is_ok()
}

} // verus!
