//! Burst-by-burst reading with a double buffer that the cursor owns.
//!
//! The cursor reads one burst ahead: a burst is handed out only after the
//! transfer of its successor has been issued and has succeeded.

use vstd::prelude::*;
use vstd::slice::slice_subrange;
use crate::config::BURST_BYTES;
use crate::io::dbuf::Dbuf;
use crate::io::rom_reader::{read_into, reads_as, still_serves, RomReader};
use crate::stream::prefetch::PrefetchModel;

verus! {

/// Position of a burst-wise read of one byte range.
pub struct BurstCursor {
    dbuf: Dbuf<BURST_BYTES>,
    /// Offset of the first byte that has not been fetched.
    off: u64,
    /// Number of bytes that have not been fetched.
    remain: u64,
    /// Length of the burst that waits in the current buffer.
    ready: usize,
    /// Whether an even number of bursts has been handed out.
    even: bool,
    failed: bool,
}

/// Fills the first `len` bytes of `buf` from offset `off`.
fn read_burst<R: RomReader>(rr: &mut R, off: u64, buf: &mut [u8; BURST_BYTES], len: usize) -> (ok: bool)
    requires
        len <= BURST_BYTES,
    ensures
        (*final(rr)).rom() == (*old(rr)).rom(),
        ok ==> reads_as((*old(rr)).rom(), off as int, final(buf)@.take(len as int)),
        (*old(rr)).serves(off, len as nat) ==> ok,
        still_serves(*old(rr), *final(rr)),
{
    let ok: bool = read_into(rr, off, buf, 0, len);
    assert(buf@.take(len as int) =~= buf@.subrange(0, len as int));
    ok
}

impl BurstCursor {
    /// Mathematical state of the read, on a medium that holds `rom`.
    pub closed spec fn model(&self, rom: Seq<u8>) -> PrefetchModel {
        PrefetchModel {
            rom,
            next: self.off - self.ready,
            end: self.off + self.remain,
            first_buffer_next: self.even,
            len_a: BURST_BYTES as nat,
            len_b: BURST_BYTES as nat,
            failed: self.failed,
        }
    }

    /// Consistency of the fields on a medium that holds `rom`: the waiting
    /// burst is the next burst of the range, and a read that has not failed
    /// holds a burst for as long as bytes are left.
    pub closed spec fn wf(&self, rom: Seq<u8>) -> bool {
        &&& self.ready <= BURST_BYTES
        &&& self.ready <= self.off
        &&& self.failed ==> self.ready == 0 && self.remain > 0
        &&& !self.failed ==> self.off + self.remain <= u64::MAX
        &&& !self.failed && self.ready == 0 ==> self.remain == 0
        &&& !self.failed ==> self.ready == self.model(rom).block_len()
        &&& self.ready > 0 ==> reads_as(rom, self.off - self.ready, self.dbuf.cur().take(self.ready as int))
    }

    /// What a well-formed cursor says of its range.
    pub proof fn lemma_wf(&self, rom: Seq<u8>)
        requires
            self.wf(rom),
        ensures
            self.model(rom).rom == rom,
            self.model(rom).buffers_usable(),
            self.model(rom).len_a == BURST_BYTES,
            self.model(rom).len_b == BURST_BYTES,
            0 <= self.model(rom).next <= self.model(rom).end,
            self.model(rom).failed ==> self.model(rom).next < self.model(rom).end,
            !self.model(rom).failed && self.model(rom).next < self.model(rom).end ==> self.model(
                rom,
            ).next + self.model(rom).block_len() <= rom.len(),
    {
        self.dbuf.lemma_len();
    }

    /// Starts reading the `size` bytes at `offset` and fetches the first
    /// burst.
    ///
    /// The read starts out failed where the first transfer fails or the
    /// range does not fit in 64 bits. The first transfer asks for the first
    /// burst of the range, so the read starts out sound where the range fits
    /// and the reader serves that burst.
    pub fn start<R: RomReader>(rr: &mut R, offset: u64, size: u64) -> (c: Self)
        ensures
            (*final(rr)).rom() == (*old(rr)).rom(),
            still_serves(*old(rr), *final(rr)),
            offset + size <= u64::MAX && (*old(rr)).serves(
                offset,
                c.model((*old(rr)).rom()).block_len() as nat,
            ) ==> !c.model((*old(rr)).rom()).failed,
            c.wf((*old(rr)).rom()),
            c.model((*old(rr)).rom()).next == offset,
            c.model((*old(rr)).rom()).end == offset + size,
            c.model((*old(rr)).rom()).first_buffer_next,
            size == 0 ==> !c.model((*old(rr)).rom()).failed,
            offset + size > u64::MAX ==> c.model((*old(rr)).rom()).failed,
    {
        let mut dbuf: Dbuf<BURST_BYTES> = Dbuf::new();
        if size > u64::MAX - offset {
            return BurstCursor { dbuf, off: offset, remain: size, ready: 0, even: true, failed: true };
        }
        let first: usize = if size < BURST_BYTES as u64 {
            size as usize
        } else {
            BURST_BYTES
        };
        if first > 0 && !read_burst(rr, offset, dbuf.cur_mut(), first) {
            return BurstCursor { dbuf, off: offset, remain: size, ready: 0, even: true, failed: true };
        }
        BurstCursor {
            dbuf,
            off: offset + first as u64,
            remain: size - first as u64,
            ready: first,
            even: true,
            failed: false,
        }
    }

    /// Hands out the next burst, after fetching the one behind it into the
    /// other buffer.
    ///
    /// Returns `None` once every byte has been handed out, and from the
    /// moment a transfer fails: the burst in front of a failed transfer is
    /// not handed out. The transfer asks for the burst behind the waiting
    /// one, so the waiting burst is handed out where no burst follows it or
    /// the reader serves the one that does.
    pub fn next_burst<R: RomReader>(&mut self, rr: &mut R) -> (r: Option<&[u8]>)
        requires
            old(self).wf((*old(rr)).rom()),
        ensures
            (*final(rr)).rom() == (*old(rr)).rom(),
            still_serves(*old(rr), *final(rr)),
            ({
                let m = old(self).model((*old(rr)).rom());
                !m.failed && !m.exhausted() && (m.advance().exhausted() || (*old(rr)).serves(
                    m.advance().next as u64,
                    m.advance().block_len() as nat,
                )) ==> r is Some
            }),
            final(self).wf((*old(rr)).rom()),
            final(self).model((*old(rr)).rom()).end == old(self).model((*old(rr)).rom()).end,
            r is None ==> final(self).model((*old(rr)).rom()).next == old(self).model(
                (*old(rr)).rom(),
            ).next,
            r is None ==> final(self).model((*old(rr)).rom()).failed || old(self).model(
                (*old(rr)).rom(),
            ).exhausted(),
            old(self).model((*old(rr)).rom()).failed || old(self).model((*old(rr)).rom()).exhausted()
                ==> r is None && final(self).model((*old(rr)).rom()) == old(self).model(
                (*old(rr)).rom(),
            ),
            r matches Some(burst) ==> {
                &&& burst@ == old(self).model((*old(rr)).rom()).block()
                &&& burst@.len() > 0
                &&& final(self).model((*old(rr)).rom()) == old(self).model((*old(rr)).rom()).advance()
            },
    {
        if self.ready == 0 {
            return None;
        }
        let ghost rom = rr.rom();
        let ghost waiting = self.dbuf.cur().take(self.ready as int);
        let delivered: usize = self.ready;
        let want: usize = if self.remain < BURST_BYTES as u64 {
            self.remain as usize
        } else {
            BURST_BYTES
        };
        if want > 0 && !read_burst(rr, self.off, self.dbuf.nxt_mut(), want) {
            self.off = self.off - delivered as u64;
            self.remain = self.remain + delivered as u64;
            self.ready = 0;
            self.failed = true;
            return None;
        }
        self.dbuf.swap();
        self.ready = want;
        self.off = self.off + want as u64;
        self.remain = self.remain - want as u64;
        self.even = !self.even;
        let burst: &[u8] = slice_subrange(self.dbuf.nxt_mut(), 0, delivered);
        assert(burst@ =~= waiting);
        Some(burst)
    }

    /// Number of bytes that have not been handed out.
    pub fn remaining(&self) -> (n: u64)
        requires
            exists|rom: Seq<u8>| self.wf(rom),
        ensures
            forall|rom: Seq<u8>| n == (#[trigger] self.model(rom)).remaining(),
    {
        self.remain + self.ready as u64
    }

    /// Whether a transfer has failed.
    pub fn failed(&self) -> (f: bool)
        ensures
            forall|rom: Seq<u8>| f == (#[trigger] self.model(rom)).failed,
    {
        self.failed
    }
}

} // verus!
