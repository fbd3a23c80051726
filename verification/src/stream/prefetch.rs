//! Pull-style double-buffered streaming.
//!
//! While the caller works on one block, the next one is already in the other
//! buffer. Blocks come in the order of their offsets, without gaps or
//! overlaps, and only the last one may be shorter than its buffer.

use vstd::prelude::*;
use vstd::slice::slice_subrange;
use crate::io::rom_reader::reads_as;
use crate::platform::cart::{read_abs_into, RomSource};
use crate::weights::weights_rel_to_cart_off;

verus! {

/// Mathematical state of a stream.
pub struct PrefetchModel {
    /// The bytes of the medium.
    pub rom: Seq<u8>,
    /// Offset of the first byte that has not been handed out.
    pub next: int,
    /// Offset just past the last byte of the stream.
    pub end: int,
    /// Whether the block that comes next lies in the first buffer.
    pub first_buffer_next: bool,
    /// Length of the first buffer.
    pub len_a: nat,
    /// Length of the second buffer.
    pub len_b: nat,
    /// Whether the stream has come to a halt with bytes still to deliver.
    pub failed: bool,
}

impl PrefetchModel {
    /// Length of the buffer that holds the next block.
    pub open spec fn buffer_len(self) -> nat {
        if self.first_buffer_next {
            self.len_a
        } else {
            self.len_b
        }
    }

    /// Length of the next block: what is left, up to the buffer's length.
    pub open spec fn block_len(self) -> int {
        if self.end - self.next < self.buffer_len() {
            self.end - self.next
        } else {
            self.buffer_len() as int
        }
    }

    /// The next block.
    pub open spec fn block(self) -> Seq<u8> {
        self.rom.subrange(self.next, self.next + self.block_len())
    }

    /// State after the next block has been handed out, the fetch of the one
    /// after it having succeeded.
    pub open spec fn advance(self) -> PrefetchModel {
        PrefetchModel {
            next: self.next + self.block_len(),
            first_buffer_next: !self.first_buffer_next,
            ..self
        }
    }

    /// Whether nothing is left to deliver.
    pub open spec fn exhausted(self) -> bool {
        self.next == self.end
    }

    /// Number of bytes not yet handed out.
    pub open spec fn remaining(self) -> int {
        self.end - self.next
    }

    /// Both buffers can hold something.
    pub open spec fn buffers_usable(self) -> bool {
        self.len_a > 0 && self.len_b > 0
    }

    /// The stream lies within the medium and both buffers can hold something.
    pub open spec fn streamable(self) -> bool {
        &&& 0 <= self.next <= self.end <= self.rom.len()
        &&& self.buffers_usable()
    }

    /// Every block that the stream yields from here on, in order, provided
    /// that no fetch fails.
    pub open spec fn blocks(self) -> Seq<Seq<u8>>
        decreases self.end - self.next,
    {
        if self.buffers_usable() && self.next < self.end {
            seq![self.block()] + self.advance().blocks()
        } else {
            Seq::empty()
        }
    }
}

/// Concatenation of a sequence of blocks.
pub open spec fn concat(blocks: Seq<Seq<u8>>) -> Seq<u8>
    decreases blocks.len(),
{
    if blocks.len() == 0 {
        Seq::empty()
    } else {
        blocks[0] + concat(blocks.drop_first())
    }
}

/// Streaming is complete: the blocks of a stream, put end to end, are exactly
/// the bytes of its range, whatever the lengths of the two buffers.
pub proof fn lemma_blocks_cover_the_range(m: PrefetchModel)
    requires
        m.streamable(),
    ensures
        concat(m.blocks()) == m.rom.subrange(m.next, m.end),
    decreases m.end - m.next,
{
    if m.next < m.end {
        let rest = m.advance();
        lemma_blocks_cover_the_range(rest);
        assert(m.blocks().drop_first() =~= rest.blocks());
        assert(m.blocks()[0] == m.block());
        assert(m.block() + m.rom.subrange(rest.next, m.end) =~= m.rom.subrange(m.next, m.end));
    } else {
        assert(m.rom.subrange(m.next, m.end) =~= Seq::<u8>::empty());
    }
}

/// Every block but the last fills its buffer, and no block is empty.
pub proof fn lemma_only_the_last_block_is_short(m: PrefetchModel)
    requires
        m.buffers_usable(),
        m.next < m.end,
    ensures
        0 < m.block_len() <= m.buffer_len(),
        m.block_len() < m.buffer_len() ==> m.advance().exhausted(),
{
}

/// With two buffers of the same length, a stream has as many blocks as that
/// length goes into its size, rounded up.
pub proof fn lemma_block_count(m: PrefetchModel)
    requires
        m.len_a == m.len_b,
        m.len_a > 0,
        m.next <= m.end,
    ensures
        m.blocks().len() == (m.end - m.next + m.len_a - 1) / (m.len_a as int),
    decreases m.end - m.next,
{
    let b = m.len_a as int;
    let size = m.end - m.next;
    if m.next < m.end {
        let rest = m.advance();
        lemma_block_count(rest);
        assert(m.blocks().len() == 1 + rest.blocks().len());
        if size <= b {
            assert((size + b - 1) / b == 1) by (nonlinear_arith)
                requires
                    0 < size <= b,
            ;
            assert((0 + b - 1) / b == 0) by (nonlinear_arith)
                requires
                    b > 0,
            ;
        } else {
            assert((size + b - 1) / b == 1 + (size - b + b - 1) / b) by (nonlinear_arith)
                requires
                    b > 0,
                    size > b,
            ;
        }
    } else {
        assert(m.blocks() =~= Seq::<Seq<u8>>::empty());
        assert((0 + b - 1) / b == 0) by (nonlinear_arith)
            requires
                b > 0,
        ;
    }
}

/// Double-buffered reader of one byte range.
pub struct Prefetcher<'a, R: RomSource> {
    rom: R,
    /// Offset of the first byte that has not been fetched.
    cart_off: u64,
    /// Number of bytes that have not been fetched.
    len: u64,
    buf_a: &'a mut [u8],
    buf_b: &'a mut [u8],
    /// Buffer that holds the next block: 0 for the first, 1 for the second.
    cur: usize,
    /// Length of the block that waits in buffer `cur`.
    ready: usize,
    failed: bool,
}

impl<'a, R: RomSource> View for Prefetcher<'a, R> {
    type V = PrefetchModel;

    closed spec fn view(&self) -> PrefetchModel {
        PrefetchModel {
            rom: self.rom.rom(),
            next: self.cart_off - self.ready,
            end: self.cart_off + self.len,
            first_buffer_next: self.cur == 0,
            len_a: self.buf_a@.len(),
            len_b: self.buf_b@.len(),
            failed: self.failed,
        }
    }
}

impl<'a, R: RomSource> Prefetcher<'a, R> {
    /// The block that waits in the current buffer.
    closed spec fn waiting(&self) -> Seq<u8> {
        if self.cur == 0 {
            self.buf_a@.take(self.ready as int)
        } else {
            self.buf_b@.take(self.ready as int)
        }
    }

    /// Whether the source of the stream serves a read of `len` bytes at
    /// `off`.
    pub closed spec fn source_serves(&self, off: u64, len: nat) -> bool {
        self.rom.serves(off, len)
    }

    /// Consistency of the fields: the waiting block is the next block of the
    /// stream, and a stream that has not failed holds a block for as long as
    /// bytes are left.
    pub closed spec fn wf(&self) -> bool {
        &&& self.cur < 2
        &&& self.ready <= self@.buffer_len()
        &&& self.ready <= self.cart_off
        &&& self.failed ==> self.ready == 0 && self.len > 0
        &&& !self.failed ==> self.cart_off + self.len <= u64::MAX
        &&& !self.failed && self.ready == 0 ==> self.len == 0
        &&& !self.failed ==> self.ready == self@.block_len()
        &&& self.ready > 0 ==> reads_as(self.rom.rom(), self@.next, self.waiting())
    }

    /// A well-formed stream that has not failed has not run past its end.
    pub proof fn lemma_wf(&self)
        requires
            self.wf(),
        ensures
            0 <= self@.next <= self@.end,
            self@.failed ==> self@.next < self@.end,
            !self@.failed && self@.next < self@.end ==> self@.next + self@.block_len()
                <= self@.rom.len() && self@.block_len() > 0,
    {
    }

    /// Starts a stream of `total_len` bytes at `weights_rel_off` and fetches
    /// the first block into `buf_a`.
    ///
    /// The stream starts out failed where the first fetch fails, where the
    /// range does not fit in 64 bits, or where `buf_a` is empty while the
    /// range is not. The first fetch asks for the first block of the range,
    /// so the stream starts out sound where the range fits, `buf_a` can hold
    /// something and the source serves that block.
    pub fn new(
        rom: R,
        weights_rel_off: u64,
        total_len: u64,
        buf_a: &'a mut [u8],
        buf_b: &'a mut [u8],
    ) -> (pf: Self)
        ensures
            pf.wf(),
            pf@.rom == rom.rom(),
            pf@.next == weights_rel_off,
            pf@.end == weights_rel_off + total_len,
            pf@.first_buffer_next,
            pf@.len_a == old(buf_a)@.len(),
            pf@.len_b == old(buf_b)@.len(),
            total_len == 0 ==> !pf@.failed,
            weights_rel_off + total_len > u64::MAX || (total_len > 0 && old(buf_a)@.len() == 0)
                ==> pf@.failed,
            weights_rel_off + total_len <= u64::MAX && old(buf_a)@.len() > 0 && rom.serves(
                weights_rel_off,
                pf@.block_len() as nat,
            ) ==> !pf@.failed,
            forall|o: u64, n: nat|
                #![trigger rom.serves(o, n)]
                #![trigger pf.source_serves(o, n)]
                rom.serves(o, n) ==> pf.source_serves(o, n),
    {
        let mut rom = rom;
        let cart_off: u64 = weights_rel_to_cart_off(weights_rel_off);
        let cap: usize = buf_a.len();
        if total_len > u64::MAX - cart_off || (total_len > 0 && cap == 0) {
            return Prefetcher {
                rom,
                cart_off,
                len: total_len,
                buf_a,
                buf_b,
                cur: 0,
                ready: 0,
                failed: true,
            };
        }
        let first: usize = if total_len < cap as u64 {
            total_len as usize
        } else {
            cap
        };
        let ok: bool = if first > 0 {
            read_abs_into(&mut rom, cart_off, buf_a, 0, first)
        } else {
            true
        };
        if !ok {
            return Prefetcher {
                rom,
                cart_off,
                len: total_len,
                buf_a,
                buf_b,
                cur: 0,
                ready: 0,
                failed: true,
            };
        }
        proof {
            assert(buf_a@.take(first as int) =~= buf_a@.subrange(0, first as int));
        }
        Prefetcher {
            rom,
            cart_off: cart_off + first as u64,
            len: total_len - first as u64,
            buf_a,
            buf_b,
            cur: 0,
            ready: first,
            failed: false,
        }
    }

    /// Hands out the next block and fetches the one after it into the other
    /// buffer.
    ///
    /// Returns `None` once every byte has been handed out, and also once the
    /// stream has failed: a failed fetch ends the stream after the block
    /// that was already waiting. The fetch asks for the block behind the
    /// waiting one, so the stream stays sound where no block follows it, or
    /// where the other buffer can hold something and the source serves the
    /// block that does.
    pub fn next_block(&mut self) -> (r: Option<&[u8]>)
        requires
            old(self).wf(),
        ensures
            final(self).wf(),
            final(self)@.rom == old(self)@.rom,
            final(self)@.end == old(self)@.end,
            final(self)@.len_a == old(self)@.len_a,
            final(self)@.len_b == old(self)@.len_b,
            r is None <==> old(self)@.failed || old(self)@.exhausted(),
            r is None ==> final(self)@ == old(self)@,
            r matches Some(block) ==> {
                &&& block@ == old(self)@.block()
                &&& block@.len() > 0
                &&& final(self)@.next == old(self)@.advance().next
                &&& final(self)@.first_buffer_next == old(self)@.advance().first_buffer_next
                &&& final(self)@.failed ==> !final(self)@.exhausted()
                &&& old(self)@.advance().exhausted() || (old(self)@.advance().buffer_len() > 0
                    && old(self).source_serves(
                    old(self)@.advance().next as u64,
                    old(self)@.advance().block_len() as nat,
                )) ==> !final(self)@.failed
            },
            forall|o: u64, n: nat|
                #![trigger old(self).source_serves(o, n)]
                #![trigger final(self).source_serves(o, n)]
                old(self).source_serves(o, n) ==> final(self).source_serves(o, n),
    {
        if self.ready == 0 {
            return None;
        }
        let ghost before = self@;
        let ghost waiting = self.waiting();
        let delivered: usize = self.ready;
        // Fetch the block after this one into the other buffer.
        let other_cap: usize = if self.cur == 0 {
            self.buf_b.len()
        } else {
            self.buf_a.len()
        };
        let want: usize = if self.len < other_cap as u64 {
            self.len as usize
        } else {
            other_cap
        };
        let mut fetched: bool = true;
        if want > 0 {
            if self.cur == 0 {
                fetched = read_abs_into(&mut self.rom, self.cart_off, self.buf_b, 0, want);
                assert(self.buf_b@.take(want as int) =~= self.buf_b@.subrange(0, want as int));
            } else {
                fetched = read_abs_into(&mut self.rom, self.cart_off, self.buf_a, 0, want);
                assert(self.buf_a@.take(want as int) =~= self.buf_a@.subrange(0, want as int));
            }
        }
        let was: usize = self.cur;
        self.cur = 1 - was;
        if self.len > 0 && (want == 0 || !fetched) {
            self.failed = true;
            self.ready = 0;
        } else {
            self.ready = want;
            self.cart_off = self.cart_off + want as u64;
            self.len = self.len - want as u64;
        }
        let block: &[u8] = if was == 0 {
            slice_subrange(self.buf_a, 0, delivered)
        } else {
            slice_subrange(self.buf_b, 0, delivered)
        };
        assert(block@ =~= waiting);
        Some(block)
    }

    /// Number of bytes that have not been handed out, the waiting block
    /// included.
    pub fn remaining(&self) -> (n: u64)
        requires
            self.wf(),
        ensures
            n == self@.remaining(),
    {
        self.len + self.ready as u64
    }

    /// Whether the stream has come to a halt with bytes still to deliver.
    pub fn failed(&self) -> (f: bool)
        ensures
            f == self@.failed,
    {
        self.failed
    }

    /// Ends the stream and gives the source back.
    pub fn into_source(self) -> (rom: R)
        ensures
            rom.rom() == self@.rom,
            forall|o: u64, n: nat| #[trigger] rom.serves(o, n) == self.source_serves(o, n),
    {
        self.rom
    }
}

} // verus!
