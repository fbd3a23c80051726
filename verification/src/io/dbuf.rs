//! A pair of equally sized byte buffers whose roles can be swapped.

use vstd::prelude::*;

verus! {

/// Two buffers of `N` bytes: the current one and the next one.
pub struct Dbuf<const N: usize> {
    cur: [u8; N],
    nxt: [u8; N],
}

impl<const N: usize> Dbuf<N> {
    /// Content of the current buffer.
    pub closed spec fn cur(&self) -> Seq<u8> {
        self.cur@
    }

    /// Content of the next buffer.
    pub closed spec fn nxt(&self) -> Seq<u8> {
        self.nxt@
    }

    /// Both buffers are `N` bytes long.
    pub proof fn lemma_len(&self)
        ensures
            self.cur().len() == N,
            self.nxt().len() == N,
    {
    }

    /// Two buffers of zeroes.
    pub fn new() -> (d: Self)
        ensures
            d.cur() == Seq::new(N as nat, |i: int| 0u8),
            d.nxt() == Seq::new(N as nat, |i: int| 0u8),
    {
        let d = Self { cur: [0; N], nxt: [0; N] };
        assert(d.cur@ =~= Seq::new(N as nat, |i: int| 0u8));
        assert(d.nxt@ =~= Seq::new(N as nat, |i: int| 0u8));
        d
    }

    /// The current buffer, for writing; the next buffer is not touched.
    pub fn cur_mut(&mut self) -> (r: &mut [u8; N])
        ensures
            r@ == old(self).cur(),
            final(self).cur() == final(r)@,
            final(self).nxt() == old(self).nxt(),
    {
        &mut self.cur
    }

    /// The next buffer, for writing; the current buffer is not touched.
    pub fn nxt_mut(&mut self) -> (r: &mut [u8; N])
        ensures
            r@ == old(self).nxt(),
            final(self).nxt() == final(r)@,
            final(self).cur() == old(self).cur(),
    {
        &mut self.nxt
    }

    /// Exchanges the roles of the two buffers.
    pub fn swap(&mut self)
        ensures
            final(self).cur() == old(self).nxt(),
            final(self).nxt() == old(self).cur(),
    {
        core::mem::swap(&mut self.cur, &mut self.nxt);
    }
}

} // verus!
