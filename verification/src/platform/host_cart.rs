//! A cartridge held in memory.

use vstd::prelude::*;
use crate::io::rom_reader::{reads_as, RomReader};
use crate::platform::cart::RomSource;

verus! {

/// Cartridge whose bytes are the bytes of a vector.
pub struct VecRom(pub Vec<u8>);

/// Copies `src[from..from + dst.len()]` into `dst`.
fn copy_from(dst: &mut [u8], src: &Vec<u8>, from: usize)
    requires
        from + old(dst)@.len() <= src@.len(),
    ensures
        final(dst)@ == src@.subrange(from as int, from + old(dst)@.len()),
{
    let n: usize = dst.len();
    let size: usize = src.len();
    let mut i: usize = 0;
    while i < n
        invariant
            i <= n,
            n == dst@.len(),
            from + n <= src@.len(),
            size == src@.len(),
            forall|k: int| 0 <= k < i ==> dst@[k] == src@[from + k],
        decreases n - i,
    {
        dst[i] = src[from + i];
        i += 1;
    }
    assert(dst@ =~= src@.subrange(from as int, from + n));
}

impl VecRom {
    /// Number of bytes on the cartridge.
    pub fn size_bytes(&self) -> (n: Option<u64>)
        ensures
            n == Some(self.0@.len() as u64),
    {
        Some(self.0.len() as u64)
    }

    /// Copies the bytes at `off` into `dst`, or returns `false` where the
    /// request reaches beyond the last byte.
    fn copy_out(&self, off: u64, dst: &mut [u8]) -> (ok: bool)
        ensures
            final(dst)@.len() == old(dst)@.len(),
            ok <==> off + old(dst)@.len() <= self.0@.len(),
            ok ==> final(dst)@ == self.0@.subrange(off as int, off + old(dst)@.len()),
    {
        let size: usize = self.0.len();
        if off > size as u64 {
            return false;
        }
        let from: usize = off as usize;
        if dst.len() > size - from {
            return false;
        }
        copy_from(dst, &self.0, from);
        true
    }
}

impl RomSource for VecRom {
    open spec fn rom(&self) -> Seq<u8> {
        self.0@
    }

    /// Every read that lies within the vector is served.
    open spec fn serves(&self, off: u64, len: nat) -> bool {
        off + len <= self.0@.len()
    }

    /// Succeeds exactly where the request lies within the vector.
    fn read_abs(&mut self, rom_abs_off: u64, dst: &mut [u8]) -> (r: Result<(), ()>)
        ensures
            r is Ok <==> rom_abs_off + old(dst)@.len() <= old(self).0@.len(),
    {
        if self.copy_out(rom_abs_off, dst) {
            Ok(())
        } else {
            Err(())
        }
    }
}

impl RomReader for VecRom {
    open spec fn rom(&self) -> Seq<u8> {
        self.0@
    }

    /// Every read that lies within the vector is served.
    open spec fn serves(&self, off: u64, len: nat) -> bool {
        off + len <= self.0@.len()
    }

    /// Succeeds exactly where the request lies within the vector.
    fn read(&mut self, rom_abs_off: u64, dst: &mut [u8]) -> (ok: bool)
        ensures
            ok <==> rom_abs_off + old(dst)@.len() <= old(self).0@.len(),
    {
        self.copy_out(rom_abs_off, dst)
    }

    fn rom_limit_bytes(&self) -> (limit: u64)
        ensures
            limit == self.0@.len(),
    {
        self.0.len() as u64
    }
}

} // verus!
