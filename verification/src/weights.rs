//! Where the weight blob lies on the cartridge.
//!
//! Offsets in a manifest are relative to the start of the weight blob. They
//! are turned into cartridge offsets in one place only, just before a
//! transfer is issued.

use vstd::prelude::*;
use crate::io::rom_reader::{reads_as, RomReader};
use crate::platform::cart::{read_abs_into, RomSource};

verus! {

/// Cartridge offset of the weight blob where none is built into the image.
pub fn weights_rom_base() -> (base: u32)
    ensures
        base == 0,
{
    0
}

/// Size of the weight blob where none is built into the image.
pub fn weights_rom_size() -> (size: u64)
    ensures
        size == 0,
{
    0
}

/// Cartridge offset of the byte at `rel` in a weight blob that starts at
/// cartridge offset zero.
pub fn weights_rel_to_cart_off(rel: u64) -> (off: u64)
    ensures
        off == rel,
{
    rel
}

/// A weight blob of known placement, read through a source of cartridge
/// bytes. Offset zero of this source is the first byte of the blob, and a
/// read that leaves the blob fails. The blob is a source and a reader alike.
pub struct WeightBlob<S: RomSource> {
    cart: S,
    base: u64,
    size: u64,
}

impl<S: RomSource> WeightBlob<S> {
    /// Cartridge offset of the blob.
    pub closed spec fn base(&self) -> u64 {
        self.base
    }

    /// Number of bytes in the blob.
    pub closed spec fn size(&self) -> u64 {
        self.size
    }

    /// The bytes of the whole cartridge.
    pub closed spec fn cart_rom(&self) -> Seq<u8> {
        self.cart.rom()
    }

    /// Whether the cartridge serves a read of `len` bytes at its offset
    /// `off`.
    pub closed spec fn cart_serves(&self, off: u64, len: nat) -> bool {
        self.cart.serves(off, len)
    }

    /// The blob of `size` bytes at cartridge offset `base` of `cart`.
    pub fn new(cart: S, base: u64, size: u64) -> (blob: Self)
        ensures
            blob.base() == base,
            blob.size() == size,
            blob.cart_rom() == cart.rom(),
            forall|o: u64, n: nat| #[trigger] blob.cart_serves(o, n) == cart.serves(o, n),
    {
        WeightBlob { cart, base, size }
    }

    /// Cartridge offset of the blob's byte `rel`, or `None` where the blob
    /// has no such byte or the offset does not fit in 64 bits.
    pub fn rel_to_cart_off(&self, rel: u64) -> (off: Option<u64>)
        ensures
            off is Some <==> rel <= self.size() && self.base() + rel <= u64::MAX,
            off matches Some(o) ==> o == self.base() + rel,
    {
        if rel > self.size || rel > u64::MAX - self.base {
            None
        } else {
            Some(self.base + rel)
        }
    }

    /// Number of bytes in the blob.
    pub fn size_bytes(&self) -> (n: u64)
        ensures
            n == self.size(),
    {
        self.size
    }
}

impl<S: RomSource> RomSource for WeightBlob<S> {
    /// The part of the cartridge that the blob covers.
    open spec fn rom(&self) -> Seq<u8> {
        if self.base() + self.size() <= self.cart_rom().len() {
            self.cart_rom().subrange(self.base() as int, self.base() + self.size())
        } else if self.base() <= self.cart_rom().len() {
            self.cart_rom().subrange(self.base() as int, self.cart_rom().len() as int)
        } else {
            Seq::empty()
        }
    }

    /// An empty read is served; another one where it lies within the blob and
    /// the cartridge serves it at its cartridge offset.
    open spec fn serves(&self, off: u64, len: nat) -> bool {
        len == 0 || (off + len <= self.size() && self.base() + off <= u64::MAX && self.cart_serves(
            (self.base() + off) as u64,
            len,
        ))
    }

    /// Fails where the request leaves the blob, whatever the cartridge holds
    /// there; an empty request succeeds.
    fn read_abs(&mut self, rom_abs_off: u64, dst: &mut [u8]) -> (r: Result<(), ()>)
        ensures
            old(dst)@.len() == 0 ==> r is Ok,
            old(dst)@.len() > 0 && rom_abs_off + old(dst)@.len() > old(self).size() ==> r is Err,
            final(self).base() == old(self).base(),
            final(self).size() == old(self).size(),
    {
        let n: usize = dst.len();
        if n == 0 {
            return Ok(());
        }
        if rom_abs_off > self.size || n as u64 > self.size - rom_abs_off {
            return Err(());
        }
        if rom_abs_off > u64::MAX - self.base {
            return Err(());
        }
        let ghost cart = self.cart.rom();
        let ok: bool = read_abs_into(&mut self.cart, self.base + rom_abs_off, dst, 0, n);
        if ok {
            assert(dst@.subrange(0, n as int) =~= dst@);
            assert(dst@ =~= <Self as RomSource>::rom(self).subrange(rom_abs_off as int, rom_abs_off + n));
            Ok(())
        } else {
            Err(())
        }
    }
}

impl<S: RomSource> RomReader for WeightBlob<S> {
    /// The part of the cartridge that the blob covers.
    open spec fn rom(&self) -> Seq<u8> {
        <Self as RomSource>::rom(self)
    }

    /// What the blob serves as a source.
    open spec fn serves(&self, off: u64, len: nat) -> bool {
        <Self as RomSource>::serves(self, off, len)
    }

    /// Fails where the request leaves the blob, whatever the cartridge holds
    /// there; an empty request succeeds.
    fn read(&mut self, rom_abs_off: u64, dst: &mut [u8]) -> (ok: bool)
        ensures
            old(dst)@.len() == 0 ==> ok,
            old(dst)@.len() > 0 && rom_abs_off + old(dst)@.len() > old(self).size() ==> !ok,
            final(self).base() == old(self).base(),
            final(self).size() == old(self).size(),
    {
        self.read_abs(rom_abs_off, dst).is_ok()
    }
}

} // verus!
