//! Addresses that the boot stage works with.

use vstd::prelude::*;

verus! {

/// First address of RDRAM in the cached segment.
pub const RDRAM_CACHED: u32 = 0x8000_0000;

/// Where the second stage is loaded: at the top of a memory of `memsize`
/// bytes, `stage2_size` bytes below its end. Sizes are taken as unsigned and
/// the address wraps around at 32 bits.
pub open spec fn loader_base_spec(memsize: i32, stage2_size: i32) -> u32 {
    ((RDRAM_CACHED + (memsize as int % 0x1_0000_0000) - (stage2_size as int % 0x1_0000_0000))
        % 0x1_0000_0000) as u32
}

/// The address at which the second stage is loaded.
pub fn loader_base(memsize: i32, stage2_size: i32) -> (base: u32)
    ensures
        base == loader_base_spec(memsize, stage2_size),
{
    let mem: u64 = if memsize >= 0 {
        memsize as u64
    } else {
        (memsize as i64 + 0x1_0000_0000) as u64
    };
    let size: u64 = if stage2_size >= 0 {
        stage2_size as u64
    } else {
        (stage2_size as i64 + 0x1_0000_0000) as u64
    };
    let wide: u64 = RDRAM_CACHED as u64 + mem + 0x1_0000_0000 - size;
    (wide % 0x1_0000_0000) as u32
}

/// Top of the stack of the second stage: the end of the signal processor's
/// data memory.
pub fn stack2_top(_memsize: i32, _stage2_size: i32) -> (top: u32)
    ensures
        top == 0xA400_0000 + 4096,
{
    0xA400_0000 + 4096
}

/// Largest block that the memory clearer moves at once.
pub const BZERO_MAX: i32 = 1024 * 1024;

/// Size of the next block when `size` bytes are left to clear: a mebibyte
/// where that much is left, else the whole pages that are left, else the
/// rest.
pub open spec fn bzero_chunk_spec(size: i32) -> int {
    if size >= BZERO_MAX {
        BZERO_MAX as int
    } else if size >= 4096 {
        size - size % 4096
    } else {
        size as int
    }
}

/// Size of the next block to clear.
pub fn bzero_chunk(size: i32) -> (sz: i32)
    ensures
        sz == bzero_chunk_spec(size),
        size > 0 ==> 0 < sz <= size,
{
    if size >= BZERO_MAX {
        BZERO_MAX
    } else if size >= 4096 {
        size - size % 4096
    } else {
        size
    }
}

} // verus!
