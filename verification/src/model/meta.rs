//! The optional `model_meta` record: a magic number, a version and the six
//! dimensions, eight little-endian 32-bit words in all.

use vstd::prelude::*;
use crate::io::rom_reader::{read_into, reads_as, still_serves, RomReader};
use crate::model::dims::ModelDims;
use crate::model::names::L_MODEL_META;
use crate::weights::weights_rel_to_cart_off;
use crate::weights_manifest::{u32_le, ManifestModel, ManifestView};
use crate::weights_manifest_find::{find, find_spec};

verus! {

/// `META`, read as a little-endian word.
pub const META_MAGIC: u32 = 0x4D45_5441;

/// The one version of the record.
pub const META_VERSION_V1: u32 = 1;

/// Length of the record.
pub const META_BYTES_V1: usize = 32;

/// The dimensions that a record declares, or `None` where the record is too
/// short, or its magic number or version is wrong.
pub open spec fn parse_meta_spec(buf: Seq<u8>) -> Option<ModelDims> {
    if buf.len() < META_BYTES_V1 {
        None
    } else if u32_le(buf, 0) != META_MAGIC {
        None
    } else if u32_le(buf, 4) != META_VERSION_V1 {
        None
    } else {
        Some(
            ModelDims {
                d_model: u32_le(buf, 8) as u32,
                vocab_size: u32_le(buf, 12) as u32,
                n_layer: u32_le(buf, 16) as u32,
                n_head: u32_le(buf, 20) as u32,
                n_positions: u32_le(buf, 24) as u32,
                d_ff: u32_le(buf, 28) as u32,
            },
        )
    }
}

/// The little-endian word at `at`.
fn word_at(buf: &[u8], at: usize) -> (w: u32)
    requires
        at + 4 <= buf@.len(),
    ensures
        w == u32_le(buf@, at as int),
{
    let b0: u32 = buf[at] as u32;
    let b1: u32 = buf[at + 1] as u32;
    let b2: u32 = buf[at + 2] as u32;
    let b3: u32 = buf[at + 3] as u32;
    b0 + b1 * 256 + b2 * 65536 + b3 * 16777216
}

/// Decodes a `model_meta` record.
pub fn parse_meta(buf: &[u8]) -> (dims: Option<ModelDims>)
    ensures
        dims == parse_meta_spec(buf@),
{
    if buf.len() < META_BYTES_V1 {
        return None;
    }
    if word_at(buf, 0) != META_MAGIC {
        return None;
    }
    if word_at(buf, 4) != META_VERSION_V1 {
        return None;
    }
    Some(
        ModelDims::new(
            word_at(buf, 8),
            word_at(buf, 12),
            word_at(buf, 16),
            word_at(buf, 20),
            word_at(buf, 24),
            word_at(buf, 28),
        ),
    )
}

/// The dimensions that the `model_meta` entry declares on a medium that
/// holds `rom`, where the manifest has the entry, the entry is long enough
/// for a record, and the record lies on the medium.
pub open spec fn meta_dims(rom: Seq<u8>, m: ManifestModel) -> Option<ModelDims> {
    match find_spec(m, L_MODEL_META@) {
        None => None,
        Some(e) => if e.size < META_BYTES_V1 || e.offset + META_BYTES_V1 > rom.len() {
            None
        } else {
            parse_meta_spec(rom.subrange(e.offset as int, e.offset + META_BYTES_V1))
        },
    }
}

/// Reads the dimensions from the `model_meta` entry of `man`.
///
/// Returns `None` where the manifest has no such entry, the entry is shorter
/// than a record, the read fails, or the record is refused. Where the read
/// succeeds, the result is what the first 32 bytes of the entry declare; it
/// succeeds where the reader serves those bytes.
pub fn load_dims_from_meta<R: RomReader>(rr: &mut R, man: &ManifestView<'_>) -> (dims: Option<
    ModelDims,
>)
    ensures
        (*final(rr)).rom() == (*old(rr)).rom(),
        still_serves(*old(rr), *final(rr)),
        dims is Some ==> dims == meta_dims((*old(rr)).rom(), man@),
        meta_dims((*old(rr)).rom(), man@) is None ==> dims is None,
        (find_spec(man@, L_MODEL_META@) matches Some(e) && (*old(rr)).serves(
            e.offset as u64,
            META_BYTES_V1 as nat,
        )) ==> dims == meta_dims((*old(rr)).rom(), man@),
{
    let e = match find(man, L_MODEL_META) {
        Some(e) => e,
        None => {
            return None;
        },
    };
    if e.size < META_BYTES_V1 as u32 {
        return None;
    }
    let mut buf: [u8; 32] = [0; 32];
    if !read_into(rr, weights_rel_to_cart_off(e.offset as u64), &mut buf, 0, META_BYTES_V1) {
        return None;
    }
    assert(buf@.subrange(0, 32) =~= buf@);
    parse_meta(&buf)
}

} // verus!
