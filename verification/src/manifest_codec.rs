//! The manifest format, written down as an encoder, and the proof that the
//! parser reads back what the encoder writes.

use vstd::prelude::*;
use vstd::utf8::*;
use crate::weights_manifest::{
    decode_entry, has_magic, parse_header, record_len, u16_le, u32_le, EntryModel, ManErr,
    ManifestModel, HEADER_BYTES,
};

verus! {

/// The two bytes of `v`, low byte first.
pub open spec fn encode_u16(v: int) -> Seq<u8> {
    seq![(v % 256) as u8, (v / 256) as u8]
}

/// The four bytes of `v`, low byte first.
pub open spec fn encode_u32(v: int) -> Seq<u8> {
    seq![
        (v % 256) as u8,
        (v / 256 % 256) as u8,
        (v / 65536 % 256) as u8,
        (v / 16777216) as u8,
    ]
}

/// The signature `N64W`.
pub open spec fn magic() -> Seq<u8> {
    seq![0x4Eu8, 0x36u8, 0x34u8, 0x57u8]
}

/// The checksum field of an entry: four bytes in version 2, nothing in
/// version 1.
pub open spec fn encode_checksum(e: EntryModel, version: int) -> Seq<u8> {
    if version >= 2 {
        encode_u32(e.crc32->0 as int)
    } else {
        Seq::empty()
    }
}

/// The record of one entry.
pub open spec fn encode_entry(e: EntryModel, version: int) -> Seq<u8> {
    encode_u16(encode_utf8(e.name).len() as int) + encode_utf8(e.name) + encode_u32(e.offset as int)
        + encode_u32(e.size as int) + encode_checksum(e, version)
}

/// The records of `entries`, one after the other.
pub open spec fn encode_entries(entries: Seq<EntryModel>, version: int) -> Seq<u8>
    decreases entries.len(),
{
    if entries.len() == 0 {
        Seq::empty()
    } else {
        encode_entries(entries.drop_last(), version) + encode_entry(entries.last(), version)
    }
}

/// The header of a manifest with `count` entries.
pub open spec fn encode_header(version: u16, align: u16, count: int) -> Seq<u8> {
    magic() + encode_u16(version as int) + encode_u16(align as int) + encode_u32(count)
}

/// A whole manifest.
pub open spec fn encode_manifest(version: u16, align: u16, entries: Seq<EntryModel>) -> Seq<u8> {
    encode_header(version, align, entries.len() as int) + encode_entries(entries, version as int)
}

/// Whether an entry can be written in the given version: its name takes at
/// most 65535 bytes, and it has a checksum exactly in version 2.
pub open spec fn encodable(e: EntryModel, version: int) -> bool {
    &&& encode_utf8(e.name).len() <= 0xFFFF
    &&& e.crc32 is Some <==> version >= 2
}

/// The records of the entries from `k` on.
spec fn encode_tail(entries: Seq<EntryModel>, version: int, k: int) -> Seq<u8>
    decreases entries.len() - k,
{
    if k >= entries.len() {
        Seq::empty()
    } else {
        encode_entry(entries[k], version) + encode_tail(entries, version, k + 1)
    }
}

proof fn lemma_u16_reads_back(bytes: Seq<u8>, at: int, v: int)
    requires
        0 <= v <= 0xFFFF,
        0 <= at,
        at + 2 <= bytes.len(),
        bytes[at] == encode_u16(v)[0],
        bytes[at + 1] == encode_u16(v)[1],
    ensures
        u16_le(bytes, at) == v,
{
}

proof fn lemma_u32_reads_back(bytes: Seq<u8>, at: int, v: int)
    requires
        0 <= v <= 0xFFFF_FFFF,
        0 <= at,
        at + 4 <= bytes.len(),
        bytes[at] == encode_u32(v)[0],
        bytes[at + 1] == encode_u32(v)[1],
        bytes[at + 2] == encode_u32(v)[2],
        bytes[at + 3] == encode_u32(v)[3],
    ensures
        u32_le(bytes, at) == v,
{
}

/// Length of a record.
proof fn lemma_entry_len(e: EntryModel, version: int)
    ensures
        encode_entry(e, version).len() == record_len(encode_utf8(e.name).len() as int, version),
{
}

/// A record reads back as its entry, wherever it stands.
proof fn lemma_entry_reads_back(pre: Seq<u8>, e: EntryModel, post: Seq<u8>, version: int)
    requires
        encodable(e, version),
    ensures
        decode_entry(pre + encode_entry(e, version) + post, pre.len() as int, version) == Ok::<
            (EntryModel, int),
            ManErr,
        >((e, (pre.len() + encode_entry(e, version).len()) as int)),
{
    let name = encode_utf8(e.name);
    let n = name.len() as int;
    let rec = encode_entry(e, version);
    let bytes = pre + rec + post;
    let at = pre.len() as int;
    lemma_entry_len(e, version);
    assert forall|i: int| 0 <= i < rec.len() implies bytes[at + i] == rec[i] by {}
    assert(rec[0] == encode_u16(n)[0]);
    assert(rec[1] == encode_u16(n)[1]);
    lemma_u16_reads_back(bytes, at, n);
    assert(bytes.subrange(at + 2, at + 2 + n) =~= name) by {
        assert forall|i: int| 0 <= i < n implies bytes[at + 2 + i] == name[i] by {
            assert(rec[2 + i] == name[i]);
        }
    }
    encode_utf8_valid_utf8(e.name);
    encode_utf8_decode_utf8(e.name);
    assert forall|j: int| 0 <= j < 4 implies bytes[at + 2 + n + j] == encode_u32(e.offset as int)[j] by {
        assert(rec[2 + n + j] == encode_u32(e.offset as int)[j]);
    }
    lemma_u32_reads_back(bytes, at + 2 + n, e.offset as int);
    assert forall|j: int| 0 <= j < 4 implies bytes[at + 6 + n + j] == encode_u32(e.size as int)[j] by {
        assert(rec[6 + n + j] == encode_u32(e.size as int)[j]);
    }
    lemma_u32_reads_back(bytes, at + 6 + n, e.size as int);
    if version >= 2 {
        let crc = e.crc32->0 as int;
        assert forall|j: int| 0 <= j < 4 implies bytes[at + 10 + n + j] == encode_u32(crc)[j] by {
            assert(rec[10 + n + j] == encode_u32(crc)[j]);
        }
        lemma_u32_reads_back(bytes, at + 10 + n, crc);
    }
}

/// The records split at any entry.
proof fn lemma_split(entries: Seq<EntryModel>, version: int, k: int)
    requires
        0 <= k <= entries.len(),
    ensures
        encode_entries(entries, version) == encode_entries(entries.take(k), version) + encode_tail(
            entries,
            version,
            k,
        ),
    decreases entries.len() - k,
{
    if k == entries.len() {
        assert(entries.take(k) =~= entries);
        assert(encode_entries(entries, version) + Seq::<u8>::empty() =~= encode_entries(
            entries,
            version,
        ));
    } else {
        lemma_split(entries, version, k + 1);
        assert(entries.take(k + 1).drop_last() =~= entries.take(k));
        assert(entries.take(k + 1).last() == entries[k]);
        assert(encode_entries(entries.take(k), version) + encode_entry(entries[k], version)
            + encode_tail(entries, version, k + 1) =~= encode_entries(entries.take(k), version) + (
        encode_entry(entries[k], version) + encode_tail(entries, version, k + 1)));
    }
}

/// The header reads back.
proof fn lemma_header_reads_back(version: u16, align: u16, count: int, rest: Seq<u8>)
    requires
        version == 1 || version == 2,
        0 <= count <= u32::MAX,
    ensures
        parse_header(encode_header(version, align, count) + rest) == Ok::<ManifestModel, ManErr>(
            ManifestModel {
                bytes: encode_header(version, align, count) + rest,
                version,
                align,
                count: count as u32,
            },
        ),
{
    let header = encode_header(version, align, count);
    let bytes = header + rest;
    assert(header.len() == HEADER_BYTES);
    assert forall|i: int| 0 <= i < 12 implies bytes[i] == header[i] by {}
    assert(has_magic(bytes));
    assert(header[4] == encode_u16(version as int)[0]);
    assert(header[5] == encode_u16(version as int)[1]);
    lemma_u16_reads_back(bytes, 4, version as int);
    assert(header[6] == encode_u16(align as int)[0]);
    assert(header[7] == encode_u16(align as int)[1]);
    lemma_u16_reads_back(bytes, 6, align as int);
    assert(header[8] == encode_u32(count)[0]);
    assert(header[9] == encode_u32(count)[1]);
    assert(header[10] == encode_u32(count)[2]);
    assert(header[11] == encode_u32(count)[3]);
    lemma_u32_reads_back(bytes, 8, count);
}

/// An encoded manifest is what stands in front of record `k`, then record
/// `k`, then the records behind it.
proof fn lemma_manifest_shape(version: u16, align: u16, entries: Seq<EntryModel>, k: int)
    requires
        0 <= k < entries.len(),
    ensures
        encode_manifest(version, align, entries) == (encode_header(version, align, entries.len() as int)
            + encode_entries(entries.take(k), version as int)) + encode_entry(entries[k], version as int)
            + encode_tail(entries, version as int, k + 1),
        encode_entries(entries.take(k + 1), version as int) == encode_entries(
            entries.take(k),
            version as int,
        ) + encode_entry(entries[k], version as int),
        encode_header(version, align, entries.len() as int).len() == HEADER_BYTES,
{
    let v = version as int;
    let header = encode_header(version, align, entries.len() as int);
    lemma_split(entries, v, k);
    assert(entries.take(k + 1).drop_last() =~= entries.take(k));
    assert(entries.take(k + 1).last() == entries[k]);
    assert(encode_tail(entries, v, k) == encode_entry(entries[k], v) + encode_tail(entries, v, k + 1));
    assert(header + (encode_entries(entries.take(k), v) + (encode_entry(entries[k], v) + encode_tail(
        entries,
        v,
        k + 1,
    ))) =~= (header + encode_entries(entries.take(k), v)) + encode_entry(entries[k], v) + encode_tail(
        entries,
        v,
        k + 1,
    ));
}

/// Record `k` of an encoded manifest is entry `k`.
proof fn lemma_record_reads_back(m: ManifestModel, align: u16, entries: Seq<EntryModel>, k: nat)
    requires
        m.version == 1 || m.version == 2,
        m.bytes == encode_manifest(m.version, align, entries),
        forall|i: int| 0 <= i < entries.len() ==> encodable(#[trigger] entries[i], m.version as int),
        k < entries.len(),
    ensures
        m.record_start(k) == HEADER_BYTES + encode_entries(entries.take(k as int), m.version as int).len(),
        m.record(k) == Ok::<(EntryModel, int), ManErr>(
            (
                entries[k as int],
                HEADER_BYTES + encode_entries(entries.take(k as int + 1), m.version as int).len(),
            ),
        ),
    decreases k,
{
    let version = m.version as int;
    let header = encode_header(m.version, align, entries.len() as int);
    let before = encode_entries(entries.take(k as int), version);
    let pre = header + before;
    let record = encode_entry(entries[k as int], version);
    let post = encode_tail(entries, version, k as int + 1);
    lemma_manifest_shape(m.version, align, entries, k as int);
    assert(pre.len() == HEADER_BYTES + before.len());
    assert(m.record_start(k) == pre.len()) by {
        if k == 0 {
            assert(entries.take(0) =~= Seq::<EntryModel>::empty());
        } else {
            lemma_record_reads_back(m, align, entries, (k - 1) as nat);
            assert(m.record((k - 1) as nat) == decode_entry(
                m.bytes,
                m.record_start((k - 1) as nat),
                version,
            ));
        }
    }
    assert(decode_entry(m.bytes, pre.len() as int, version) == Ok::<(EntryModel, int), ManErr>(
        (entries[k as int], (pre.len() + record.len()) as int),
    )) by {
        lemma_entry_reads_back(pre, entries[k as int], post, version);
    }
}

/// Round trip: the manifest written for a list of entries parses, its header
/// gives back the version, the alignment and the number of entries, and its
/// records decode to exactly those entries, in the same order.
pub proof fn lemma_manifest_round_trip(version: u16, align: u16, entries: Seq<EntryModel>)
    requires
        version == 1 || version == 2,
        entries.len() <= u32::MAX,
        forall|i: int| 0 <= i < entries.len() ==> encodable(#[trigger] entries[i], version as int),
    ensures
        parse_header(encode_manifest(version, align, entries)) matches Ok(m) && {
            &&& m.version == version
            &&& m.align == align
            &&& m.count == entries.len()
            &&& m.decodes_up_to(entries.len())
            &&& forall|k: nat| k < entries.len() ==> #[trigger] m.entry(k) == entries[k as int]
        },
{
    let bytes = encode_manifest(version, align, entries);
    lemma_header_reads_back(version, align, entries.len() as int, encode_entries(entries, version as int));
    let m = ManifestModel { bytes, version, align, count: entries.len() as u32 };
    assert forall|k: nat| k < entries.len() implies (#[trigger] m.record(k)) is Ok && m.entry(k)
        == entries[k as int] by {
        lemma_record_reads_back(m, align, entries, k);
    }
}

} // verus!
