use n64_gpt::config::{probe_offsets, BURST_BYTES, PROBE_SAMPLE_BYTES, ROM_LIMIT_BYTES};
use n64_gpt::diag::decode_once::{self, DecodeOnce};
use n64_gpt::diag::manifest_check::manifest_check;
use n64_gpt::diag::rom_probe::run_probe;
use n64_gpt::diag::stream_bench::{self, dma_percent, kib_per_second};
use n64_gpt::diag::stream_crc::{self, verdict, CrcVerdict};
use n64_gpt::diag::weights_info::show_weights_info;
use n64_gpt::infer::decoder::{argmax_over_head, HeadScan};
use n64_gpt::infer::embedding::{gather_embedding, RowSpan};
use n64_gpt::io::rom_reader::RomReader;
use n64_gpt::manifest::{load, validate, Layer, Manifest};
use n64_gpt::model::dims::ModelDims;
use n64_gpt::model::infer_dims::infer_from_layers;
use n64_gpt::model::meta::{load_dims_from_meta, parse_meta};
use n64_gpt::platform::host_cart::VecRom;
use n64_gpt::stream::streamer::{checksum_range, stream_entry_timed, StreamStats, Streamed, Sums};
use n64_gpt::util::adler32::adler32;
use n64_gpt::util::crc32::{crc32_finish, crc32_update};
use n64_gpt::weights_manifest::{ManErr, ManifestView};

fn manifest_bytes(ver: u16, align: u16, entries: &[(&str, u32, u32, u32)]) -> Vec<u8> {
    let mut v = b"N64W".to_vec();
    v.extend_from_slice(&ver.to_le_bytes());
    v.extend_from_slice(&align.to_le_bytes());
    v.extend_from_slice(&(entries.len() as u32).to_le_bytes());
    for (name, off, size, crc) in entries {
        v.extend_from_slice(&(name.len() as u16).to_le_bytes());
        v.extend_from_slice(name.as_bytes());
        v.extend_from_slice(&off.to_le_bytes());
        v.extend_from_slice(&size.to_le_bytes());
        if ver >= 2 {
            v.extend_from_slice(&crc.to_le_bytes());
        }
    }
    v
}

fn pattern(len: usize) -> Vec<u8> {
    (0..len).map(|i| (i * 7 % 251) as u8).collect()
}

fn meta_record(magic: u32, version: u32, dims: [u32; 6]) -> Vec<u8> {
    let mut v = Vec::new();
    v.extend_from_slice(&magic.to_le_bytes());
    v.extend_from_slice(&version.to_le_bytes());
    for d in dims {
        v.extend_from_slice(&d.to_le_bytes());
    }
    v
}

struct Dead;

impl RomReader for Dead {
    fn read(&mut self, _off: u64, _dst: &mut [u8]) -> bool {
        false
    }
}

#[test]
fn meta_record_is_decoded() {
    let rec = meta_record(0x4D45_5441, 1, [4, 5, 1, 2, 8, 16]);
    assert_eq!(&rec[..4], b"ATEM");
    assert_eq!(parse_meta(&rec), Some(ModelDims::new(4, 5, 1, 2, 8, 16)));
    // trailing bytes are ignored
    let mut long = rec.clone();
    long.extend_from_slice(&[9; 5]);
    assert_eq!(parse_meta(&long), Some(ModelDims::new(4, 5, 1, 2, 8, 16)));
    assert_eq!(parse_meta(&rec[..31]), None);
    assert_eq!(parse_meta(&meta_record(0x4D45_5442, 1, [4, 5, 1, 2, 8, 16])), None);
    assert_eq!(parse_meta(&meta_record(0x4D45_5441, 2, [4, 5, 1, 2, 8, 16])), None);
    assert_eq!(
        parse_meta(&meta_record(0x4D45_5441, 1, [u32::MAX, 0, 1, 0x0102_0304, 8, 16])),
        Some(ModelDims::new(u32::MAX, 0, 1, 0x0102_0304, 8, 16))
    );
}

#[test]
fn dims_come_from_the_meta_entry() {
    let mut blob = vec![0u8; 256];
    blob[64..96].copy_from_slice(&meta_record(0x4D45_5441, 1, [4, 5, 1, 2, 8, 16]));
    let bytes = manifest_bytes(2, 64, &[("x", 0, 64, 0), ("model_meta", 64, 32, 0)]);
    let view = ManifestView::new(&bytes).unwrap();
    let mut rom = VecRom(blob.clone());
    assert_eq!(load_dims_from_meta(&mut rom, &view), Some(ModelDims::new(4, 5, 1, 2, 8, 16)));
    assert_eq!(load_dims_from_meta(&mut Dead, &view), None);
    assert_eq!(infer_from_layers(&view), None);
    // an entry that is too short, and no entry at all
    let short = manifest_bytes(2, 64, &[("model_meta", 64, 31, 0)]);
    assert_eq!(load_dims_from_meta(&mut rom, &ManifestView::new(&short).unwrap()), None);
    let none = manifest_bytes(2, 64, &[("tok_embeddings", 0, 64, 0), ("lm_head", 64, 64, 0)]);
    let view = ManifestView::new(&none).unwrap();
    assert_eq!(load_dims_from_meta(&mut rom, &view), None);
    assert_eq!(infer_from_layers(&view), None);
    // a record with the wrong magic
    let mut bad = blob.clone();
    bad[64] = 0;
    let view = ManifestView::new(&bytes).unwrap();
    assert_eq!(load_dims_from_meta(&mut VecRom(bad), &view), None);
}

#[test]
fn fallback_dims() {
    assert_eq!(ModelDims::fallback(), ModelDims::new(768, 50257, 12, 12, 1024, 3072));
}

#[test]
fn manifest_is_loaded_and_validated() {
    let mut blob = vec![0u8; 256];
    blob[128..160].copy_from_slice(&meta_record(0x4D45_5441, 1, [4, 5, 1, 2, 8, 16]));
    let bytes = manifest_bytes(1, 64, &[("a", 0, 64, 0), ("b", 64, 10, 0), ("model_meta", 128, 32, 0)]);
    let m = load(&mut VecRom(blob.clone()), &bytes, 256).unwrap();
    assert_eq!(m.align, 64);
    assert_eq!(m.dims, ModelDims::new(4, 5, 1, 2, 8, 16));
    let names: Vec<&str> = m.layers.iter().map(|l| l.name.as_str()).collect();
    assert_eq!(names, vec!["a", "b", "model_meta"]);
    assert_eq!((m.layers[1].offset, m.layers[1].size), (64, 10));
    assert_eq!(m.find("b").map(|l| l.offset), Some(64));
    assert_eq!(m.index_of("model_meta"), Some(2));
    assert!(m.find("c").is_none());
    assert_eq!(m.index_of(""), None);
    // without a readable record the compiled-in dimensions stand in
    let m = load(&mut Dead, &bytes, 256).unwrap();
    assert_eq!(m.dims, ModelDims::fallback());
    // a blob that is too short for the last entry
    assert!(load(&mut VecRom(blob.clone()), &bytes, 159).is_none());
    assert!(load(&mut VecRom(blob.clone()), &bytes, 160).is_some());
    // a refused header and a truncated record
    assert!(load(&mut VecRom(blob.clone()), b"N64X", 256).is_none());
    assert!(load(&mut VecRom(blob.clone()), &bytes[..bytes.len() - 1], 256).is_none());
    // an empty manifest is sound
    let empty = load(&mut VecRom(blob), &manifest_bytes(2, 0, &[]), 0).unwrap();
    assert!(empty.layers.is_empty());
    assert_eq!(empty.align, 0);
}

#[test]
fn layout_rules() {
    let layer = |offset: u32, size: u32| Layer { name: "t".to_string(), offset, size };
    let manifest = |layers: Vec<Layer>, align: u32| Manifest { layers, align, dims: ModelDims::fallback() };
    assert!(validate(&manifest(vec![], 0), 0));
    assert!(validate(&manifest(vec![layer(0, 64), layer(64, 64), layer(192, 1)], 64), 193));
    // touching entries are fine, overlapping ones are not
    assert!(validate(&manifest(vec![layer(0, 64), layer(64, 0), layer(64, 8)], 64), 72));
    assert!(!validate(&manifest(vec![layer(0, 65), layer(64, 8)], 64), 1000));
    // out of order
    assert!(!validate(&manifest(vec![layer(64, 8), layer(0, 8)], 64), 1000));
    // misaligned
    assert!(!validate(&manifest(vec![layer(0, 8), layer(65, 8)], 64), 1000));
    assert!(validate(&manifest(vec![layer(0, 8), layer(65, 8)], 1), 1000));
    assert!(validate(&manifest(vec![layer(0, 8), layer(65, 8)], 65), 1000));
    // nothing is aligned to zero
    assert!(!validate(&manifest(vec![layer(0, 8)], 0), 1000));
    // beyond the blob
    assert!(!validate(&manifest(vec![layer(0, 64)], 63), 63));
    assert!(!validate(&manifest(vec![layer(u32::MAX - 63, 64)], 1), u32::MAX as u64));
    assert!(validate(&manifest(vec![layer(u32::MAX, u32::MAX)], 1), 2 * (u32::MAX as u64)));
}

#[test]
fn manifest_check_findings() {
    let blob = pattern(200);
    let bytes = manifest_bytes(
        2,
        64,
        &[("a", 0, 64, 0), ("late", 128, 100, 0), ("odd", 65, 4, 0), ("none", 192, 0, 0), ("far", 256, 8, 0)],
    );
    let report = manifest_check(&mut VecRom(blob.clone()), &bytes, 228).unwrap();
    let got: Vec<(&str, bool, bool)> =
        report.entries.iter().map(|e| (e.name.as_str(), e.in_bounds, e.read_ok)).collect();
    assert_eq!(
        got,
        vec![
            ("a", true, true),
            // inside the claimed blob, and its first 32 bytes can be read
            ("late", true, true),
            ("odd", false, true),
            ("none", true, true),
            ("far", false, false),
        ]
    );
    assert_eq!(report.decode_error, None);
    assert!(!report.ok);
    assert_eq!((report.entries[1].offset, report.entries[1].size), (128, 100));

    let good = manifest_bytes(1, 16, &[("a", 0, 64, 0), ("b", 64, 1, 0)]);
    let report = manifest_check(&mut VecRom(blob.clone()), &good, 65).unwrap();
    assert!(report.ok);
    assert_eq!(report.entries.len(), 2);
    // the same manifest on a medium that cannot be read
    let report = manifest_check(&mut Dead, &good, 65).unwrap();
    assert!(!report.ok);
    assert!(report.entries.iter().all(|e| e.in_bounds && !e.read_ok));
    // a record that does not decode ends the scan and fails the check
    let report = manifest_check(&mut VecRom(blob.clone()), &good[..good.len() - 2], 65).unwrap();
    assert_eq!(report.entries.len(), 1);
    assert_eq!(report.decode_error, Some(ManErr::Truncated));
    assert!(!report.ok);
    // alignment zero
    let zero = manifest_bytes(1, 0, &[("a", 0, 4, 0)]);
    let report = manifest_check(&mut VecRom(blob.clone()), &zero, 65).unwrap();
    assert!(!report.entries[0].in_bounds);
    assert!(manifest_check(&mut VecRom(blob), b"nope", 65).is_none());
}

#[test]
fn checksum_range_sums() {
    let data = pattern(3 * BURST_BYTES + 17);
    let mut rom = VecRom(data.clone());
    let mut sums = Sums::new();
    let mut still = || 0u64;
    let streamed = checksum_range(&mut rom, 5, 70_000, &mut sums, &mut still);
    assert_eq!(streamed, Streamed { bytes: 70_000, bursts: 3, complete: true, dma_us: 0, compute_us: 0 });
    let slice = &data[5..70_005];
    assert_eq!(sums.crc, crc32_update(!0, slice));
    assert_eq!(sums.total_crc, sums.crc);
    assert_eq!((sums.s1, sums.s2), adler32(1, 0, slice));
    // the sums go on where they stood
    sums.crc = !0;
    let streamed = checksum_range(&mut rom, 0, 10, &mut sums, &mut still);
    assert_eq!(streamed, Streamed { bytes: 10, bursts: 1, complete: true, dma_us: 0, compute_us: 0 });
    assert_eq!(sums.crc, crc32_update(!0, &data[..10]));
    assert_eq!(sums.total_crc, crc32_update(crc32_update(!0, slice), &data[..10]));
    // nothing to stream
    let before = sums;
    assert_eq!(
        checksum_range(&mut rom, 1 << 40, 0, &mut sums, &mut still),
        Streamed { bytes: 0, bursts: 0, complete: true, dma_us: 0, compute_us: 0 }
    );
    assert_eq!(sums, before);
    // a range that leaves the medium: what was consumed is a whole number of bursts
    let mut sums = Sums::new();
    let streamed = checksum_range(&mut rom, 17, 3 * BURST_BYTES as u64 + 1, &mut sums, &mut still);
    assert_eq!(
        streamed,
        Streamed { bytes: 2 * BURST_BYTES as u64, bursts: 2, complete: false, dma_us: 0, compute_us: 0 }
    );
    assert_eq!(sums.crc, crc32_update(!0, &data[17..17 + 2 * BURST_BYTES]));
    let mut sums = Sums::new();
    assert_eq!(
        checksum_range(&mut Dead, 0, 10, &mut sums, &mut still),
        Streamed { bytes: 0, bursts: 0, complete: false, dma_us: 0, compute_us: 0 }
    );
    assert_eq!(sums, Sums::new());
    // with a clock that ticks once a millisecond at every reading
    let mut now = 0u64;
    let mut ticking = || {
        now += 46_875;
        now
    };
    let streamed = checksum_range(&mut rom, 0, 2 * BURST_BYTES as u64, &mut sums, &mut ticking);
    assert_eq!(
        streamed,
        Streamed { bytes: 2 * BURST_BYTES as u64, bursts: 2, complete: true, dma_us: 4000, compute_us: 2000 }
    );
}

#[test]
fn stream_entry_measures_time_with_the_clock_it_is_given() {
    let data = pattern(3 * BURST_BYTES);
    let mut rom = VecRom(data.clone());
    let mut now = 0u64;
    let mut got = 0usize;
    let stats = stream_entry_timed(&mut rom, 0, data.len() as u64, |c| got += c.len(), || {
        now += 46_875;
        now
    })
    .unwrap();
    assert_eq!(got, data.len());
    // five waits for the bus, three calls of the consumer, a millisecond each
    assert_eq!(
        stats,
        StreamStats { bytes: data.len() as u64, bursts: 3, dma_us: 5000, compute_us: 3000 }
    );
    // a clock that runs backwards measures nothing
    let mut back = u64::MAX;
    let stats = stream_entry_timed(&mut rom, 0, 10, |_| {}, || {
        back -= 1000;
        back
    })
    .unwrap();
    assert_eq!(stats, StreamStats { bytes: 10, bursts: 1, dma_us: 0, compute_us: 0 });
}

#[test]
fn crc_report() {
    let blob = pattern(400);
    let crc_a = crc32_finish(crc32_update(!0, &blob[0..100]));
    let crc_b = crc32_finish(crc32_update(!0, &blob[128..328]));
    let bytes = manifest_bytes(2, 64, &[("a", 0, 100, crc_a), ("b", 128, 200, crc_b ^ 1), ("c", 384, 64, 0)]);
    let report = stream_crc::run(&mut VecRom(blob.clone()), &bytes).unwrap();
    assert_eq!(report.entries.len(), 3);
    assert_eq!(report.entries[0].crc, crc_a);
    assert_eq!(report.entries[0].expected, Some(crc_a));
    assert_eq!(report.entries[0].verdict, CrcVerdict::Verified);
    assert_eq!(report.entries[1].crc, crc_b);
    assert_eq!(report.entries[1].verdict, CrcVerdict::Mismatch);
    // the third entry leaves the medium: nothing of it is streamed
    assert_eq!(
        report.entries[2].streamed,
        Streamed { bytes: 0, bursts: 0, complete: false, dma_us: 0, compute_us: 0 }
    );
    assert_eq!(report.entries[2].crc, 0);
    assert_eq!(report.entries[2].verdict, CrcVerdict::Verified);
    let mut joined = blob[0..100].to_vec();
    joined.extend_from_slice(&blob[128..328]);
    assert_eq!(report.final_crc, crc32_finish(crc32_update(!0, &joined)));

    // version 1 carries no checksums
    let v1 = manifest_bytes(1, 64, &[("a", 0, 100, 0)]);
    let report = stream_crc::run(&mut VecRom(blob.clone()), &v1).unwrap();
    assert_eq!(report.entries[0].crc, crc_a);
    assert_eq!(report.entries[0].expected, None);
    assert_eq!(report.entries[0].verdict, CrcVerdict::Unchecked);
    assert_eq!(report.final_crc, crc_a);
    assert!(stream_crc::run(&mut VecRom(blob), b"").is_none());

    assert_eq!(verdict(1, 5, Some(5)), CrcVerdict::Unchecked);
    assert_eq!(verdict(2, 5, None), CrcVerdict::NoReference);
    assert_eq!(verdict(2, 5, Some(5)), CrcVerdict::Verified);
    assert_eq!(verdict(2, 5, Some(6)), CrcVerdict::Mismatch);
}

#[test]
fn bench_report() {
    let blob = pattern(300);
    let bytes = manifest_bytes(1, 4, &[("a", 0, 100, 0), ("b", 100, 200, 0), ("c", 200, 101, 0)]);
    let lines = stream_bench::run(&mut VecRom(blob.clone()), &bytes, 300, || 0).unwrap();
    assert_eq!(lines.len(), 3);
    assert_eq!(lines[0].to_read, 100);
    assert_eq!(lines[0].stats, Some(StreamStats { bytes: 100, bursts: 1, dma_us: 0, compute_us: 0 }));
    assert_eq!((lines[0].s1, lines[0].s2), adler32(1, 0, &blob[..100]));
    assert_eq!((lines[1].s1, lines[1].s2), adler32(1, 0, &blob[100..]));
    // the third entry ends beyond the weight blob and is not streamed
    assert_eq!(lines[2].stats, None);
    assert_eq!((lines[2].s1, lines[2].s2), (1, 0));
    assert!(lines.iter().all(|l| l.kib_per_second == 0 && l.dma_percent == 0));
    // an entry inside the claimed blob that the medium cannot deliver
    let lines = stream_bench::run(&mut VecRom(blob[..150].to_vec()), &bytes, 300, || 0).unwrap();
    assert!(lines[0].stats.is_some());
    assert_eq!(lines[1].stats, None);
    // with a clock: 100 bytes in two milliseconds of transfer and one of work
    let mut now = 0u64;
    let lines = stream_bench::run(&mut VecRom(blob.clone()), &bytes[..bytes.len() - 10], 300, || {
        now += 46_875;
        now
    })
    .unwrap();
    assert_eq!(lines.len(), 2);
    assert_eq!(lines[0].stats, Some(StreamStats { bytes: 100, bursts: 1, dma_us: 3000, compute_us: 1000 }));
    assert_eq!(lines[0].kib_per_second, 100 * 1_000_000 / 3000 / 1024);
    assert_eq!(lines[0].dma_percent, 75);

    assert_eq!(kib_per_second(1024 * 1024, 1_000_000), 1024);
    assert_eq!(kib_per_second(1024 * 1024, 0), 0);
    assert_eq!(kib_per_second(0, 5), 0);
    assert_eq!(kib_per_second(32768, 1000), 32_000);
    assert_eq!(kib_per_second(u64::MAX, 1), ((u64::MAX as u128 * 1_000_000) / 1024).min(u64::MAX as u128) as u64);
    assert_eq!(dma_percent(0, 0), 0);
    assert_eq!(dma_percent(1, 0), 100);
    assert_eq!(dma_percent(1, 2), 33);
    assert_eq!(dma_percent(u64::MAX, u64::MAX), 50);
    assert_eq!(dma_percent(0, 9), 0);
}

#[test]
fn probe_samples() {
    assert_eq!(
        probe_offsets(),
        vec![16 << 20, 128 << 20, 256 << 20, 512 << 20, 768 << 20, 960 << 20, 1023 << 20]
    );
    assert!(probe_offsets().iter().all(|o| o + PROBE_SAMPLE_BYTES as u64 <= ROM_LIMIT_BYTES));
    let samples = run_probe(&mut VecRom(vec![0x5A; (16 << 20) + 64]));
    assert_eq!(samples.len(), 7);
    assert!(samples[0].ok);
    assert_eq!(samples[0].offset, 16 << 20);
    assert_eq!(samples[0].bytes, vec![0x5A; 64]);
    for s in &samples[1..] {
        assert!(!s.ok);
        assert_eq!(s.bytes, vec![0xCC; 64]);
    }
}

#[test]
fn weights_info_samples() {
    let blob = pattern(200);
    let info = show_weights_info(&mut VecRom(blob.clone()), 0x1000, 200);
    assert_eq!((info.base, info.size), (0x1000, 200));
    assert!(info.first.ok);
    assert_eq!(info.first.bytes, &blob[..64]);
    let last = info.last.unwrap();
    assert!(last.ok);
    assert_eq!(last.offset, 136);
    assert_eq!(last.bytes, &blob[136..]);
    // too short for a sample of the end
    let info = show_weights_info(&mut VecRom(blob.clone()), 0, 63);
    assert!(info.first.ok);
    assert_eq!(info.last, None);
    // a claimed size beyond the medium
    let info = show_weights_info(&mut VecRom(blob), 0, 1000);
    assert_eq!(info.last.map(|l| (l.offset, l.ok)), Some((936, false)));
    let info = show_weights_info(&mut Dead, 0, 1000);
    assert!(!info.first.ok);
    assert_eq!(info.first.bytes, vec![0; 64]);
    assert_eq!(info.last, None);
}

#[test]
fn rows_of_embedding_and_head() {
    let bytes = manifest_bytes(2, 64, &[("tok_embeddings", 64, 80, 0), ("lm_head", 256, 80, 0)]);
    let view = ManifestView::new(&bytes).unwrap();
    let dims = ModelDims::new(4, 5, 1, 2, 8, 8);
    assert_eq!(gather_embedding(&view, &dims, 0, 4), Some(RowSpan { cart_off: 64, len: 16 }));
    assert_eq!(gather_embedding(&view, &dims, 4, 9), Some(RowSpan { cart_off: 128, len: 16 }));
    assert_eq!(gather_embedding(&view, &dims, 5, 4), None);
    assert_eq!(gather_embedding(&view, &dims, u32::MAX, 4), None);
    assert_eq!(gather_embedding(&view, &dims, 0, 3), None);
    let wide = ModelDims::new(u32::MAX, 5, 1, 2, 8, 8);
    assert_eq!(gather_embedding(&view, &wide, u32::MAX, usize::MAX), None);

    let scan = argmax_over_head(&view, &dims, 4, 16).unwrap();
    assert_eq!(scan, HeadScan { cart_off: 256, row_bytes: 16, rows: 5 });
    assert_eq!(scan.row(0), Some(RowSpan { cart_off: 256, len: 16 }));
    assert_eq!(scan.row(4), Some(RowSpan { cart_off: 320, len: 16 }));
    assert_eq!(scan.row(5), None);
    assert_eq!(argmax_over_head(&view, &dims, 3, 16), None);
    assert_eq!(argmax_over_head(&view, &dims, 4, 15), None);
    assert_eq!(argmax_over_head(&view, &ModelDims::new(4, 6, 1, 2, 8, 8), 4, 16), None);
    assert_eq!(argmax_over_head(&view, &wide, usize::MAX, usize::MAX), None);

    let none = manifest_bytes(2, 64, &[("x", 64, 80, 0)]);
    let view = ManifestView::new(&none).unwrap();
    assert_eq!(gather_embedding(&view, &dims, 0, 4), None);
    assert_eq!(argmax_over_head(&view, &dims, 4, 16), None);
}

#[test]
fn decode_once_preparation() {
    let mut blob = vec![0u8; 512];
    blob[384..416].copy_from_slice(&meta_record(0x4D45_5441, 1, [4, 5, 1, 2, 8, 8]));
    let bytes = manifest_bytes(
        2,
        64,
        &[("tok_embeddings", 64, 80, 0), ("lm_head", 256, 80, 0), ("model_meta", 384, 32, 0)],
    );
    let dims = ModelDims::new(4, 5, 1, 2, 8, 8);
    assert_eq!(
        decode_once::run(&mut VecRom(blob.clone()), &bytes, 3),
        DecodeOnce::Ready {
            dims,
            embedding: RowSpan { cart_off: 112, len: 16 },
            head: HeadScan { cart_off: 256, row_bytes: 16, rows: 5 },
        }
    );
    assert_eq!(decode_once::run(&mut VecRom(blob.clone()), &bytes, 5), DecodeOnce::EmbeddingFailed { dims });
    // without the record the compiled-in dimensions are far too large for these tensors
    assert_eq!(
        decode_once::run(&mut Dead, &bytes, 0),
        DecodeOnce::EmbeddingFailed { dims: ModelDims::fallback() }
    );
    let short_head = manifest_bytes(
        2,
        64,
        &[("tok_embeddings", 64, 80, 0), ("lm_head", 256, 79, 0), ("model_meta", 384, 32, 0)],
    );
    assert_eq!(
        decode_once::run(&mut VecRom(blob.clone()), &short_head, 0),
        DecodeOnce::DecoderFailed { dims, embedding: RowSpan { cart_off: 64, len: 16 } }
    );
    assert_eq!(decode_once::run(&mut VecRom(blob), b"N64", 0), DecodeOnce::ManifestError);
}

#[derive(Clone, Copy)]
struct StaticRom(&'static [u8]);

impl n64_gpt::platform::cart::RomSource for StaticRom {
    fn read_abs(&mut self, off: u64, dst: &mut [u8]) -> Result<(), ()> {
        let end = off as usize + dst.len();
        if end > self.0.len() {
            return Err(());
        }
        dst.copy_from_slice(&self.0[off as usize..end]);
        Ok(())
    }
}

#[test]
fn smoke_test_streams_every_tensor() {
    static DATA: [u8; 256] = [0x5A; 256];
    let layer = |offset: u32, size: u32| Layer { name: "t".to_string(), offset, size };
    let manifest = Manifest { layers: vec![layer(0, 100), layer(128, 28)], align: 64, dims: ModelDims::fallback() };
    let report = n64_gpt::diag::emu_smoke::run(StaticRom(&DATA), &manifest).unwrap();
    assert_eq!(report.total_bytes, 128);
    assert_eq!(report.crc, crc32_finish(crc32_update(!0, &[0x5A; 128])));
    let empty = Manifest { layers: vec![], align: 64, dims: ModelDims::fallback() };
    let report = n64_gpt::diag::emu_smoke::run(StaticRom(&DATA), &empty).unwrap();
    assert_eq!((report.total_bytes, report.crc), (0, 0));
    let beyond = Manifest { layers: vec![layer(200, 100)], align: 1, dims: ModelDims::fallback() };
    assert_eq!(n64_gpt::diag::emu_smoke::run(StaticRom(&DATA), &beyond), None);
}
