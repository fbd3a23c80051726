use n64_gpt::config::{BURST_BYTES, STREAM_BLOCK_BYTES};
use n64_gpt::io::dbuf::Dbuf;
use n64_gpt::io::rom_reader::{read_into, FlatRomReader, RomReader};
use n64_gpt::manifest::{Layer, Manifest};
use n64_gpt::model::dims::ModelDims;
use n64_gpt::model::stream::{checksum_all_layers, stream_layer, LayerDesc, StreamError};
use n64_gpt::platform::cart::{read_abs_into, RomSource};
use n64_gpt::platform::host_cart::VecRom;
use n64_gpt::platform::pi::{pi_dma_read, PiError};
use n64_gpt::stream::prefetch::Prefetcher;
use n64_gpt::stream::streamer::{stream_entry, StreamStats};
use n64_gpt::util::crc32::{crc32_finish, crc32_update};
use n64_gpt::weights::{
    weights_rel_to_cart_off, weights_rom_base, weights_rom_size, WeightBlob,
};

fn pattern(len: usize) -> Vec<u8> {
    (0..len).map(|i| (i as u8) ^ ((i >> 8) as u8).wrapping_mul(31)).collect()
}

/// A source that fails every read that touches a given offset.
struct Flaky {
    data: Vec<u8>,
    bad: u64,
    reads: usize,
}

impl RomSource for Flaky {
    fn read_abs(&mut self, off: u64, dst: &mut [u8]) -> Result<(), ()> {
        self.reads += 1;
        let end = off + dst.len() as u64;
        if end > self.data.len() as u64 || (off <= self.bad && self.bad < end) {
            return Err(());
        }
        dst.copy_from_slice(&self.data[off as usize..end as usize]);
        Ok(())
    }
}

impl RomReader for Flaky {
    fn read(&mut self, off: u64, dst: &mut [u8]) -> bool {
        self.read_abs(off, dst).is_ok()
    }
}

/// A source that records the requests it serves.
struct Recording {
    data: Vec<u8>,
    log: Vec<(u64, usize)>,
}

impl RomSource for Recording {
    fn read_abs(&mut self, off: u64, dst: &mut [u8]) -> Result<(), ()> {
        self.log.push((off, dst.len()));
        let end = off as usize + dst.len();
        if end > self.data.len() {
            return Err(());
        }
        dst.copy_from_slice(&self.data[off as usize..end]);
        Ok(())
    }
}

#[derive(Clone, Copy)]
struct SliceRom(&'static [u8]);

impl RomSource for SliceRom {
    fn read_abs(&mut self, off: u64, dst: &mut [u8]) -> Result<(), ()> {
        let end = off as usize + dst.len();
        if end > self.0.len() {
            return Err(());
        }
        dst.copy_from_slice(&self.0[off as usize..end]);
        Ok(())
    }
}

struct DummyRom;

impl RomReader for DummyRom {
    fn read(&mut self, _off: u64, _dst: &mut [u8]) -> bool {
        true
    }
}

#[test]
fn prefetch_reads_all_bytes_in_order() {
    let data: Vec<u8> = (0..200_000).map(|i| i as u8).collect();
    let mut a = vec![0u8; 8192];
    let mut b = vec![0u8; 8192];
    let mut pf = Prefetcher::new(VecRom(data.clone()), 0, data.len() as u64, &mut a, &mut b);
    let mut acc = Vec::new();
    while let Some(chunk) = pf.next_block() {
        acc.extend_from_slice(chunk);
    }
    assert_eq!(acc.len(), data.len());
    assert_eq!(&acc[..], &data[..]);
}

#[test]
fn cart_streamer_handles_empty_segments() {
    let mut rr = DummyRom;
    let stats = stream_entry(&mut rr, 0, 0, |_| {});
    let s = stats.expect("stats");
    assert_eq!(s.bytes, 0);
    assert_eq!(s.bursts, 0);
}

#[test]
fn stream_reports_progress_and_consumes_all() {
    let data: Vec<u8> = (0..100_000).map(|i| (i as u8)).collect();
    let desc = LayerDesc { offset: 0, len: data.len() as u32 };
    let mut got = Vec::<u8>::new();
    let mut last = (0u64, desc.len as u64);
    let rom = VecRom(data.clone());
    let ok = stream_layer(rom, &desc, |chunk| got.extend_from_slice(chunk), |d, t| {
        last = (d, t);
    })
    .is_ok();
    assert!(ok);
    assert_eq!(got, data);
    assert_eq!(last, (desc.len as u64, desc.len as u64));
}

#[test]
fn prefetch_is_complete_for_any_buffer_sizes() {
    let data = pattern(5000);
    for (la, lb) in [(1usize, 1usize), (1, 7), (7, 1), (64, 64), (100, 33), (4999, 2), (5000, 5000), (9000, 1)] {
        for (off, len) in [(0u64, 5000u64), (1, 4999), (123, 1000), (4999, 1), (17, 0)] {
            let mut a = vec![0u8; la];
            let mut b = vec![0u8; lb];
            let mut pf = Prefetcher::new(VecRom(data.clone()), off, len, &mut a, &mut b);
            assert_eq!(pf.remaining(), len);
            let mut acc = Vec::new();
            let mut sizes = Vec::new();
            let mut left = len;
            loop {
                let n = match pf.next_block() {
                    Some(chunk) => {
                        acc.extend_from_slice(chunk);
                        chunk.len()
                    }
                    None => break,
                };
                sizes.push(n);
                left -= n as u64;
                assert_eq!(pf.remaining(), left);
            }
            assert!(!pf.failed());
            assert_eq!(pf.remaining(), 0);
            assert_eq!(&acc[..], &data[off as usize..(off + len) as usize]);
            // blocks alternate between the two buffers; only the last may be short
            for (i, n) in sizes.iter().enumerate() {
                let cap = if i % 2 == 0 { la } else { lb };
                if i + 1 < sizes.len() {
                    assert_eq!(*n, cap);
                } else {
                    assert!(*n <= cap && *n > 0);
                }
            }
            assert!(pf.next_block().is_none());
        }
    }
}

#[test]
fn prefetch_stops_after_a_failed_transfer() {
    let data = pattern(1000);
    let mut a = vec![0u8; 100];
    let mut b = vec![0u8; 100];
    let rom = Flaky { data: data.clone(), bad: 250, reads: 0 };
    let mut pf = Prefetcher::new(rom, 0, 1000, &mut a, &mut b);
    let mut acc = Vec::new();
    while let Some(chunk) = pf.next_block() {
        acc.extend_from_slice(chunk);
    }
    // the blocks in front of the failed one were delivered, the rest was not
    assert_eq!(&acc[..], &data[..200]);
    assert!(pf.failed());
    assert_eq!(pf.remaining(), 800);
    assert!(pf.next_block().is_none());
}

#[test]
fn prefetch_fails_at_once_where_it_cannot_start() {
    let mut a = vec![0u8; 16];
    let mut b = vec![0u8; 16];
    // first transfer fails
    let mut pf = Prefetcher::new(VecRom(vec![0u8; 8]), 0, 9, &mut a, &mut b);
    assert!(pf.failed());
    assert!(pf.next_block().is_none());
    assert_eq!(pf.remaining(), 9);
    // the range does not fit in 64 bits
    let mut pf = Prefetcher::new(VecRom(vec![0u8; 8]), u64::MAX, 2, &mut a, &mut b);
    assert!(pf.failed());
    assert!(pf.next_block().is_none());
    // no room in the first buffer
    let mut none: Vec<u8> = Vec::new();
    let mut pf = Prefetcher::new(VecRom(vec![0u8; 8]), 0, 4, &mut none, &mut b);
    assert!(pf.failed());
    assert!(pf.next_block().is_none());
    // an empty stream is complete, wherever it starts
    let pf = Prefetcher::new(VecRom(vec![0u8; 8]), 1_000_000, 0, &mut a, &mut b);
    assert!(!pf.failed());
    assert_eq!(pf.remaining(), 0);
    let rom = pf.into_source();
    assert_eq!(rom.size_bytes(), Some(8));
}

#[test]
fn prefetch_stalls_on_an_empty_second_buffer() {
    let data = pattern(10);
    let mut a = vec![0u8; 4];
    let mut b: Vec<u8> = Vec::new();
    let mut pf = Prefetcher::new(VecRom(data.clone()), 0, 10, &mut a, &mut b);
    let first = pf.next_block().map(|c| c.to_vec());
    assert_eq!(first.as_deref(), Some(&data[..4]));
    assert!(pf.failed());
    assert_eq!(pf.remaining(), 6);
    assert!(pf.next_block().is_none());
}

#[test]
fn stream_entry_delivers_every_byte_in_order() {
    for len in [1usize, 63, BURST_BYTES - 1, BURST_BYTES, BURST_BYTES + 1, 3 * BURST_BYTES, 100_000] {
        let data = pattern(len + 10);
        let mut rr = VecRom(data.clone());
        let mut got = Vec::new();
        let mut sizes = Vec::new();
        let stats = stream_entry(&mut rr, 5, len as u64, |c| {
            sizes.push(c.len());
            got.extend_from_slice(c);
        })
        .unwrap();
        let bursts = (len + BURST_BYTES - 1) / BURST_BYTES;
        assert_eq!(
            stats,
            StreamStats { bytes: len as u64, bursts: bursts as u32, dma_us: 0, compute_us: 0 }
        );
        assert_eq!(&got[..], &data[5..5 + len]);
        assert_eq!(sizes.len(), bursts);
        for n in &sizes[..bursts - 1] {
            assert_eq!(*n, BURST_BYTES);
        }
    }
}

#[test]
fn stream_entry_fails_when_a_read_fails() {
    let data = pattern(3 * BURST_BYTES);
    // the second burst fails: the first is never consumed
    let mut rr = Flaky { data: data.clone(), bad: BURST_BYTES as u64 + 5, reads: 0 };
    let mut calls = 0;
    assert!(stream_entry(&mut rr, 0, data.len() as u64, |_| calls += 1).is_none());
    assert_eq!(calls, 0);
    assert_eq!(rr.reads, 2);
    // the third burst fails: only the first is consumed
    let mut rr = Flaky { data: data.clone(), bad: 2 * BURST_BYTES as u64, reads: 0 };
    let mut calls = 0;
    assert!(stream_entry(&mut rr, 0, data.len() as u64, |_| calls += 1).is_none());
    assert_eq!(calls, 1);
    // beyond the end of the medium
    let mut rr = VecRom(vec![1, 2, 3]);
    assert!(stream_entry(&mut rr, 2, 2, |_| {}).is_none());
    assert!(stream_entry(&mut rr, u64::MAX, 2, |_| {}).is_none());
    assert!(stream_entry(&mut rr, 2, 1, |_| {}).is_some());
}

#[test]
fn stream_layer_reports_every_fourth_block() {
    let len = 9 * STREAM_BLOCK_BYTES + 1;
    let data = pattern(len);
    let desc = LayerDesc { offset: 0, len: len as u32 };
    let mut reports = Vec::new();
    let mut got = 0usize;
    let r = stream_layer(VecRom(data), &desc, |c| got += c.len(), |d, t| reports.push((d, t)));
    assert_eq!(r, Ok(()));
    assert_eq!(got, len);
    let total = len as u64;
    let block = STREAM_BLOCK_BYTES as u64;
    assert_eq!(reports, vec![(4 * block, total), (8 * block, total), (total, total)]);
}

#[test]
fn stream_layer_fails_with_io() {
    let desc = LayerDesc { offset: 10, len: 100 };
    let mut reports = 0;
    let r = stream_layer(VecRom(vec![0u8; 50]), &desc, |_| {}, |_, _| reports += 1);
    assert_eq!(r, Err(StreamError::Io));
    assert_eq!(reports, 0);
    // an empty tensor streams nothing and reports completion
    let desc = LayerDesc { offset: 10, len: 0 };
    let mut last = None;
    let r = stream_layer(VecRom(vec![0u8; 5]), &desc, |_| panic!("no bytes"), |d, t| last = Some((d, t)));
    assert_eq!(r, Ok(()));
    assert_eq!(last, Some((0, 0)));
}

#[test]
fn checksum_all_layers_is_the_crc_of_the_tensors_end_to_end() {
    static DATA: [u8; 300] = {
        let mut d = [0u8; 300];
        let mut i = 0;
        while i < 300 {
            d[i] = (i * 13 % 251) as u8;
            i += 1;
        }
        d
    };
    let layer = |name: &str, offset: u32, size: u32| Layer { name: name.to_string(), offset, size };
    let manifest = Manifest {
        layers: vec![layer("a", 0, 64), layer("b", 64, 0), layer("c", 128, 100)],
        align: 64,
        dims: ModelDims::fallback(),
    };
    let mut joined = DATA[0..64].to_vec();
    joined.extend_from_slice(&DATA[128..228]);
    let expected = crc32_finish(crc32_update(!0, &joined));
    assert_eq!(checksum_all_layers(SliceRom(&DATA), &manifest), Some(expected));

    let empty = Manifest { layers: vec![], align: 64, dims: ModelDims::fallback() };
    assert_eq!(checksum_all_layers(SliceRom(&DATA), &empty), Some(0));

    let beyond = Manifest { layers: vec![layer("x", 250, 51)], align: 1, dims: ModelDims::fallback() };
    assert_eq!(checksum_all_layers(SliceRom(&DATA), &beyond), None);
}

#[test]
fn unaligned_reads_equal_aligned_reads() {
    let data = pattern(64 * 1024 + 128);
    for (off, len) in [
        (0u64, 64usize),
        (1, 1),
        (1, 63),
        (1, 64),
        (63, 2),
        (64, 65),
        (100, 1000),
        (5, 40_000),
        (64, 32 * 1024),
        (60, 32 * 1024 + 10),
    ] {
        let mut bus = Recording { data: data.clone(), log: Vec::new() };
        let mut dst = vec![0xAAu8; len];
        assert_eq!(pi_dma_read(&mut bus, off, &mut dst), Ok(()));
        assert_eq!(&dst[..], &data[off as usize..off as usize + len]);
        // the same range through an aligned request
        let start = off - off % 64;
        let span = ((off as usize + len + 63) / 64) * 64 - start as usize;
        let mut wide = vec![0u8; span];
        let mut aligned_bus = Recording { data: data.clone(), log: Vec::new() };
        assert_eq!(pi_dma_read(&mut aligned_bus, start, &mut wide), Ok(()));
        let skip = (off - start) as usize;
        assert_eq!(&wide[skip..skip + len], &dst[..]);
        // the bus only ever sees whole granules in bounded bursts
        for (o, n) in bus.log.iter().chain(aligned_bus.log.iter()) {
            assert_eq!(o % 64, 0);
            assert_eq!(n % 64, 0);
            assert!(*n > 0 && *n <= 32 * 1024);
        }
    }
}

#[test]
fn pi_dma_read_transactions() {
    let data = pattern(128 * 1024);
    let mut bus = Recording { data: data.clone(), log: Vec::new() };
    let mut dst = vec![0u8; 70_000];
    assert_eq!(pi_dma_read(&mut bus, 10, &mut dst), Ok(()));
    // head granule, two full bursts, the rest of the whole granules, tail granule
    let body = 70_000 - 54;
    let third = body - 2 * 32768 - body % 64;
    assert_eq!(
        bus.log,
        vec![
            (0, 64),
            (64, 32768),
            (64 + 32768, 32768),
            (64 + 65536, third),
            (64 + 65536 + third as u64, 64)
        ]
    );
    assert_eq!(&dst[..], &data[10..70_010]);
}

#[test]
fn pi_dma_read_failures() {
    let mut bus = VecRom(pattern(256));
    let mut empty: [u8; 0] = [];
    // nothing to read: success wherever the offset points
    assert_eq!(pi_dma_read(&mut bus, u64::MAX, &mut empty), Ok(()));
    let mut dst = [0u8; 16];
    // beyond the address ceiling
    assert_eq!(pi_dma_read(&mut bus, 1024 * 1024 * 1024 - 15, &mut dst), Err(PiError::Oob));
    assert_eq!(pi_dma_read(&mut bus, u64::MAX, &mut dst), Err(PiError::Oob));
    // below the ceiling but beyond the medium
    assert_eq!(pi_dma_read(&mut bus, 1024 * 1024 * 1024 - 16, &mut dst), Err(PiError::DmaFailed));
    assert_eq!(pi_dma_read(&mut bus, 250, &mut dst), Err(PiError::DmaFailed));
    assert_eq!(pi_dma_read(&mut bus, 240, &mut dst), Ok(()));
}

#[test]
fn flat_reader_goes_through_the_bus() {
    let data = pattern(1024);
    let mut rr = FlatRomReader::new(VecRom(data.clone()));
    let mut dst = [0u8; 100];
    assert!(rr.read(3, &mut dst));
    assert_eq!(&dst[..], &data[3..103]);
    assert!(!rr.read(1000, &mut dst));
    assert_eq!(rr.rom_limit_bytes(), u64::MAX);
    // nothing to read: success wherever the offset points
    let mut none: [u8; 0] = [];
    assert!(rr.read(u64::MAX, &mut none));
    // beyond the address ceiling
    assert!(!rr.read(1024 * 1024 * 1024 - 99, &mut dst));
    assert!(!rr.read(u64::MAX, &mut dst));
    let bus = rr.into_inner();
    assert_eq!(bus.size_bytes(), Some(1024));
}

#[test]
fn vec_rom_fails_closed() {
    let mut rom = VecRom(vec![1, 2, 3, 4]);
    let mut two = [0u8; 2];
    assert_eq!(rom.read_abs(2, &mut two), Ok(()));
    assert_eq!(two, [3, 4]);
    assert_eq!(rom.read_abs(3, &mut two), Err(()));
    assert_eq!(rom.read_abs(u64::MAX, &mut two), Err(()));
    assert!(rom.read(0, &mut two));
    assert_eq!(two, [1, 2]);
    assert!(!rom.read(4, &mut two));
    assert_eq!(rom.rom_limit_bytes(), 4);
    let mut none: [u8; 0] = [];
    assert!(rom.read(4, &mut none));
    assert!(!rom.read(5, &mut none));
    // a reader behind a mutable reference is a source
    let mut by_ref: &mut VecRom = &mut rom;
    assert_eq!(by_ref.read_abs(1, &mut two), Ok(()));
    assert_eq!(two, [2, 3]);
    assert_eq!(by_ref.read_abs(3, &mut two), Err(()));
}

#[test]
fn reads_into_a_part_of_a_buffer() {
    let mut rom = VecRom(pattern(100));
    let mut dst = [0xEEu8; 10];
    assert!(read_into(&mut rom, 20, &mut dst, 3, 4));
    assert_eq!(&dst[3..7], &pattern(100)[20..24]);
    assert_eq!(&dst[..3], &[0xEE; 3]);
    assert_eq!(&dst[7..], &[0xEE; 3]);
    assert!(read_abs_into(&mut rom, 0, &mut dst, 0, 10));
    assert_eq!(&dst[..], &pattern(100)[..10]);
    assert!(!read_abs_into(&mut rom, 95, &mut dst, 0, 10));
}

#[test]
fn weight_blob_converts_offsets_once() {
    assert_eq!(weights_rom_base(), 0);
    assert_eq!(weights_rom_size(), 0);
    assert_eq!(weights_rel_to_cart_off(1234), 1234);

    let cart = pattern(1000);
    let mut blob = WeightBlob::new(VecRom(cart.clone()), 100, 200);
    assert_eq!(blob.size_bytes(), 200);
    assert_eq!(blob.rel_to_cart_off(0), Some(100));
    assert_eq!(blob.rel_to_cart_off(200), Some(300));
    assert_eq!(blob.rel_to_cart_off(201), None);
    let mut dst = [0u8; 50];
    assert_eq!(blob.read_abs(150, &mut dst), Ok(()));
    assert_eq!(&dst[..], &cart[250..300]);
    // a read that leaves the blob fails though the cartridge has the bytes
    assert_eq!(blob.read_abs(151, &mut dst), Err(()));
    let far = WeightBlob::new(VecRom(cart), u64::MAX, 10);
    assert_eq!(far.rel_to_cart_off(1), None);
    assert_eq!(far.rel_to_cart_off(0), Some(u64::MAX));
}

#[test]
fn double_buffer_swaps_roles() {
    let mut d: Dbuf<4> = Dbuf::new();
    assert_eq!(*d.cur_mut(), [0; 4]);
    d.cur_mut()[0] = 1;
    d.nxt_mut()[0] = 2;
    d.swap();
    assert_eq!(d.cur_mut()[0], 2);
    assert_eq!(d.nxt_mut()[0], 1);
}

#[test]
fn stream_entry_withholds_the_burst_in_front_of_a_failed_read() {
    let data = pattern(4 * BURST_BYTES);
    // read number k is the first to fail: the consumer gets k - 2 bursts
    for k in 1usize..=4 {
        let bad = ((k - 1) * BURST_BYTES) as u64;
        let mut rr = Flaky { data: data.clone(), bad, reads: 0 };
        let mut got: Vec<u8> = Vec::new();
        let mut calls = 0usize;
        let r = stream_entry(&mut rr, 0, data.len() as u64, |c| {
            calls += 1;
            got.extend_from_slice(c);
        });
        assert!(r.is_none());
        assert_eq!(rr.reads, k);
        assert_eq!(calls, k.saturating_sub(2));
        assert_eq!(&got[..], &data[..calls * BURST_BYTES]);
    }
    // no read fails: every burst is consumed
    let mut rr = Flaky { data: data.clone(), bad: u64::MAX, reads: 0 };
    let mut calls = 0usize;
    let stats = stream_entry(&mut rr, 0, data.len() as u64, |_| calls += 1).unwrap();
    assert_eq!((stats.bytes, stats.bursts), (data.len() as u64, 4));
    assert_eq!((calls, rr.reads), (4, 4));
}

#[test]
fn stream_layer_halts_behind_the_last_block_it_could_read() {
    let data = pattern(3 * STREAM_BLOCK_BYTES + 100);
    let desc = LayerDesc { offset: 0, len: data.len() as u32 };
    // block number j is the first that cannot be read: the consumer gets j blocks
    for j in 0usize..=3 {
        let rom = Flaky { data: data.clone(), bad: (j * STREAM_BLOCK_BYTES) as u64, reads: 0 };
        let mut got: Vec<u8> = Vec::new();
        let mut last = None;
        let r = stream_layer(rom, &desc, |c| got.extend_from_slice(c), |d, t| last = Some((d, t)));
        assert_eq!(r, Err(StreamError::Io));
        assert_eq!(&got[..], &data[..j * STREAM_BLOCK_BYTES]);
        assert_ne!(last, Some((data.len() as u64, data.len() as u64)));
    }
    let rom = Flaky { data: data.clone(), bad: u64::MAX, reads: 0 };
    let mut got: Vec<u8> = Vec::new();
    assert_eq!(stream_layer(rom, &desc, |c| got.extend_from_slice(c), |_, _| {}), Ok(()));
    assert_eq!(got, data);
}

#[test]
fn prefetch_over_a_sound_source_runs_to_the_end() {
    let data = pattern(70_000);
    let mut a = vec![0u8; 4096];
    let mut b = vec![0u8; 1000];
    let mut pf = Prefetcher::new(VecRom(data.clone()), 10, 60_000, &mut a, &mut b);
    let mut got: Vec<u8> = Vec::new();
    let mut left = 60_000u64;
    assert!(!pf.failed());
    assert_eq!(pf.remaining(), left);
    loop {
        let n = match pf.next_block() {
            Some(block) => {
                got.extend_from_slice(block);
                block.len() as u64
            }
            None => break,
        };
        left -= n;
        assert!(!pf.failed());
        assert_eq!(pf.remaining(), left);
    }
    assert_eq!(pf.remaining(), 0);
    assert!(pf.next_block().is_none());
    assert_eq!(&got[..], &data[10..60_010]);
}

#[test]
fn a_request_beyond_the_ceiling_leaves_the_buffer_alone() {
    let mut bus = VecRom(pattern(256));
    let mut dst = [0xA5u8; 16];
    assert_eq!(pi_dma_read(&mut bus, 1024 * 1024 * 1024 - 15, &mut dst), Err(PiError::Oob));
    assert_eq!(dst, [0xA5u8; 16]);
    assert_eq!(pi_dma_read(&mut bus, u64::MAX - 3, &mut dst), Err(PiError::Oob));
    assert_eq!(dst, [0xA5u8; 16]);
    let mut rr = FlatRomReader::new(bus);
    assert!(!rr.read(1024 * 1024 * 1024 - 15, &mut dst));
    assert_eq!(dst, [0xA5u8; 16]);
    assert!(!rr.read(u64::MAX, &mut dst));
    assert_eq!(dst, [0xA5u8; 16]);
}

#[test]
fn a_misaligned_request_inside_the_cartridge_succeeds() {
    // a cartridge of whole granules
    let data = pattern(70_016);
    for (off, len) in [(1u64, 1usize), (13, 100), (63, 2), (64, 63), (65, 64 * 1024), (100, 69_900)] {
        let mut bus = Recording { data: data.clone(), log: Vec::new() };
        let mut dst = vec![0u8; len];
        assert_eq!(pi_dma_read(&mut bus, off, &mut dst), Ok(()));
        assert_eq!(&dst[..], &data[off as usize..off as usize + len]);
        // every request on the bus is a burst over the granules that the range touches
        assert!(!bus.log.is_empty());
        for (o, n) in &bus.log {
            assert_eq!(o % 64, 0);
            assert_eq!(n % 64, 0);
            assert!(*n > 0 && *n <= 32 * 1024);
            assert!(off < o + 64 && o + (*n as u64) < off + len as u64 + 64);
        }
    }
}

#[test]
fn a_blob_at_any_base_is_read_in_aligned_bursts() {
    // a blob that neither starts nor ends on a granule
    let cart = pattern(4096);
    let (base, size) = (100u64, 1000u64);
    let mut flat = FlatRomReader::new(Recording { data: cart.clone(), log: Vec::new() });
    {
        let mut blob = WeightBlob::new(&mut flat, base, size);
        let mut dst = vec![0u8; 1000];
        assert!(RomReader::read(&mut blob, 0, &mut dst));
        assert_eq!(&dst[..], &cart[100..1100]);
        let mut tail = [0u8; 7];
        assert!(RomReader::read(&mut blob, 993, &mut tail));
        assert_eq!(&tail[..], &cart[1093..1100]);
        // a read that leaves the blob fails, though the cartridge goes on
        assert!(!RomReader::read(&mut blob, 994, &mut tail));
        assert_eq!(blob.read_abs(994, &mut tail), Err(()));
        assert_eq!(blob.read_abs(3, &mut tail), Ok(()));
        assert_eq!(&tail[..], &cart[103..110]);
    }
    let bus = flat.into_inner();
    assert!(!bus.log.is_empty());
    for (off, len) in &bus.log {
        assert_eq!((off % 64, len % 64), (0, 0));
    }
}
