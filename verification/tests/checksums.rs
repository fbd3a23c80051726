use n64_gpt::util::adler32::adler32;
use n64_gpt::util::crc32::{crc32_finish, crc32_update};

#[test]
fn crc32_empty() {
    assert_eq!(crc32_finish(crc32_update(!0, &[])), 0);
}

#[test]
fn crc32_abc() {
    let c = crc32_finish(crc32_update(!0, b"123456789"));
    assert_eq!(c, 0xCBF43926);
}

#[test]
fn crc32_of_known_words() {
    assert_eq!(crc32_finish(crc32_update(!0, b"a")), 0xE8B7BE43);
    assert_eq!(crc32_finish(crc32_update(!0, b"abc")), 0x352441C2);
    assert_eq!(crc32_finish(crc32_update(!0, &[0u8])), 0xD202EF8D);
}

#[test]
fn crc32_in_pieces_equals_crc32_in_one() {
    let data: Vec<u8> = (0..1000u32).map(|i| (i * 7 + 3) as u8).collect();
    let whole = crc32_update(!0, &data);
    for split in [0usize, 1, 13, 500, 999, 1000] {
        let (a, b) = data.split_at(split);
        assert_eq!(crc32_update(crc32_update(!0, a), b), whole);
    }
}

#[test]
fn adler32_known_values() {
    // "Wikipedia" has the checksum 0x11E60398
    assert_eq!(adler32(1, 0, b"Wikipedia"), (0x0398, 0x11E6));
    assert_eq!(adler32(1, 0, b""), (1, 0));
    assert_eq!(adler32(1, 0, b"a"), (98, 98));
}

#[test]
fn adler32_reduces_modulo_65521() {
    let data = vec![0xFFu8; 1000];
    let (s1, s2) = adler32(1, 0, &data);
    assert_eq!(s1, ((1u64 + 255 * 1000) % 65521) as u32);
    assert!(s2 < 65521);
    // sums that start out of range are brought back into it
    let (s1, s2) = adler32(u32::MAX, u32::MAX, &[1]);
    assert_eq!(s1, ((u32::MAX as u64 + 1) % 65521) as u32);
    assert_eq!(s2, ((u32::MAX as u64 + s1 as u64) % 65521) as u32);
}

#[test]
fn adler32_in_pieces_equals_adler32_in_one() {
    let data: Vec<u8> = (0..300u32).map(|i| (i * 31) as u8).collect();
    let whole = adler32(1, 0, &data);
    let (a, b) = data.split_at(77);
    let (s1, s2) = adler32(1, 0, a);
    assert_eq!(adler32(s1, s2, b), whole);
}
