use n64_gpt::weights_manifest::{manifest, Entry, ManErr, ManifestView};
use n64_gpt::weights_manifest_find::find;

fn push_entry(v: &mut Vec<u8>, name: &str, off: u32, sz: u32, crc: Option<u32>) {
    let nb = name.as_bytes();
    v.extend_from_slice(&(nb.len() as u16).to_le_bytes());
    v.extend_from_slice(nb);
    v.extend_from_slice(&off.to_le_bytes());
    v.extend_from_slice(&sz.to_le_bytes());
    if let Some(c) = crc {
        v.extend_from_slice(&c.to_le_bytes());
    }
}

fn header(ver: u16, align: u16, count: u32) -> Vec<u8> {
    let mut v = b"N64W".to_vec();
    v.extend_from_slice(&ver.to_le_bytes());
    v.extend_from_slice(&align.to_le_bytes());
    v.extend_from_slice(&count.to_le_bytes());
    v
}

#[test]
fn parses_v1_and_v2() {
    // v1 blob
    let mut v1 = b"N64W".to_vec();
    v1.extend(&1u16.to_le_bytes());
    v1.extend(&64u16.to_le_bytes());
    v1.extend(&1u32.to_le_bytes());
    v1.extend(&1u16.to_le_bytes());
    v1.extend(b"a");
    v1.extend(&64u32.to_le_bytes());
    v1.extend(&3u32.to_le_bytes());
    let m1 = ManifestView::new(&v1).unwrap();
    assert_eq!(m1.version(), 1);

    // v2 blob = v1 + crc
    let mut v2 = v1.clone();
    v2[4] = 2; // version=2
    v2.extend(&0xDEADBEEFu32.to_le_bytes());
    let m2 = ManifestView::new(&v2).unwrap();
    assert_eq!(m2.version(), 2);
}

#[test]
fn manifest_crc_alignment_math_is_stable() {
    let man = manifest().expect("manifest");
    assert_eq!(man.align(), 64);
    assert_eq!(man.count(), 2);

    let mut entries = Vec::new();
    man.for_each(|e| {
        entries.push(e);
        true
    })
    .unwrap();

    assert_eq!(entries[0].name, "tok_embeddings");
    assert_eq!(entries[0].offset, 64);
    assert_eq!(entries[0].size, 16);
    assert_eq!(entries[0].crc32, Some(0));

    assert_eq!(entries[1].name, "lm_head");
    assert_eq!(entries[1].offset, 128);
    assert_eq!(entries[1].size, 4);
    assert_eq!(entries[1].crc32, Some(0));
}

#[test]
fn round_trip_v1_yields_the_tuples_in_order() {
    let tuples: [(&str, u32, u32); 3] = [("b", 0, 64), ("a", 64, 128), ("lm_head", 192, 4)];
    let mut bytes = header(1, 64, 3);
    for (n, o, s) in tuples.iter() {
        push_entry(&mut bytes, n, *o, *s, None);
    }
    let view = ManifestView::new(&bytes).unwrap();
    assert_eq!(view.version(), 1);
    assert_eq!(view.align(), 64);
    assert_eq!(view.count(), 3);
    let got = view.entries().unwrap();
    assert_eq!(got.len(), 3);
    for (e, (n, o, s)) in got.iter().zip(tuples.iter()) {
        assert_eq!(e.name, *n);
        assert_eq!(e.offset, *o);
        assert_eq!(e.size, *s);
        assert_eq!(e.crc32, None);
    }
}

#[test]
fn round_trip_v2_yields_the_tuples_in_order() {
    let tuples: [(&str, u32, u32, u32); 2] =
        [("tok_embeddings", 0, 80, 0xDEADBEEF), ("späť", 128, 12, 7)];
    let mut bytes = header(2, 16, 2);
    for (n, o, s, c) in tuples.iter() {
        push_entry(&mut bytes, n, *o, *s, Some(*c));
    }
    let view = ManifestView::new(&bytes).unwrap();
    assert_eq!(view.version(), 2);
    assert_eq!(view.align(), 16);
    assert_eq!(view.count(), 2);
    let mut seen: Vec<Entry> = Vec::new();
    view.for_each(|e| {
        seen.push(e);
        true
    })
    .unwrap();
    assert_eq!(seen.len(), 2);
    for (e, (n, o, s, c)) in seen.iter().zip(tuples.iter()) {
        assert_eq!(e.name, *n);
        assert_eq!(e.offset, *o);
        assert_eq!(e.size, *s);
        assert_eq!(e.crc32, Some(*c));
    }
}

#[test]
fn header_errors_in_order_of_precedence() {
    assert_eq!(ManifestView::new(b"N64W").err(), Some(ManErr::Truncated));
    assert_eq!(ManifestView::new(&[0u8; 11]).err(), Some(ManErr::Truncated));
    let mut bad_magic = header(1, 64, 0);
    bad_magic[3] = b'X';
    assert_eq!(ManifestView::new(&bad_magic).err(), Some(ManErr::BadMagic));
    assert_eq!(ManifestView::new(&header(0, 64, 0)).err(), Some(ManErr::BadVersion));
    assert_eq!(ManifestView::new(&header(3, 64, 0)).err(), Some(ManErr::BadVersion));
    // a wrong signature wins over a wrong version
    let mut both = header(9, 64, 0);
    both[0] = b'M';
    assert_eq!(ManifestView::new(&both).err(), Some(ManErr::BadMagic));
    assert!(ManifestView::new(&header(2, 0, 0)).is_ok());
}

#[test]
fn truncated_record_is_reported_when_reached() {
    let mut bytes = header(2, 64, 2);
    push_entry(&mut bytes, "a", 0, 4, Some(1));
    push_entry(&mut bytes, "b", 64, 4, Some(2));
    bytes.pop();
    let view = ManifestView::new(&bytes).unwrap();
    assert_eq!(view.entries().err(), Some(ManErr::Truncated));

    // the visitor sees the first record, then the error
    let mut seen = 0;
    let r = view.for_each(|_| {
        seen += 1;
        true
    });
    assert_eq!(r, Err(ManErr::Truncated));
    assert_eq!(seen, 1);

    // a visitor that stops early never reaches the damaged record
    let r = view.for_each(|_| false);
    assert_eq!(r, Ok(()));
}

#[test]
fn count_larger_than_the_records_is_truncated() {
    let mut bytes = header(1, 64, 2);
    push_entry(&mut bytes, "only", 0, 4, None);
    let view = ManifestView::new(&bytes).unwrap();
    assert_eq!(view.entries().err(), Some(ManErr::Truncated));
}

#[test]
fn invalid_utf8_name_is_rejected() {
    let mut bytes = header(1, 64, 1);
    bytes.extend_from_slice(&2u16.to_le_bytes());
    bytes.extend_from_slice(&[0xFF, 0xFE]);
    bytes.extend_from_slice(&0u32.to_le_bytes());
    bytes.extend_from_slice(&4u32.to_le_bytes());
    let view = ManifestView::new(&bytes).unwrap();
    assert_eq!(view.entries().err(), Some(ManErr::Utf8));
    // a record that is both cut short and badly named is truncated
    bytes.pop();
    let view = ManifestView::new(&bytes).unwrap();
    assert_eq!(view.entries().err(), Some(ManErr::Truncated));
}

#[test]
fn find_returns_the_first_match() {
    let mut bytes = header(2, 64, 3);
    push_entry(&mut bytes, "x", 0, 4, Some(1));
    push_entry(&mut bytes, "y", 64, 8, Some(2));
    push_entry(&mut bytes, "x", 128, 12, Some(3));
    let view = ManifestView::new(&bytes).unwrap();
    let e = find(&view, "x").unwrap();
    assert_eq!((e.offset, e.size, e.crc32), (0, 4, Some(1)));
    let e = find(&view, "y").unwrap();
    assert_eq!((e.offset, e.size, e.crc32), (64, 8, Some(2)));
    assert!(find(&view, "z").is_none());
    assert!(find(&view, "").is_none());
}

#[test]
fn find_stops_at_a_damaged_record() {
    let mut bytes = header(1, 64, 2);
    bytes.extend_from_slice(&1u16.to_le_bytes());
    bytes.push(0x80);
    bytes.extend_from_slice(&0u32.to_le_bytes());
    bytes.extend_from_slice(&4u32.to_le_bytes());
    push_entry(&mut bytes, "late", 64, 4, None);
    let view = ManifestView::new(&bytes).unwrap();
    assert!(find(&view, "late").is_none());
}
