use n64_gpt::manifest::{Layer, Manifest};
use n64_gpt::model::dims::ModelDims;
use n64_gpt::platform::host_cart::VecRom;
use n64_gpt::tokenizer::{build_byte_maps, byte_to_code, char_to_byte, pre_tokenize, Error, Tokenizer};

fn model_bytes(tokens: &[&[u8]], merges: &[(u32, u32, u32)]) -> Vec<u8> {
    let mut data = Vec::new();
    data.extend_from_slice(b"BPE1");
    data.extend_from_slice(&1u16.to_le_bytes());
    data.extend_from_slice(&0u16.to_le_bytes());
    data.extend_from_slice(&(tokens.len() as u32).to_le_bytes());
    data.extend_from_slice(&(merges.len() as u32).to_le_bytes());
    for t in tokens {
        data.extend_from_slice(&(t.len() as u16).to_le_bytes());
        data.extend_from_slice(t);
    }
    for (l, r, res) in merges {
        data.extend_from_slice(&l.to_le_bytes());
        data.extend_from_slice(&r.to_le_bytes());
        data.extend_from_slice(&res.to_le_bytes());
    }
    data
}

fn build_test_model() -> Vec<u8> {
    let mut data = Vec::new();
    data.extend_from_slice(b"BPE1");
    data.extend_from_slice(&1u16.to_le_bytes());
    data.extend_from_slice(&0u16.to_le_bytes());
    data.extend_from_slice(&3u32.to_le_bytes());
    data.extend_from_slice(&1u32.to_le_bytes());
    let tokens = [&b"a"[..], &b"b"[..], &b"ab"[..]];
    for t in &tokens {
        data.extend_from_slice(&(t.len() as u16).to_le_bytes());
        data.extend_from_slice(t);
    }
    data.extend_from_slice(&0u32.to_le_bytes());
    data.extend_from_slice(&1u32.to_le_bytes());
    data.extend_from_slice(&2u32.to_le_bytes());
    data
}

/// A vocabulary with one token per byte, in byte order, and then the extra
/// tokens given.
fn byte_level_model(extra: &[&str], merges: &[(u32, u32, u32)]) -> Vec<u8> {
    let table = build_byte_maps();
    let mut tokens: Vec<Vec<u8>> = table.clone();
    for e in extra {
        let mut text = Vec::new();
        for b in e.bytes() {
            text.extend_from_slice(&table[b as usize]);
        }
        tokens.push(text);
    }
    let refs: Vec<&[u8]> = tokens.iter().map(|t| &t[..]).collect();
    model_bytes(&refs, merges)
}

#[test]
fn encode_merge() {
    let model = Tokenizer::from_bytes(&build_test_model()).unwrap();
    let tokens = model.encode("ab").unwrap();
    assert_eq!(tokens, vec![2]);
}

#[test]
fn decode_roundtrip() {
    let model = Tokenizer::from_bytes(&build_test_model()).unwrap();
    let text = model.decode(&[0, 1]).unwrap();
    assert_eq!(text, "ab");
}

#[test]
fn byte_characters() {
    // printable bytes stand for themselves
    assert_eq!(byte_to_code(b'!'), 33);
    assert_eq!(byte_to_code(b'~'), 126);
    assert_eq!(byte_to_code(161), 161);
    assert_eq!(byte_to_code(172), 172);
    assert_eq!(byte_to_code(174), 174);
    assert_eq!(byte_to_code(255), 255);
    // the others are counted from 256 on
    assert_eq!(byte_to_code(0), 256);
    assert_eq!(byte_to_code(b' '), 256 + 32);
    assert_eq!(byte_to_code(127), 256 + 33);
    assert_eq!(byte_to_code(160), 256 + 66);
    assert_eq!(byte_to_code(173), 256 + 67);
    // the space is the letter G with a dot above
    assert_eq!(char::from_u32(byte_to_code(b' ')), Some('Ġ'));
    let mut seen = std::collections::BTreeSet::new();
    for b in 0..=255u8 {
        let c = char::from_u32(byte_to_code(b)).unwrap();
        assert_eq!(char_to_byte(c), Some(b));
        assert!(seen.insert(c));
    }
    assert_eq!(char_to_byte(' '), None);
    assert_eq!(char_to_byte('\u{7f}'), None);
    assert_eq!(char_to_byte('\u{ad}'), None);
    assert_eq!(char_to_byte('\u{144}'), None);
    assert_eq!(char_to_byte('€'), None);
    let table = build_byte_maps();
    assert_eq!(table.len(), 256);
    for b in 0..=255u8 {
        let c = char::from_u32(byte_to_code(b)).unwrap();
        assert_eq!(table[b as usize], c.to_string().as_bytes());
    }
}

#[test]
fn text_is_cut_into_pieces() {
    let cut = |t: &str| pre_tokenize(t);
    assert_eq!(cut(""), Vec::<String>::new());
    assert_eq!(cut("hello"), vec!["hello"]);
    assert_eq!(cut("hello world"), vec!["hello", " ", "world"]);
    assert_eq!(cut("a  b\t\nc"), vec!["a", "  ", "b", "\t\n", "c"]);
    assert_eq!(cut("abc123def"), vec!["abc", "123", "def"]);
    assert_eq!(cut("x+=1;"), vec!["x", "+=", "1", ";"]);
    assert_eq!(cut("don't"), vec!["don", "'t"]);
    assert_eq!(cut("we'll they've I'm he'd it's you're"),
        vec!["we", "'ll", " ", "they", "'ve", " ", "I", "'m", " ", "he", "'d", " ", "it", "'s", " ", "you", "'re"]);
    // an apostrophe that starts no contraction opens a run of other characters
    assert_eq!(cut("'x"), vec!["'", "x"]);
    assert_eq!(cut("''s"), vec!["''", "s"]);
    assert_eq!(cut("!'s"), vec!["!'", "s"]);
    assert_eq!(cut("'"), vec!["'"]);
    assert_eq!(cut("'l"), vec!["'", "l"]);
    assert_eq!(cut("'S"), vec!["'", "S"]);
    // letters and digits of other scripts
    assert_eq!(cut("größe ٣٤ 東京"), vec!["größe", " ", "٣٤", " ", "東京"]);
    assert_eq!(cut("\u{a0}x"), vec!["\u{a0}", "x"]);
    for text in ["", "a", " it's   42!! ok", "'''", "tab\tsep", "ünïcödé ✓✓"] {
        assert_eq!(cut(text).concat(), text);
        assert!(cut(text).iter().all(|p| !p.is_empty()));
    }
}

#[test]
fn model_format_is_checked() {
    let good = build_test_model();
    assert!(Tokenizer::from_bytes(&good).is_ok());
    assert_eq!(Tokenizer::from_bytes(&good).unwrap().vocab_len(), 3);
    assert_eq!(Tokenizer::from_bytes(&[]).err(), Some(Error::InvalidFormat));
    assert_eq!(Tokenizer::from_bytes(&good[..15]).err(), Some(Error::InvalidFormat));
    for cut in 16..good.len() {
        assert_eq!(Tokenizer::from_bytes(&good[..cut]).err(), Some(Error::InvalidFormat), "{}", cut);
    }
    let mut bad = good.clone();
    bad[3] = b'2';
    assert_eq!(Tokenizer::from_bytes(&bad).err(), Some(Error::InvalidFormat));
    let mut bad = good.clone();
    bad[4] = 2;
    assert_eq!(Tokenizer::from_bytes(&bad).err(), Some(Error::InvalidFormat));
    // the two bytes behind the version are not looked at, nor is anything behind the merges
    let mut odd = good.clone();
    odd[6] = 0xFF;
    odd[7] = 0xFF;
    odd.extend_from_slice(&[1, 2, 3]);
    assert!(Tokenizer::from_bytes(&odd).is_ok());
    // counts that promise more than the data hold
    let mut huge = good.clone();
    huge[8..12].copy_from_slice(&u32::MAX.to_le_bytes());
    assert_eq!(Tokenizer::from_bytes(&huge).err(), Some(Error::InvalidFormat));
    let mut huge = good;
    huge[12..16].copy_from_slice(&u32::MAX.to_le_bytes());
    assert_eq!(Tokenizer::from_bytes(&huge).err(), Some(Error::InvalidFormat));
    assert!(Tokenizer::from_bytes(&model_bytes(&[], &[])).is_ok());
}

#[test]
fn merges_apply_best_rank_first() {
    // ids: a=0 b=1 c=2 ab=3 bc=4 abc=5
    let tokens: [&[u8]; 6] = [b"a", b"b", b"c", b"ab", b"bc", b"abc"];
    // "bc" has the better rank, so "abc" becomes a+bc, which has no rule
    let t = Tokenizer::from_bytes(&model_bytes(&tokens, &[(1, 2, 4), (0, 1, 3), (3, 2, 5)])).unwrap();
    assert_eq!(t.encode("abc").unwrap(), vec![0, 4]);
    // with "ab" first, ab+c merges on to abc
    let t = Tokenizer::from_bytes(&model_bytes(&tokens, &[(0, 1, 3), (1, 2, 4), (3, 2, 5)])).unwrap();
    assert_eq!(t.encode("abc").unwrap(), vec![5]);
    assert_eq!(t.encode("abcabc").unwrap(), vec![5, 5]);
    assert_eq!(t.encode("bcb").unwrap(), vec![4, 1]);
    assert_eq!(t.merge_ids(vec![0, 1, 0, 1, 2]), vec![3, 5]);
    assert_eq!(t.merge_ids(vec![]), Vec::<u32>::new());
    assert_eq!(t.merge_ids(vec![7]), vec![7]);
    assert_eq!(t.merge_ids(vec![2, 1, 0]), vec![2, 1, 0]);
    // among equal pairs the first is merged first
    let t = Tokenizer::from_bytes(&model_bytes(&tokens, &[(0, 0, 1)])).unwrap();
    assert_eq!(t.merge_ids(vec![0, 0, 0]), vec![1, 0]);
    // the last rule for a pair replaces the earlier ones
    let t = Tokenizer::from_bytes(&model_bytes(&tokens, &[(0, 1, 3), (1, 2, 4), (0, 1, 5)])).unwrap();
    assert_eq!(t.merge_ids(vec![0, 1, 2]), vec![0, 4]);
    assert_eq!(t.merge_ids(vec![0, 1]), vec![5]);
    // a result outside the vocabulary is kept as it is
    let t = Tokenizer::from_bytes(&model_bytes(&tokens, &[(0, 1, 99)])).unwrap();
    assert_eq!(t.encode("ab").unwrap(), vec![99]);
    assert_eq!(t.decode(&[99]).err(), Some(Error::InvalidToken));
}

#[test]
fn pieces_are_encoded_one_by_one() {
    // ids 0..=255 are the bytes; 256 is " the", 257 is "th"
    let t_h = (b't' as u32, b'h' as u32, 257);
    let sp_th = (b' ' as u32, 257, 256);
    let model = byte_level_model(&["\u{1}", "th"], &[t_h, sp_th]);
    let t = Tokenizer::from_bytes(&model).unwrap();
    // the space is a piece of its own, so the merge across it never happens
    assert_eq!(t.encode("a the").unwrap(), vec![b'a' as u32, b' ' as u32, 257, b'e' as u32]);
    assert_eq!(t.encode("").unwrap(), Vec::<u32>::new());
    let ids = t.encode("héllo, wörld ✓ 42").unwrap();
    assert_eq!(t.decode(&ids).unwrap(), "héllo, wörld ✓ 42");
    let text: String = (0..=255u8).map(|b| b as char).collect();
    assert_eq!(t.decode(&t.encode(&text).unwrap()).unwrap(), text);
    assert_eq!(t.encode_piece("th").unwrap(), vec![257]);
    assert_eq!(t.encode_piece(" th").unwrap(), vec![256]);
}

#[test]
fn duplicate_vocabulary_entries_map_to_the_last() {
    let tokens: [&[u8]; 4] = [b"a", b"b", b"a", b"b"];
    let t = Tokenizer::from_bytes(&model_bytes(&tokens, &[])).unwrap();
    assert_eq!(t.encode("ab").unwrap(), vec![2, 3]);
    assert_eq!(t.decode(&[0, 1, 2, 3]).unwrap(), "abab");
}

#[test]
fn encode_and_decode_errors() {
    let t = Tokenizer::from_bytes(&build_test_model()).unwrap();
    assert_eq!(t.encode("abc").err(), Some(Error::UnknownToken));
    assert_eq!(t.encode("a b").err(), Some(Error::UnknownToken));
    assert_eq!(t.decode(&[0, 3]).err(), Some(Error::InvalidToken));
    assert_eq!(t.decode(&[u32::MAX]).err(), Some(Error::InvalidToken));
    assert_eq!(t.decode(&[]).unwrap(), "");
    // entries that are no text, text that stands for no byte, bytes that are no text
    let tokens: [&[u8]; 5] = [b"\xFF", b" ", "\u{c3}".as_bytes(), "\u{a9}".as_bytes(), "\u{144}".as_bytes()];
    let t = Tokenizer::from_bytes(&model_bytes(&tokens, &[])).unwrap();
    assert_eq!(t.decode(&[0]).err(), Some(Error::Utf8));
    assert_eq!(t.decode(&[1]).err(), Some(Error::InvalidToken));
    assert_eq!(t.decode(&[4]).err(), Some(Error::InvalidToken));
    assert_eq!(t.decode(&[2]).err(), Some(Error::Utf8));
    assert_eq!(t.decode(&[3, 2]).err(), Some(Error::Utf8));
    assert_eq!(t.decode(&[2, 3]).unwrap(), "é");
    // the first failing token decides
    assert_eq!(t.decode(&[2, 1, 0]).err(), Some(Error::InvalidToken));
    assert_eq!(t.decode(&[2, 0, 1]).err(), Some(Error::Utf8));
    assert_eq!(t.decode(&[9, 0]).err(), Some(Error::InvalidToken));
}

#[test]
fn error_messages() {
    assert_eq!(Error::MissingModel.message(), "tokenizer assets missing");
    assert_eq!(Error::RomRead.message(), "unable to read tokenizer model from ROM");
    assert_eq!(Error::InvalidFormat.message(), "invalid tokenizer model format");
    assert_eq!(Error::Utf8.message(), "utf8 conversion error");
    assert_eq!(Error::UnknownToken.message(), "encountered unknown token");
    assert_eq!(Error::InvalidToken.message(), "token id out of range");
}

#[test]
fn model_is_loaded_from_the_cartridge() {
    let model = build_test_model();
    let mut blob = vec![0u8; 64];
    blob.extend_from_slice(&model);
    let layer = |name: &str, offset: u32, size: u32| Layer { name: name.to_string(), offset, size };
    let manifest = Manifest {
        layers: vec![layer("x", 0, 64), layer("tokenizer.model", 64, model.len() as u32)],
        align: 64,
        dims: ModelDims::fallback(),
    };
    let t = Tokenizer::new(&mut VecRom(blob.clone()), &manifest).unwrap();
    assert_eq!(t.encode("ab").unwrap(), vec![2]);
    assert_eq!(Tokenizer::new(&mut VecRom(blob[..70].to_vec()), &manifest).err(), Some(Error::RomRead));
    let mut garbled = blob.clone();
    garbled[64] = b'X';
    assert_eq!(Tokenizer::new(&mut VecRom(garbled), &manifest).err(), Some(Error::InvalidFormat));
    let without = Manifest { layers: vec![layer("x", 0, 64)], align: 64, dims: ModelDims::fallback() };
    assert_eq!(Tokenizer::new(&mut VecRom(blob.clone()), &without).err(), Some(Error::MissingModel));
    let empty = Manifest { layers: vec![layer("tokenizer.model", 64, 0)], align: 64, dims: ModelDims::fallback() };
    assert_eq!(Tokenizer::new(&mut VecRom(blob), &empty).err(), Some(Error::InvalidFormat));
}

#[test]
fn white_space_is_the_unicode_property() {
    let spaces: Vec<char> = ['\u{9}', '\u{a}', '\u{b}', '\u{c}', '\u{d}', ' ', '\u{85}', '\u{a0}', '\u{1680}']
        .into_iter()
        .chain('\u{2000}'..='\u{200a}')
        .chain(['\u{2028}', '\u{2029}', '\u{202f}', '\u{205f}', '\u{3000}'])
        .collect();
    assert_eq!(spaces.len(), 25);
    for c in &spaces {
        // a run of white space ends in front of a run of other characters
        assert_eq!(pre_tokenize(&format!("{}!", c)), vec![c.to_string(), "!".to_string()]);
    }
    let all: String = spaces.iter().collect();
    assert_eq!(pre_tokenize(&format!("a{}b", all)), vec!["a".to_string(), all.clone(), "b".to_string()]);
    // neighbours of white space that are none join the run of other characters
    for c in ['\u{8}', '\u{e}', '\u{1f}', '\u{84}', '\u{86}', '\u{180e}', '\u{200b}', '\u{2027}', '\u{2060}', '\u{feff}'] {
        assert_eq!(pre_tokenize(&format!("{}!", c)), vec![format!("{}!", c)]);
    }
}
