//! Byte-pair-encoding tokenizer: text to token ids and back.
//!
//! The model is a vocabulary of byte strings and a ranked list of merges.
//! Every byte of the text is first mapped to a printable character; bytes
//! that are printable already stand for themselves, the others are moved
//! above 255. Vocabulary entries are written in these characters.

use vstd::prelude::*;
use vstd::slice::{slice_subrange, slice_to_vec};
use vstd::string::*;
use vstd::utf8::*;
use crate::io::rom_reader::{read_into, still_serves, RomReader};
use crate::manifest::Manifest;
use crate::model::names::L_TOKENIZER_MODEL;
use crate::util::bytes::{bytes_eq, filled};
use crate::util::text::str_from_utf8;
use crate::weights::weights_rel_to_cart_off;
use crate::weights_manifest::{u16_le, u32_le};

verus! {

/// Why the tokenizer failed.
#[derive(Debug, Clone, Copy, PartialEq, Eq, Structural)]
pub enum Error {
    /// The manifest has no tokenizer model.
    MissingModel,
    /// The model could not be read from the cartridge.
    RomRead,
    /// The model is malformed.
    InvalidFormat,
    /// Decoded bytes are not UTF-8.
    Utf8,
    /// A byte of the text has no token.
    UnknownToken,
    /// A token id is out of range, or its text is not made of byte
    /// characters.
    InvalidToken,
}

impl Error {
    /// The text that describes this error.
    pub open spec fn message_spec(self) -> Seq<char> {
        match self {
            Error::MissingModel => "tokenizer assets missing"@,
            Error::RomRead => "unable to read tokenizer model from ROM"@,
            Error::InvalidFormat => "invalid tokenizer model format"@,
            Error::Utf8 => "utf8 conversion error"@,
            Error::UnknownToken => "encountered unknown token"@,
            Error::InvalidToken => "token id out of range"@,
        }
    }

    /// The text that describes this error.
    pub fn message(&self) -> (text: String)
        ensures
            text@ == self.message_spec(),
    {
        match self {
            Error::MissingModel => String::from_str("tokenizer assets missing"),
            Error::RomRead => String::from_str("unable to read tokenizer model from ROM"),
            Error::InvalidFormat => String::from_str("invalid tokenizer model format"),
            Error::Utf8 => String::from_str("utf8 conversion error"),
            Error::UnknownToken => String::from_str("encountered unknown token"),
            Error::InvalidToken => String::from_str("token id out of range"),
        }
    }
}

/// Length of the model header.
pub const MODEL_HEADER_BYTES: usize = 16;

/// One merge: the pair `(left, right)` becomes `result`.
#[derive(Debug, Clone, Copy, PartialEq, Eq, Structural)]
pub struct MergeRule {
    pub left: u32,
    pub right: u32,
    pub result: u32,
}

/// Mathematical content of a tokenizer model.
pub struct TokenizerModel {
    /// The byte string of every token id.
    pub vocab: Seq<Seq<u8>>,
    /// The merges, best rank first.
    pub merges: Seq<MergeRule>,
}

/// Whether a byte stands for itself among the byte characters.
pub open spec fn is_printable_byte(b: int) -> bool {
    33 <= b <= 126 || 161 <= b <= 172 || 174 <= b <= 255
}

/// The character code that stands for byte `b`: the byte itself where it is
/// printable, and otherwise 256 plus the number of unprintable bytes below it.
pub open spec fn byte_code(b: u8) -> u32 {
    if is_printable_byte(b as int) {
        b as u32
    } else if b <= 32 {
        (256 + b) as u32
    } else if b <= 160 {
        (256 + 33 + (b - 127)) as u32
    } else {
        (256 + 67) as u32
    }
}

/// The byte that a character code stands for, if it stands for one.
pub open spec fn code_byte(code: u32) -> Option<u8> {
    if code < 256 {
        if is_printable_byte(code as int) {
            Some(code as u8)
        } else {
            None
        }
    } else if code < 256 + 33 {
        Some((code - 256) as u8)
    } else if code < 256 + 67 {
        Some((code - 256 - 33 + 127) as u8)
    } else if code == 256 + 67 {
        Some(173u8)
    } else {
        None
    }
}

/// Every byte is recovered from its character code.
pub proof fn lemma_code_byte_inverts_byte_code(b: u8)
    ensures
        code_byte(byte_code(b)) == Some(b),
{
}

/// The character code that stands for byte `b`.
pub fn byte_to_code(b: u8) -> (code: u32)
    ensures
        code == byte_code(b),
        code < 324,
{
    if (33 <= b && b <= 126) || (161 <= b && b <= 172) || 174 <= b {
        b as u32
    } else if b <= 32 {
        256 + b as u32
    } else if b <= 160 {
        256 + 33 + (b as u32 - 127)
    } else {
        256 + 67
    }
}

/// The byte that the character `c` stands for, if it stands for one.
pub fn char_to_byte(c: char) -> (b: Option<u8>)
    ensures
        b == code_byte(c as u32),
{
    let code: u32 = c as u32;
    if code < 256 {
        if (33 <= code && code <= 126) || (161 <= code && code <= 172) || 174 <= code {
            Some(code as u8)
        } else {
            None
        }
    } else if code < 256 + 33 {
        Some((code - 256) as u8)
    } else if code < 256 + 67 {
        Some((code - 256 - 33 + 127) as u8)
    } else if code == 256 + 67 {
        Some(173)
    } else {
        None
    }
}

/// The UTF-8 encoding of the character that stands for each byte: entry `b`
/// of the table is the text of byte `b`.
pub fn build_byte_maps() -> (encoder: Vec<Vec<u8>>)
    ensures
        encoder@.len() == 256,
        forall|b: int| 0 <= b < 256 ==> (#[trigger] encoder@[b])@ == encode_scalar(byte_code(b as u8)),
{
    let mut encoder: Vec<Vec<u8>> = Vec::new();
    let mut b: usize = 0;
    while b < 256
        invariant
            b <= 256,
            encoder@.len() == b,
            forall|k: int| 0 <= k < b ==> (#[trigger] encoder@[k])@ == encode_scalar(byte_code(k as u8)),
        decreases 256 - b,
    {
        let code: u32 = byte_to_code(b as u8);
        let mut text: Vec<u8> = Vec::new();
        if code <= 0x7F {
            text.push((code & 0x7F) as u8);
        } else {
            text.push(0xC0 | ((code >> 6) & 0x1F) as u8);
            text.push(0x80 | (code & 0x3F) as u8);
        }
        assert(text@ =~= encode_scalar(code));
        encoder.push(text);
        b += 1;
    }
    encoder
}

/// The first `n` vocabulary entries of a model whose entries start at byte
/// `at`, with the position behind them; `None` where the data end too early.
pub open spec fn parse_vocab(data: Seq<u8>, at: int, n: nat) -> Option<(Seq<Seq<u8>>, int)>
    decreases n,
{
    if n == 0 {
        Some((Seq::empty(), at))
    } else {
        match parse_vocab(data, at, (n - 1) as nat) {
            None => None,
            Some((entries, pos)) => if pos + 2 > data.len() {
                None
            } else if pos + 2 + u16_le(data, pos) > data.len() {
                None
            } else {
                Some(
                    (
                        entries.push(data.subrange(pos + 2, pos + 2 + u16_le(data, pos))),
                        pos + 2 + u16_le(data, pos),
                    ),
                )
            },
        }
    }
}

/// The first `n` merges of a model whose merges start at byte `at`; `None`
/// where the data end too early.
pub open spec fn parse_merges(data: Seq<u8>, at: int, n: nat) -> Option<Seq<MergeRule>>
    decreases n,
{
    if n == 0 {
        Some(Seq::empty())
    } else {
        match parse_merges(data, at, (n - 1) as nat) {
            None => None,
            Some(rules) => if at + 12 * n > data.len() {
                None
            } else {
                Some(
                    rules.push(
                        MergeRule {
                            left: u32_le(data, at + 12 * (n - 1)) as u32,
                            right: u32_le(data, at + 12 * (n - 1) + 4) as u32,
                            result: u32_le(data, at + 12 * (n - 1) + 8) as u32,
                        },
                    ),
                )
            },
        }
    }
}

/// Whether the data start with the signature `BPE1` and version 1.
pub open spec fn has_model_header(data: Seq<u8>) -> bool {
    &&& data.len() >= MODEL_HEADER_BYTES
    &&& data[0] == 0x42
    &&& data[1] == 0x50
    &&& data[2] == 0x45
    &&& data[3] == 0x31
    &&& u16_le(data, 4) == 1
}

/// The model that the data hold: a header of sixteen bytes with the
/// signature, the version, the number of vocabulary entries and the number
/// of merges; the entries, each a 16-bit length and that many bytes; and the
/// merges, three 32-bit ids each. `None` where the data are malformed.
pub open spec fn parse_model(data: Seq<u8>) -> Option<TokenizerModel> {
    if !has_model_header(data) {
        None
    } else {
        match parse_vocab(data, MODEL_HEADER_BYTES as int, u32_le(data, 8) as nat) {
            None => None,
            Some((vocab, pos)) => match parse_merges(data, pos, u32_le(data, 12) as nat) {
                None => None,
                Some(merges) => Some(TokenizerModel { vocab, merges }),
            },
        }
    }
}

/// The byte strings held by a vector of vectors.
pub open spec fn rows(v: Seq<Vec<u8>>) -> Seq<Seq<u8>> {
    Seq::new(v.len(), |i: int| v[i]@)
}

/// A loaded tokenizer.
pub struct Tokenizer {
    vocab: Vec<Vec<u8>>,
    merges: Vec<MergeRule>,
    byte_encoder: Vec<Vec<u8>>,
}

impl View for Tokenizer {
    type V = TokenizerModel;

    closed spec fn view(&self) -> TokenizerModel {
        TokenizerModel { vocab: rows(self.vocab@), merges: self.merges@ }
    }
}

/// The 16-bit little-endian integer at `at`.
fn half_at(data: &[u8], at: usize) -> (v: u16)
    requires
        at + 2 <= data@.len(),
    ensures
        v == u16_le(data@, at as int),
{
    data[at] as u16 + (data[at + 1] as u16) * 256
}

/// The 32-bit little-endian integer at `at`.
fn word_at(data: &[u8], at: usize) -> (v: u32)
    requires
        at + 4 <= data@.len(),
    ensures
        v == u32_le(data@, at as int),
{
    data[at] as u32 + (data[at + 1] as u32) * 256 + (data[at + 2] as u32) * 65536 + (data[at + 3] as u32)
        * 16777216
}

/// `String::from_utf8`: the conversion succeeds exactly on valid UTF-8, and
/// the text it yields encodes to the very bytes it was given.
#[verifier::external_body]
fn string_of(bytes: Vec<u8>) -> (r: Option<String>)
    ensures
        r is Some <==> valid_utf8(bytes@),
        r matches Some(s) ==> encode_utf8(s@) == bytes@,
{
    String::from_utf8(bytes).ok()
}

/// The characters of `text`, in order.
fn chars_of(text: &str) -> (chars: Vec<char>)
    ensures
        chars@ == text@,
{
    let mut chars: Vec<char> = Vec::new();
    for c in it: text.chars()
        invariant
            chars@ == it.seq().take(it.index() as int),
            it.seq() == text@,
    {
        chars.push(c);
        assert(chars@ =~= it.seq().take(it.index() + 1));
    }
    assert(text@.take(text@.len() as int) =~= text@);
    chars
}

/// Bytes that the characters of the first `n` tokens stand for; the error of
/// the first token that cannot be decoded otherwise.
///
/// A token must be an id of the vocabulary; its entry must be UTF-8, else
/// the error is `Utf8`; and each of its characters must stand for a byte.
pub open spec fn decode_bytes(model: TokenizerModel, tokens: Seq<u32>, n: int) -> Result<Seq<u8>, Error>
    decreases n,
{
    if n <= 0 {
        Ok(Seq::empty())
    } else {
        match decode_bytes(model, tokens, n - 1) {
            Err(e) => Err(e),
            Ok(bytes) => match token_bytes(model, tokens[n - 1]) {
                Err(e) => Err(e),
                Ok(more) => Ok(bytes + more),
            },
        }
    }
}

/// Bytes that the characters of one token stand for.
pub open spec fn token_bytes(model: TokenizerModel, token: u32) -> Result<Seq<u8>, Error> {
    if token >= model.vocab.len() {
        Err(Error::InvalidToken)
    } else if !valid_utf8(model.vocab[token as int]) {
        Err(Error::Utf8)
    } else {
        chars_bytes(decode_utf8(model.vocab[token as int]), decode_utf8(model.vocab[token as int]).len() as int)
    }
}

/// Bytes that the first `n` of the characters stand for; `InvalidToken`
/// where one of them stands for none.
pub open spec fn chars_bytes(chars: Seq<char>, n: int) -> Result<Seq<u8>, Error>
    decreases n,
{
    if n <= 0 {
        Ok(Seq::empty())
    } else {
        match chars_bytes(chars, n - 1) {
            Err(e) => Err(e),
            Ok(bytes) => match code_byte(chars[n - 1] as u32) {
                None => Err(Error::InvalidToken),
                Some(b) => Ok(bytes.push(b)),
            },
        }
    }
}

/// The text of the tokens: the bytes that their characters stand for, read
/// as UTF-8.
pub open spec fn decode_spec(model: TokenizerModel, tokens: Seq<u32>) -> Result<Seq<char>, Error> {
    match decode_bytes(model, tokens, tokens.len() as int) {
        Err(e) => Err(e),
        Ok(bytes) => if valid_utf8(bytes) {
            Ok(decode_utf8(bytes))
        } else {
            Err(Error::Utf8)
        },
    }
}

impl Tokenizer {
    /// The byte table is complete, and every token has a 32-bit id.
    #[verifier::type_invariant]
    closed spec fn wf(&self) -> bool {
        &&& self.vocab@.len() <= u32::MAX
        &&& self.byte_encoder@.len() == 256
        &&& forall|b: int|
            0 <= b < 256 ==> (#[trigger] self.byte_encoder@[b])@ == encode_scalar(byte_code(b as u8))
    }

    /// Reads a model; see [`parse_model`]. Malformed data are refused with
    /// `InvalidFormat`.
    #[verifier::loop_isolation(false)]
    pub fn from_bytes(data: &[u8]) -> (r: Result<Self, Error>)
        ensures
            match r {
                Ok(t) => parse_model(data@) == Some(t@),
                Err(e) => parse_model(data@) is None && e == Error::InvalidFormat,
            },
    {
        if data.len() < MODEL_HEADER_BYTES {
            return Err(Error::InvalidFormat);
        }
        if data[0] != 0x42 || data[1] != 0x50 || data[2] != 0x45 || data[3] != 0x31 {
            return Err(Error::InvalidFormat);
        }
        if half_at(data, 4) != 1 {
            return Err(Error::InvalidFormat);
        }
        let vocab_size: u32 = word_at(data, 8);
        let merge_count: u32 = word_at(data, 12);
        let len: usize = data.len();
        let mut offset: usize = MODEL_HEADER_BYTES;
        let mut vocab: Vec<Vec<u8>> = Vec::new();
        let mut i: u32 = 0;
        while i < vocab_size
            invariant
                i <= vocab_size,
                len == data@.len(),
                offset <= len,
                vocab@.len() == i,
                parse_vocab(data@, MODEL_HEADER_BYTES as int, i as nat) == Some((rows(vocab@), offset as int)),
            decreases vocab_size - i,
        {
            if len - offset < 2 {
                assert(parse_vocab(data@, MODEL_HEADER_BYTES as int, (i + 1) as nat) is None);
                proof {
                    lemma_parse_vocab_fails_on(data@, MODEL_HEADER_BYTES as int, (i + 1) as nat, vocab_size as nat);
                }
                return Err(Error::InvalidFormat);
            }
            let entry_len: usize = half_at(data, offset) as usize;
            if len - offset - 2 < entry_len {
                assert(parse_vocab(data@, MODEL_HEADER_BYTES as int, (i + 1) as nat) is None);
                proof {
                    lemma_parse_vocab_fails_on(data@, MODEL_HEADER_BYTES as int, (i + 1) as nat, vocab_size as nat);
                }
                return Err(Error::InvalidFormat);
            }
            let entry = slice_to_vec(slice_subrange(data, offset + 2, offset + 2 + entry_len));
            let ghost before = vocab@;
            vocab.push(entry);
            proof {
                assert(rows(vocab@) =~= rows(before).push(
                    data@.subrange(offset + 2, offset + 2 + entry_len),
                ));
            }
            offset = offset + 2 + entry_len;
            i = i + 1;
        }
        let merges_at: usize = offset;
        let mut merges: Vec<MergeRule> = Vec::new();
        let mut rank: u32 = 0;
        while rank < merge_count
            invariant
                rank <= merge_count,
                len == data@.len(),
                merges_at <= len,
                offset == merges_at + 12 * rank,
                offset <= len,
                merges@.len() == rank,
                parse_merges(data@, merges_at as int, rank as nat) == Some(merges@),
            decreases merge_count - rank,
        {
            if len - offset < 12 {
                assert(parse_merges(data@, merges_at as int, (rank + 1) as nat) is None);
                proof {
                    lemma_parse_merges_fails_on(data@, merges_at as int, (rank + 1) as nat, merge_count as nat);
                }
                return Err(Error::InvalidFormat);
            }
            let rule = MergeRule {
                left: word_at(data, offset),
                right: word_at(data, offset + 4),
                result: word_at(data, offset + 8),
            };
            merges.push(rule);
            offset = offset + 12;
            rank = rank + 1;
        }
        let byte_encoder = build_byte_maps();
        Ok(Tokenizer { vocab, merges, byte_encoder })
    }

    /// Loads the model from the `tokenizer.model` entry of `manifest`.
    ///
    /// Fails with `MissingModel` where the manifest has no such entry, with
    /// `RomRead` where the entry cannot be read, and with `InvalidFormat`
    /// where what was read is no model. An entry that the reader serves can
    /// be read.
    pub fn new<R: RomReader>(rr: &mut R, manifest: &Manifest) -> (r: Result<Self, Error>)
        ensures
            (*final(rr)).rom() == (*old(rr)).rom(),
            r == Err::<Self, Error>(Error::MissingModel) <==> (forall|i: int|
                0 <= i < manifest.layers@.len() ==> (#[trigger] manifest.layers@[i]).name@
                    != L_TOKENIZER_MODEL@),
            r matches Ok(t) ==> exists|i: int| #[trigger]
                manifest.is_first_named(L_TOKENIZER_MODEL@, i) && manifest.layers@[i].offset
                    + manifest.layers@[i].size <= (*old(rr)).rom().len() && parse_model(
                    crate::io::rom_reader::rom_range(
                        (*old(rr)).rom(),
                        manifest.layers@[i].offset as int,
                        manifest.layers@[i].size as int,
                    ),
                ) == Some(t@),
            r matches Err(e) ==> e == Error::MissingModel || e == Error::RomRead || e
                == Error::InvalidFormat,
            still_serves(*old(rr), *final(rr)),
            r == Err::<Self, Error>(Error::RomRead) ==> exists|i: int| #[trigger]
                manifest.is_first_named(L_TOKENIZER_MODEL@, i) && !(*old(rr)).serves(
                    manifest.layers@[i].offset as u64,
                    manifest.layers@[i].size as nat,
                ),
    {
        let layer = match manifest.find(L_TOKENIZER_MODEL) {
            Some(layer) => layer,
            None => {
                return Err(Error::MissingModel);
            },
        };
        let size: usize = layer.size as usize;
        let mut data: Vec<u8> = filled(size, 0);
        if size > 0 {
            if !read_into(rr, weights_rel_to_cart_off(layer.offset as u64), data.as_mut_slice(), 0, size) {
                return Err(Error::RomRead);
            }
            assert(data@.subrange(0, size as int) =~= data@);
        } else {
            assert(data@ =~= Seq::<u8>::empty());
        }
        Self::from_bytes(data.as_slice())
    }

    /// Turns token ids back into text; see [`decode_spec`].
    #[verifier::loop_isolation(false)]
    pub fn decode(&self, tokens: &[u32]) -> (r: Result<String, Error>)
        ensures
            match r {
                Ok(text) => decode_spec(self@, tokens@) == Ok::<Seq<char>, Error>(text@),
                Err(e) => decode_spec(self@, tokens@) == Err::<Seq<char>, Error>(e),
            },
    {
        let mut bytes: Vec<u8> = Vec::new();
        let mut i: usize = 0;
        while i < tokens.len()
            invariant
                i <= tokens@.len(),
                decode_bytes(self@, tokens@, i as int) == Ok::<Seq<u8>, Error>(bytes@),
            decreases tokens@.len() - i,
        {
            let token: u32 = tokens[i];
            if token as usize >= self.vocab.len() {
                proof {
                    lemma_decode_bytes_fails_on(self@, tokens@, i + 1, tokens@.len() as int);
                }
                return Err(Error::InvalidToken);
            }
            let entry: &Vec<u8> = &self.vocab[token as usize];
            assert(self@.vocab[token as int] == entry@);
            let text: &str = match str_from_utf8(entry.as_slice()) {
                Some(s) => s,
                None => {
                    proof {
                        lemma_decode_bytes_fails_on(self@, tokens@, i + 1, tokens@.len() as int);
                    }
                    return Err(Error::Utf8);
                },
            };
            proof {
                encode_utf8_decode_utf8(text@);
            }
            let chars = chars_of(text);
            let ghost before = bytes@;
            let mut k: usize = 0;
            while k < chars.len()
                invariant
                    k <= chars@.len(),
                    chars@ == decode_utf8(entry@),
                    chars_bytes(chars@, k as int) is Ok,
                    bytes@ == before + chars_bytes(chars@, k as int)->Ok_0,
                decreases chars@.len() - k,
            {
                match char_to_byte(chars[k]) {
                    None => {
                        proof {
                            lemma_chars_bytes_fails_on(chars@, k + 1, chars@.len() as int);
                            lemma_decode_bytes_fails_on(self@, tokens@, i + 1, tokens@.len() as int);
                        }
                        return Err(Error::InvalidToken);
                    },
                    Some(b) => {
                        bytes.push(b);
                        assert(bytes@ =~= before + chars_bytes(chars@, k + 1)->Ok_0);
                    },
                }
                k += 1;
            }
            i += 1;
        }
        match string_of(bytes) {
            Some(text) => {
                proof {
                    encode_utf8_decode_utf8(text@);
                }
                Ok(text)
            },
            None => Err(Error::Utf8),
        }
    }

    /// Number of tokens in the vocabulary.
    pub fn vocab_len(&self) -> (n: usize)
        ensures
            n == self@.vocab.len(),
    {
        self.vocab.len()
    }
}

/// Once an entry is missing, no longer vocabulary parses.
proof fn lemma_parse_vocab_fails_on(data: Seq<u8>, at: int, n: nat, m: nat)
    requires
        n <= m,
        parse_vocab(data, at, n) is None,
    ensures
        parse_vocab(data, at, m) is None,
    decreases m - n,
{
    if n < m {
        lemma_parse_vocab_fails_on(data, at, n, (m - 1) as nat);
    }
}

/// Once a merge is missing, no longer list of merges parses.
proof fn lemma_parse_merges_fails_on(data: Seq<u8>, at: int, n: nat, m: nat)
    requires
        n <= m,
        parse_merges(data, at, n) is None,
    ensures
        parse_merges(data, at, m) is None,
    decreases m - n,
{
    if n < m {
        lemma_parse_merges_fails_on(data, at, n, (m - 1) as nat);
    }
}

/// The error of the first token that fails is the error of the whole.
proof fn lemma_decode_bytes_fails_on(model: TokenizerModel, tokens: Seq<u32>, n: int, m: int)
    requires
        n <= m,
        decode_bytes(model, tokens, n) is Err,
    ensures
        decode_bytes(model, tokens, m) == decode_bytes(model, tokens, n),
    decreases m - n,
{
    if n < m {
        lemma_decode_bytes_fails_on(model, tokens, n, m - 1);
    }
}

/// The error of the first character that fails is the error of the whole.
proof fn lemma_chars_bytes_fails_on(chars: Seq<char>, n: int, m: int)
    requires
        n <= m,
        chars_bytes(chars, n) is Err,
    ensures
        chars_bytes(chars, m) == chars_bytes(chars, n),
    decreases m - n,
{
    if n < m {
        lemma_chars_bytes_fails_on(chars, n, m - 1);
    }
}

/// Whether `c` is white space: one of the 25 characters that carry the
/// Unicode property White_Space.
pub open spec fn unicode_whitespace(c: char) -> bool {
    let u = c as u32;
    ||| 0x09 <= u <= 0x0D
    ||| u == 0x20
    ||| u == 0x85
    ||| u == 0xA0
    ||| u == 0x1680
    ||| 0x2000 <= u <= 0x200A
    ||| u == 0x2028
    ||| u == 0x2029
    ||| u == 0x202F
    ||| u == 0x205F
    ||| u == 0x3000
}

/// Whether `c` is alphabetic, as the Unicode tables of the standard library
/// have it.
pub uninterp spec fn unicode_alphabetic(c: char) -> bool;

/// Whether `c` is numeric, as the Unicode tables of the standard library have
/// it.
pub uninterp spec fn unicode_numeric(c: char) -> bool;

/// `char::is_whitespace`: whether the character has the Unicode property
/// White_Space.
pub assume_specification[ char::is_whitespace ](c: char) -> (b: bool)
    ensures
        b == unicode_whitespace(c),
;

/// `char::is_alphabetic`: a property of the character alone.
pub assume_specification[ char::is_alphabetic ](c: char) -> (b: bool)
    ensures
        b == unicode_alphabetic(c),
;

/// `char::is_numeric`: a property of the character alone.
pub assume_specification[ char::is_numeric ](c: char) -> (b: bool)
    ensures
        b == unicode_numeric(c),
;

/// The kinds of runs that a text is cut into.
#[derive(Debug, Clone, Copy, PartialEq, Eq, Structural)]
pub enum RunKind {
    Space,
    Letter,
    Digit,
    Other,
}

/// The kind of run that starts with `c`: white space, else letters, else
/// digits, else anything else.
pub open spec fn kind_of(c: char) -> RunKind {
    if unicode_whitespace(c) {
        RunKind::Space
    } else if unicode_alphabetic(c) {
        RunKind::Letter
    } else if unicode_numeric(c) {
        RunKind::Digit
    } else {
        RunKind::Other
    }
}

/// Whether `c` continues a run of kind `kind`.
pub open spec fn continues(kind: RunKind, c: char) -> bool {
    match kind {
        RunKind::Space => unicode_whitespace(c),
        RunKind::Letter => unicode_alphabetic(c),
        RunKind::Digit => unicode_numeric(c),
        RunKind::Other => !unicode_whitespace(c) && !unicode_alphabetic(c) && !unicode_numeric(c),
    }
}

/// Where the run of kind `kind` that has reached position `j` ends.
pub open spec fn run_end(chars: Seq<char>, kind: RunKind, j: int) -> int
    decreases chars.len() - j,
{
    if 0 <= j < chars.len() && continues(kind, chars[j]) {
        run_end(chars, kind, j + 1)
    } else {
        j
    }
}

/// Whether `pattern` stands in `chars` at position `i`.
pub open spec fn stands_at(chars: Seq<char>, i: int, pattern: Seq<char>) -> bool {
    i + pattern.len() <= chars.len() && chars.subrange(i, i + pattern.len()) == pattern
}

/// Length of the contraction that stands at position `i`: the first of
/// `'s`, `'t`, `'re`, `'ve`, `'m`, `'ll` and `'d` that does; zero where none
/// does.
pub open spec fn contraction_len(chars: Seq<char>, i: int) -> int {
    if stands_at(chars, i, "'s"@) {
        2
    } else if stands_at(chars, i, "'t"@) {
        2
    } else if stands_at(chars, i, "'re"@) {
        3
    } else if stands_at(chars, i, "'ve"@) {
        3
    } else if stands_at(chars, i, "'m"@) {
        2
    } else if stands_at(chars, i, "'ll"@) {
        3
    } else if stands_at(chars, i, "'d"@) {
        2
    } else {
        0
    }
}

/// Where the piece that starts at position `i` ends: behind the contraction
/// that stands there, or else where the run that starts there ends.
pub open spec fn piece_end(chars: Seq<char>, i: int) -> int {
    if contraction_len(chars, i) > 0 {
        i + contraction_len(chars, i)
    } else {
        run_end(chars, kind_of(chars[i]), i + 1)
    }
}

/// The pieces of `chars` from position `i` on.
pub open spec fn pieces_from(chars: Seq<char>, i: int) -> Seq<Seq<char>>
    decreases chars.len() - i,
        when 0 <= i
{
    let end = piece_end(chars, i);
    if i >= chars.len() || end <= i || end > chars.len() {
        Seq::empty()
    } else {
        seq![chars.subrange(i, end)] + pieces_from(chars, end)
    }
}

/// A run ends behind where it has got to.
proof fn lemma_run_end_bounds(chars: Seq<char>, kind: RunKind, j: int)
    requires
        0 <= j <= chars.len(),
    ensures
        j <= run_end(chars, kind, j) <= chars.len(),
    decreases chars.len() - j,
{
    if j < chars.len() && continues(kind, chars[j]) {
        lemma_run_end_bounds(chars, kind, j + 1);
    }
}

/// Whether the characters `pattern` stand in `chars` at position `i`.
fn stands(chars: &Vec<char>, i: usize, pattern: &str) -> (r: bool)
    requires
        i <= chars@.len(),
    ensures
        r == stands_at(chars@, i as int, pattern@),
{
    let pat = chars_of(pattern);
    let n: usize = pat.len();
    let total: usize = chars.len();
    if total - i < n {
        return false;
    }
    let mut k: usize = 0;
    while k < n
        invariant
            k <= n,
            n == pat@.len(),
            pat@ == pattern@,
            total == chars@.len(),
            i + n <= total,
            forall|j: int| 0 <= j < k ==> chars@[i + j] == pat@[j],
        decreases n - k,
    {
        if chars[i + k] != pat[k] {
            assert(chars@.subrange(i as int, i + n)[k as int] != pat@[k as int]);
            return false;
        }
        k += 1;
    }
    assert(chars@.subrange(i as int, i + n) =~= pat@);
    true
}

/// Length of the contraction that stands at position `i`.
fn contraction(chars: &Vec<char>, i: usize) -> (n: usize)
    requires
        i <= chars@.len(),
    ensures
        n == contraction_len(chars@, i as int),
        n > 0 ==> i + n <= chars@.len(),
{
    proof {
        reveal_strlit("'s");
        reveal_strlit("'t");
        reveal_strlit("'re");
        reveal_strlit("'ve");
        reveal_strlit("'m");
        reveal_strlit("'ll");
        reveal_strlit("'d");
    }
    if stands(chars, i, "'s") {
        2
    } else if stands(chars, i, "'t") {
        2
    } else if stands(chars, i, "'re") {
        3
    } else if stands(chars, i, "'ve") {
        3
    } else if stands(chars, i, "'m") {
        2
    } else if stands(chars, i, "'ll") {
        3
    } else if stands(chars, i, "'d") {
        2
    } else {
        0
    }
}

/// The kind of run that starts with `c`.
fn kind(c: char) -> (k: RunKind)
    ensures
        k == kind_of(c),
{
    if c.is_whitespace() {
        RunKind::Space
    } else if c.is_alphabetic() {
        RunKind::Letter
    } else if c.is_numeric() {
        RunKind::Digit
    } else {
        RunKind::Other
    }
}

/// Whether `c` continues a run of kind `kind`.
fn goes_on(k: RunKind, c: char) -> (r: bool)
    ensures
        r == continues(k, c),
{
    match k {
        RunKind::Space => c.is_whitespace(),
        RunKind::Letter => c.is_alphabetic(),
        RunKind::Digit => c.is_numeric(),
        RunKind::Other => !c.is_whitespace() && !c.is_alphabetic() && !c.is_numeric(),
    }
}

/// The characters `chars[from..to]` as a string.
fn string_from(chars: &Vec<char>, from: usize, to: usize) -> (s: String)
    requires
        from <= to <= chars@.len(),
    ensures
        s@ == chars@.subrange(from as int, to as int),
{
    let mut s = String::new();
    let mut k: usize = from;
    while k < to
        invariant
            from <= k <= to,
            to <= chars@.len(),
            s@ == chars@.subrange(from as int, k as int),
        decreases to - k,
    {
        s.push(chars[k]);
        assert(s@ =~= chars@.subrange(from as int, k + 1));
        k += 1;
    }
    s
}

/// The views of a vector of strings.
pub open spec fn texts(v: Seq<String>) -> Seq<Seq<char>> {
    Seq::new(v.len(), |i: int| v[i]@)
}

/// Cuts a text into pieces: contractions, runs of white space, runs of
/// letters, runs of digits, and runs of anything else. The pieces, put end
/// to end, are the text.
pub fn pre_tokenize(text: &str) -> (tokens: Vec<String>)
    ensures
        texts(tokens@) == pieces_from(text@, 0),
{
    let chars = chars_of(text);
    let len: usize = chars.len();
    let mut tokens: Vec<String> = Vec::new();
    let mut i: usize = 0;
    assert(texts(tokens@) + pieces_from(chars@, 0) =~= pieces_from(chars@, 0));
    while i < len
        invariant
            i <= len,
            len == chars@.len(),
            chars@ == text@,
            texts(tokens@) + pieces_from(chars@, i as int) == pieces_from(chars@, 0),
        decreases len - i,
    {
        let short: usize = contraction(&chars, i);
        let end: usize = if short > 0 {
            i + short
        } else {
            let k = kind(chars[i]);
            let mut j: usize = i + 1;
            while j < len && goes_on(k, chars[j])
                invariant
                    i < j <= len,
                    len == chars@.len(),
                    run_end(chars@, k, j as int) == run_end(chars@, k, i + 1),
                decreases len - j,
            {
                j += 1;
            }
            j
        };
        proof {
            lemma_run_end_bounds(chars@, kind_of(chars@[i as int]), i + 1);
        }
        assert(end == piece_end(chars@, i as int));
        let piece = string_from(&chars, i, end);
        let ghost before = tokens@;
        tokens.push(piece);
        proof {
            assert(texts(tokens@) =~= texts(before).push(chars@.subrange(i as int, end as int)));
            assert(texts(before).push(chars@.subrange(i as int, end as int)) + pieces_from(
                chars@,
                end as int,
            ) =~= texts(before) + pieces_from(chars@, i as int));
        }
        i = end;
    }
    assert(texts(tokens@) + Seq::<Seq<char>>::empty() =~= texts(tokens@));
    tokens
}

/// Index of the last of the first `n` vocabulary entries that equals
/// `bytes`.
pub open spec fn token_id(vocab: Seq<Seq<u8>>, n: int, bytes: Seq<u8>) -> Option<u32>
    decreases n,
{
    if n <= 0 {
        None
    } else if vocab[n - 1] == bytes {
        Some((n - 1) as u32)
    } else {
        token_id(vocab, n - 1, bytes)
    }
}

/// Index of the last of the first `n` merges that merges the pair
/// `(left, right)`.
pub open spec fn rule_for(merges: Seq<MergeRule>, n: int, left: u32, right: u32) -> Option<int>
    decreases n,
{
    if n <= 0 {
        None
    } else if merges[n - 1].left == left && merges[n - 1].right == right {
        Some(n - 1)
    } else {
        rule_for(merges, n - 1, left, right)
    }
}

/// The merge to apply next, judged by the first `n` pairs of `ids`: the
/// position of the pair and the index of its rule. Among the pairs that have
/// a rule the one with the best rule wins, and among equals the first.
pub open spec fn best_merge(merges: Seq<MergeRule>, ids: Seq<u32>, n: int) -> Option<(int, int)>
    decreases n,
{
    if n <= 0 {
        None
    } else {
        let before = best_merge(merges, ids, n - 1);
        match rule_for(merges, merges.len() as int, ids[n - 1], ids[n]) {
            None => before,
            Some(rank) => match before {
                Some((_, best)) => if rank < best {
                    Some((n - 1, rank))
                } else {
                    before
                },
                None => Some((n - 1, rank)),
            },
        }
    }
}

/// `ids` with the pair at `pos` replaced by `result`.
pub open spec fn merged_at(ids: Seq<u32>, pos: int, result: u32) -> Seq<u32> {
    ids.subrange(0, pos).push(result) + ids.subrange(pos + 2, ids.len() as int)
}

/// `ids` after every merge that applies has been applied, best first.
pub open spec fn merge_all(merges: Seq<MergeRule>, ids: Seq<u32>) -> Seq<u32>
    decreases ids.len(),
{
    if ids.len() <= 1 {
        ids
    } else {
        match best_merge(merges, ids, ids.len() - 1) {
            None => ids,
            Some((pos, rank)) => if 0 <= pos < ids.len() - 1 {
                merge_all(merges, merged_at(ids, pos, merges[rank].result))
            } else {
                ids
            },
        }
    }
}

/// The token ids of the first `n` bytes of a piece, before merging: each byte
/// is looked up by the text of its byte character. `UnknownToken` where a
/// byte has no token.
pub open spec fn byte_ids(vocab: Seq<Seq<u8>>, bytes: Seq<u8>, n: int) -> Result<Seq<u32>, Error>
    decreases n,
{
    if n <= 0 {
        Ok(Seq::empty())
    } else {
        match byte_ids(vocab, bytes, n - 1) {
            Err(e) => Err(e),
            Ok(ids) => match token_id(vocab, vocab.len() as int, encode_scalar(byte_code(bytes[n - 1]))) {
                None => Err(Error::UnknownToken),
                Some(id) => Ok(ids.push(id)),
            },
        }
    }
}

/// The token ids of one piece.
pub open spec fn encode_piece_spec(model: TokenizerModel, piece: Seq<char>) -> Result<Seq<u32>, Error> {
    match byte_ids(model.vocab, encode_utf8(piece), encode_utf8(piece).len() as int) {
        Err(e) => Err(e),
        Ok(ids) => Ok(merge_all(model.merges, ids)),
    }
}

/// The token ids of the first `n` pieces, put end to end; the error of the
/// first piece that fails otherwise.
pub open spec fn encode_pieces(model: TokenizerModel, pieces: Seq<Seq<char>>, n: int) -> Result<
    Seq<u32>,
    Error,
>
    decreases n,
{
    if n <= 0 {
        Ok(Seq::empty())
    } else {
        match encode_pieces(model, pieces, n - 1) {
            Err(e) => Err(e),
            Ok(ids) => match encode_piece_spec(model, pieces[n - 1]) {
                Err(e) => Err(e),
                Ok(more) => Ok(ids + more),
            },
        }
    }
}

/// The token ids of a text: the text is cut into pieces and every piece is
/// encoded by itself.
pub open spec fn encode_spec(model: TokenizerModel, text: Seq<char>) -> Result<Seq<u32>, Error> {
    encode_pieces(model, pieces_from(text, 0), pieces_from(text, 0).len() as int)
}

/// The error of the first byte that fails is the error of the whole.
proof fn lemma_byte_ids_fails_on(vocab: Seq<Seq<u8>>, bytes: Seq<u8>, n: int, m: int)
    requires
        n <= m,
        byte_ids(vocab, bytes, n) is Err,
    ensures
        byte_ids(vocab, bytes, m) == byte_ids(vocab, bytes, n),
    decreases m - n,
{
    if n < m {
        lemma_byte_ids_fails_on(vocab, bytes, n, m - 1);
    }
}

/// The error of the first piece that fails is the error of the whole.
proof fn lemma_encode_pieces_fails_on(model: TokenizerModel, pieces: Seq<Seq<char>>, n: int, m: int)
    requires
        n <= m,
        encode_pieces(model, pieces, n) is Err,
    ensures
        encode_pieces(model, pieces, m) == encode_pieces(model, pieces, n),
    decreases m - n,
{
    if n < m {
        lemma_encode_pieces_fails_on(model, pieces, n, m - 1);
    }
}

/// A rule that is found is a rule of the list.
proof fn lemma_rule_for_bounds(merges: Seq<MergeRule>, n: int, left: u32, right: u32)
    requires
        n <= merges.len(),
    ensures
        rule_for(merges, n, left, right) matches Some(rank) ==> 0 <= rank < n,
    decreases n,
{
    if n > 0 {
        lemma_rule_for_bounds(merges, n - 1, left, right);
    }
}

/// The best merge lies among the pairs that were judged.
proof fn lemma_best_merge_bounds(merges: Seq<MergeRule>, ids: Seq<u32>, n: int)
    ensures
        best_merge(merges, ids, n) matches Some((pos, rank)) ==> 0 <= pos < n && 0 <= rank
            < merges.len(),
    decreases n,
{
    if n > 0 {
        lemma_best_merge_bounds(merges, ids, n - 1);
        lemma_rule_for_bounds(merges, merges.len() as int, ids[n - 1], ids[n]);
    }
}

impl Tokenizer {
    /// The id of the token whose byte string is `bytes`.
    fn lookup(&self, bytes: &[u8]) -> (r: Option<u32>)
        ensures
            r == token_id(self@.vocab, self@.vocab.len() as int, bytes@),
    {
        proof {
            use_type_invariant(self);
        }
        let mut n: usize = self.vocab.len();
        while n > 0
            invariant
                n <= self.vocab@.len(),
                self.wf(),
                token_id(self@.vocab, self@.vocab.len() as int, bytes@) == token_id(
                    self@.vocab,
                    n as int,
                    bytes@,
                ),
            decreases n,
        {
            assert(self@.vocab[n - 1] == self.vocab@[n - 1]@);
            if bytes_eq(self.vocab[n - 1].as_slice(), bytes) {
                return Some((n - 1) as u32);
            }
            n -= 1;
        }
        None
    }

    /// The index of the rule that merges the pair `(left, right)`.
    fn rule(&self, left: u32, right: u32) -> (r: Option<usize>)
        ensures
            r matches Some(rank) ==> rule_for(self@.merges, self@.merges.len() as int, left, right)
                == Some(rank as int),
            r is None ==> rule_for(self@.merges, self@.merges.len() as int, left, right) is None,
    {
        let mut n: usize = self.merges.len();
        while n > 0
            invariant
                n <= self.merges@.len(),
                rule_for(self@.merges, self@.merges.len() as int, left, right) == rule_for(
                    self@.merges,
                    n as int,
                    left,
                    right,
                ),
            decreases n,
        {
            let rule = &self.merges[n - 1];
            if rule.left == left && rule.right == right {
                return Some(n - 1);
            }
            n -= 1;
        }
        None
    }

    /// Applies every merge that applies to `ids`, best first: the pair whose
    /// rule has the best rank is replaced by the rule's result, the first
    /// such pair where there are several, until no pair has a rule.
    #[verifier::loop_isolation(false)]
    pub fn merge_ids(&self, ids: Vec<u32>) -> (r: Vec<u32>)
        ensures
            r@ == merge_all(self@.merges, ids@),
    {
        let mut ids = ids;
        let ghost start = ids@;
        loop
            invariant
                merge_all(self@.merges, ids@) == merge_all(self@.merges, start),
            decreases ids@.len(),
        {
            if ids.len() <= 1 {
                return ids;
            }
            let mut best: Option<(usize, usize)> = None;
            let mut i: usize = 0;
            while i < ids.len() - 1
                invariant
                    ids@.len() >= 2,
                    i <= ids@.len() - 1,
                    match best {
                        Some((pos, rank)) => best_merge(self@.merges, ids@, i as int) == Some(
                            (pos as int, rank as int),
                        ),
                        None => best_merge(self@.merges, ids@, i as int) is None,
                    },
                decreases ids@.len() - i,
            {
                match self.rule(ids[i], ids[i + 1]) {
                    None => {},
                    Some(rank) => {
                        let better: bool = match best {
                            Some((_, best_rank)) => rank < best_rank,
                            None => true,
                        };
                        if better {
                            best = Some((i, rank));
                        }
                    },
                }
                i += 1;
            }
            match best {
                None => {
                    return ids;
                },
                Some((pos, rank)) => {
                    proof {
                        lemma_best_merge_bounds(self@.merges, ids@, ids@.len() - 1);
                    }
                    let ghost before = ids@;
                    let result: u32 = self.merges[rank].result;
                    ids.set(pos, result);
                    ids.remove(pos + 1);
                    assert(ids@ =~= merged_at(before, pos as int, result));
                },
            }
        }
    }

    /// The token ids of one piece of text; see [`encode_piece_spec`].
    pub fn encode_piece(&self, piece: &str) -> (r: Result<Vec<u32>, Error>)
        ensures
            match r {
                Ok(ids) => encode_piece_spec(self@, piece@) == Ok::<Seq<u32>, Error>(ids@),
                Err(e) => encode_piece_spec(self@, piece@) == Err::<Seq<u32>, Error>(e),
            },
    {
        proof {
            use_type_invariant(self);
        }
        let bytes = piece.as_bytes();
        let mut ids: Vec<u32> = Vec::new();
        let mut i: usize = 0;
        while i < bytes.len()
            invariant
                i <= bytes@.len(),
                self.wf(),
                bytes@ == encode_utf8(piece@),
                byte_ids(self@.vocab, bytes@, i as int) == Ok::<Seq<u32>, Error>(ids@),
            decreases bytes@.len() - i,
        {
            let encoded: &Vec<u8> = &self.byte_encoder[bytes[i] as usize];
            match self.lookup(encoded.as_slice()) {
                None => {
                    proof {
                        lemma_byte_ids_fails_on(self@.vocab, bytes@, i + 1, bytes@.len() as int);
                    }
                    return Err(Error::UnknownToken);
                },
                Some(id) => {
                    ids.push(id);
                },
            }
            i += 1;
        }
        Ok(self.merge_ids(ids))
    }

    /// The token ids of a text; see [`encode_spec`].
    pub fn encode(&self, text: &str) -> (r: Result<Vec<u32>, Error>)
        ensures
            match r {
                Ok(ids) => encode_spec(self@, text@) == Ok::<Seq<u32>, Error>(ids@),
                Err(e) => encode_spec(self@, text@) == Err::<Seq<u32>, Error>(e),
            },
    {
        let pieces = pre_tokenize(text);
        let mut output: Vec<u32> = Vec::new();
        let mut i: usize = 0;
        while i < pieces.len()
            invariant
                i <= pieces@.len(),
                texts(pieces@) == pieces_from(text@, 0),
                encode_pieces(self@, texts(pieces@), i as int) == Ok::<Seq<u32>, Error>(output@),
            decreases pieces@.len() - i,
        {
            assert(texts(pieces@)[i as int] == pieces@[i as int]@);
            match self.encode_piece(pieces[i].as_str()) {
                Err(e) => {
                    proof {
                        lemma_encode_pieces_fails_on(self@, texts(pieces@), i + 1, pieces@.len() as int);
                    }
                    return Err(e);
                },
                Ok(ids) => {
                    let ghost before = output@;
                    let mut k: usize = 0;
                    while k < ids.len()
                        invariant
                            k <= ids@.len(),
                            output@ == before + ids@.take(k as int),
                        decreases ids@.len() - k,
                    {
                        output.push(ids[k]);
                        assert(output@ =~= before + ids@.take(k + 1));
                        k += 1;
                    }
                    assert(ids@.take(ids@.len() as int) =~= ids@);
                },
            }
            i += 1;
        }
        Ok(output)
    }
}

} // verus!
