//! Names of per-layer tensors: `layer<N>.<field>`.

use vstd::prelude::*;
use vstd::string::*;
use vstd::utf8::is_ascii_chars;
use crate::util::text::str_eq;

verus! {

/// The twelve weight roles of a transformer block.
#[derive(Debug, Copy, Clone, PartialEq, Eq, Structural)]
pub enum LayerField {
    Ln1Weight,
    Ln1Bias,
    AttnWeight,
    AttnBias,
    AttnProjWeight,
    AttnProjBias,
    Ln2Weight,
    Ln2Bias,
    FfnWeight,
    FfnBias,
    FfnProjWeight,
    FfnProjBias,
}

/// Whether `c` is one of `0` to `9`.
pub open spec fn is_digit(c: char) -> bool {
    '0' <= c <= '9'
}

/// First position at or after `from` that does not hold a digit.
pub open spec fn digits_end(name: Seq<char>, from: int) -> int
    decreases name.len() - from,
{
    if 0 <= from < name.len() && is_digit(name[from]) {
        digits_end(name, from + 1)
    } else {
        from
    }
}

/// Decimal value of the digits `name[from..to]`; zero where there are none.
pub open spec fn digits_value(name: Seq<char>, from: int, to: int) -> nat
    decreases to - from,
{
    if to <= from {
        0
    } else {
        (digits_value(name, from, to - 1) * 10 + (name[to - 1] as u32 - '0' as u32)) as nat
    }
}

/// The role that a field name stands for.
pub open spec fn field_of(suffix: Seq<char>) -> Option<LayerField> {
    if suffix == "ln1.weight"@ {
        Some(LayerField::Ln1Weight)
    } else if suffix == "ln1.bias"@ {
        Some(LayerField::Ln1Bias)
    } else if suffix == "attn.qkv.weight"@ {
        Some(LayerField::AttnWeight)
    } else if suffix == "attn.qkv.bias"@ {
        Some(LayerField::AttnBias)
    } else if suffix == "attn.proj.weight"@ {
        Some(LayerField::AttnProjWeight)
    } else if suffix == "attn.proj.bias"@ {
        Some(LayerField::AttnProjBias)
    } else if suffix == "ln2.weight"@ {
        Some(LayerField::Ln2Weight)
    } else if suffix == "ln2.bias"@ {
        Some(LayerField::Ln2Bias)
    } else if suffix == "ffn.in.weight"@ {
        Some(LayerField::FfnWeight)
    } else if suffix == "ffn.in.bias"@ {
        Some(LayerField::FfnBias)
    } else if suffix == "ffn.out.weight"@ {
        Some(LayerField::FfnProjWeight)
    } else if suffix == "ffn.out.bias"@ {
        Some(LayerField::FfnProjBias)
    } else {
        None
    }
}

/// Layer number and role named by `name`, if it is the name of a per-layer
/// tensor.
///
/// Such a name is plain ASCII: the word `layer`, one or more decimal digits,
/// a dot, and one of the twelve field names. Leading zeroes do not matter. A
/// name without a digit names no layer, and neither does a number that does
/// not fit in a machine word.
pub open spec fn parse_layer_name(name: Seq<char>) -> Option<(nat, LayerField)> {
    if !is_ascii_chars(name) || name.len() <= 5 || name.subrange(0, 5) != "layer"@ {
        None
    } else {
        let end = digits_end(name, 5);
        if end == 5 || end >= name.len() || name[end] != '.' {
            None
        } else if digits_value(name, 5, end) > usize::MAX {
            None
        } else {
            match field_of(name.subrange(end + 1, name.len() as int)) {
                Some(field) => Some((digits_value(name, 5, end), field)),
                None => None,
            }
        }
    }
}

/// The run of digits that starts at `from` ends where `digits_end` says.
proof fn lemma_digits_end_step(name: Seq<char>, from: int, at: int)
    requires
        0 <= from <= at <= name.len(),
        forall|k: int| from <= k < at ==> is_digit(#[trigger] name[k]),
    ensures
        digits_end(name, from) == digits_end(name, at),
    decreases at - from,
{
    if from < at {
        lemma_digits_end_step(name, from + 1, at);
    }
}

/// Appending digits never makes the value smaller.
proof fn lemma_digits_value_grows(name: Seq<char>, from: int, mid: int, to: int)
    requires
        0 <= from <= mid <= to <= name.len(),
        forall|k: int| from <= k < to ==> is_digit(#[trigger] name[k]),
    ensures
        digits_value(name, from, mid) <= digits_value(name, from, to),
    decreases to - mid,
{
    if mid < to {
        lemma_digits_value_grows(name, from, mid, to - 1);
        assert(is_digit(name[to - 1]));
    }
}

/// An ASCII character whose byte is a digit is that digit.
proof fn lemma_ascii_digit(c: char, b: u8)
    requires
        (c as u32) < 128,
        b == c as u8,
        48 <= b <= 57,
    ensures
        is_digit(c),
        b - 48 == c as u32 - '0' as u32,
{
}

/// The role that the field name `suffix` stands for.
fn field_from_suffix(suffix: &str) -> (r: Option<LayerField>)
    ensures
        r == field_of(suffix@),
{
    if str_eq(suffix, "ln1.weight") {
        Some(LayerField::Ln1Weight)
    } else if str_eq(suffix, "ln1.bias") {
        Some(LayerField::Ln1Bias)
    } else if str_eq(suffix, "attn.qkv.weight") {
        Some(LayerField::AttnWeight)
    } else if str_eq(suffix, "attn.qkv.bias") {
        Some(LayerField::AttnBias)
    } else if str_eq(suffix, "attn.proj.weight") {
        Some(LayerField::AttnProjWeight)
    } else if str_eq(suffix, "attn.proj.bias") {
        Some(LayerField::AttnProjBias)
    } else if str_eq(suffix, "ln2.weight") {
        Some(LayerField::Ln2Weight)
    } else if str_eq(suffix, "ln2.bias") {
        Some(LayerField::Ln2Bias)
    } else if str_eq(suffix, "ffn.in.weight") {
        Some(LayerField::FfnWeight)
    } else if str_eq(suffix, "ffn.in.bias") {
        Some(LayerField::FfnBias)
    } else if str_eq(suffix, "ffn.out.weight") {
        Some(LayerField::FfnProjWeight)
    } else if str_eq(suffix, "ffn.out.bias") {
        Some(LayerField::FfnProjBias)
    } else {
        None
    }
}

/// Splits the name of a per-layer tensor into its layer number and role.
pub fn parse_layer_entry(name: &str) -> (r: Option<(usize, LayerField)>)
    ensures
        match r {
            Some((idx, field)) => parse_layer_name(name@) == Some((idx as nat, field)),
            None => parse_layer_name(name@) is None,
        },
{
    broadcast use is_ascii_spec_bytes;

    if !name.is_ascii() {
        return None;
    }
    let bytes = name.as_bytes();
    let len: usize = bytes.len();
    assert(len == name@.len());
    assert(forall|i: int| 0 <= i < len ==> bytes@[i] == name@[i] as u8);
    assert(forall|i: int| 0 <= i < len ==> (name@[i] as u32) < 128);
    proof {
        reveal_strlit("layer");
    }
    if len <= 5 {
        return None;
    }
    if bytes[0] != 108 || bytes[1] != 97 || bytes[2] != 121 || bytes[3] != 101 || bytes[4] != 114 {
        assert(name@.subrange(0, 5) != "layer"@) by {
            if name@.subrange(0, 5) == "layer"@ {
                assert(name@.subrange(0, 5)[0] == 'l');
                assert(name@.subrange(0, 5)[1] == 'a');
                assert(name@.subrange(0, 5)[2] == 'y');
                assert(name@.subrange(0, 5)[3] == 'e');
                assert(name@.subrange(0, 5)[4] == 'r');
            }
        }
        return None;
    }
    assert(name@.subrange(0, 5) =~= "layer"@);
    let mut pos: usize = 5;
    let mut idx: usize = 0;
    let mut fits: bool = true;
    while pos < len && bytes[pos] >= 48 && bytes[pos] <= 57
        invariant
            5 <= pos <= len,
            len == name@.len(),
            len == bytes@.len(),
            forall|i: int| 0 <= i < len ==> bytes@[i] == name@[i] as u8,
            forall|i: int| 0 <= i < len ==> (name@[i] as u32) < 128,
            forall|k: int| 5 <= k < pos ==> is_digit(#[trigger] name@[k]),
            fits ==> idx == digits_value(name@, 5, pos as int),
            !fits ==> digits_value(name@, 5, pos as int) > usize::MAX,
        decreases len - pos,
    {
        let d: usize = (bytes[pos] - 48) as usize;
        proof {
            lemma_ascii_digit(name@[pos as int], bytes@[pos as int]);
        }
        assert(d == name@[pos as int] as u32 - '0' as u32);
        if fits {
            if idx > (usize::MAX - d) / 10 {
                fits = false;
            } else {
                idx = idx * 10 + d;
            }
        } else {
            assert(digits_value(name@, 5, pos + 1) >= digits_value(name@, 5, pos as int));
        }
        pos += 1;
    }
    proof {
        lemma_digits_end_step(name@, 5, pos as int);
        assert(digits_end(name@, 5) == pos);
    }
    if pos == 5 || pos >= len || bytes[pos] != 46 {
        return None;
    }
    assert(name@[pos as int] == '.');
    if !fits {
        return None;
    }
    let suffix = name.substring_ascii(pos + 1, len);
    match field_from_suffix(suffix) {
        Some(field) => Some((idx, field)),
        None => None,
    }
}

} // verus!
