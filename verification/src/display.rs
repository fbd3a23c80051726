//! Text and colour values for the display. Drawing itself is left to the
//! program around the library.

use vstd::prelude::*;
use vstd::utf8::*;
use vstd::string::{StrSliceExecFns, StringSliceAdditionalSpecFns};
use crate::n64_sys::{
    A_BUTTON, B_BUTTON, DOWN_BUTTON, LEFT_BUTTON, RIGHT_BUTTON, START_BUTTON, UP_BUTTON,
};
use crate::util::text::{decimal, push_decimal, push_text};

verus! {

/// Capacity of a probe line in bytes.
pub const PROBE_LINE_BYTES: usize = 96;

/// Number of sample bytes shown in a probe line.
pub const PROBE_LINE_SAMPLES: usize = 8;

/// A 16-bit pixel: five bits of red, green and blue from the top of each
/// channel, and the alpha bit set.
pub open spec fn rgb_to_n64_color_spec(r: u8, g: u8, b: u8) -> u16 {
    ((((r as u16) >> 3) & 0x1F) << 11) | ((((g as u16) >> 3) & 0x1F) << 6) | ((((b as u16) >> 3)
        & 0x1F) << 1) | 1
}

/// Packs an RGB triple into a 16-bit pixel.
pub fn rgb_to_n64_color(r: u8, g: u8, b: u8) -> (pixel: u16)
    ensures
        pixel == rgb_to_n64_color_spec(r, g, b),
{
    let r5: u16 = ((r as u16) >> 3) & 0x1F;
    let g5: u16 = ((g as u16) >> 3) & 0x1F;
    let b5: u16 = ((b as u16) >> 3) & 0x1F;
    (r5 << 11) | (g5 << 6) | (b5 << 1) | 1
}

/// The upper-case hexadecimal digit of a value below sixteen.
pub open spec fn hex_digit_spec(n: int) -> char {
    if n == 0 {
        '0'
    } else if n == 1 {
        '1'
    } else if n == 2 {
        '2'
    } else if n == 3 {
        '3'
    } else if n == 4 {
        '4'
    } else if n == 5 {
        '5'
    } else if n == 6 {
        '6'
    } else if n == 7 {
        '7'
    } else if n == 8 {
        '8'
    } else if n == 9 {
        '9'
    } else if n == 10 {
        'A'
    } else if n == 11 {
        'B'
    } else if n == 12 {
        'C'
    } else if n == 13 {
        'D'
    } else if n == 14 {
        'E'
    } else {
        'F'
    }
}

/// The last `width` hexadecimal digits of `v`, most significant first.
pub open spec fn hex_fixed(v: nat, width: nat) -> Seq<char>
    decreases width,
{
    if width == 0 {
        Seq::empty()
    } else {
        hex_fixed(v / 16, (width - 1) as nat).push(hex_digit_spec((v % 16) as int))
    }
}

/// Number of hexadecimal digits of `v`; one for zero.
pub open spec fn hex_width(v: nat) -> nat
    decreases v,
{
    if v < 16 {
        1
    } else {
        hex_width(v / 16) + 1
    }
}

/// `v` in upper-case hexadecimal, padded with zeroes to at least `min_width`
/// digits.
pub open spec fn hex_padded(v: nat, min_width: nat) -> Seq<char> {
    if hex_width(v) >= min_width {
        hex_fixed(v, hex_width(v))
    } else {
        hex_fixed(v, min_width)
    }
}

/// The sample bytes of a probe line: each byte as two hexadecimal digits
/// and a space.
pub open spec fn hex_bytes(bytes: Seq<u8>) -> Seq<char>
    decreases bytes.len(),
{
    if bytes.len() == 0 {
        Seq::empty()
    } else {
        hex_bytes(bytes.drop_last()) + hex_fixed(bytes.last() as nat, 2) + seq![' ']
    }
}

/// The text of a probe line: the offset in hexadecimal with at least eight
/// digits, the verdict, and the first eight sample bytes.
pub open spec fn probe_line_spec(off: u64, ok: bool, bytes: Seq<u8>) -> Seq<char> {
    let shown = if bytes.len() < PROBE_LINE_SAMPLES {
        bytes
    } else {
        bytes.take(PROBE_LINE_SAMPLES as int)
    };
    seq!['0', 'x'] + hex_padded(off as nat, 8) + seq![' ', ' '] + (if ok {
        seq!['O', 'K', ' ']
    } else {
        seq!['E', 'R', 'R']
    }) + seq![' ', ' '] + hex_bytes(shown)
}

/// `heapless::String`: a string that holds at most `N` bytes of UTF-8 and
/// never allocates. Nothing is known of a value but what [`line_text`] says.
#[verifier::external_type_specification]
#[verifier::external_body]
#[verifier::reject_recursive_types(N)]
pub struct ExHeaplessString<const N: usize>(heapless::String<N>);

/// The characters held by a probe line.
pub uninterp spec fn line_text(line: heapless::String<96>) -> Seq<char>;

/// `heapless::String::new`: a string without characters.
#[verifier::external_body]
fn line_new() -> (line: heapless::String<96>)
    ensures
        line_text(line) == Seq::<char>::empty(),
{
    heapless::String::new()
}

/// `heapless::String::push`: the character is appended where its UTF-8
/// encoding still fits in the 96 bytes of the string; otherwise the string
/// is left as it was and the push is refused.
#[verifier::external_body]
fn line_push(line: &mut heapless::String<96>, c: char) -> (pushed: bool)
    ensures
        pushed <==> encode_utf8(line_text(*old(line))).len() + encode_utf8(seq![c]).len()
            <= PROBE_LINE_BYTES,
        pushed ==> line_text(*final(line)) == line_text(*old(line)).push(c),
        !pushed ==> line_text(*final(line)) == line_text(*old(line)),
{
    line.push(c).is_ok()
}

/// The upper-case hexadecimal digit of `n`.
fn hex_digit(n: u8) -> (c: char)
    requires
        n < 16,
    ensures
        c == hex_digit_spec(n as int),
        (c as u32) < 128,
{
    match n {
        0 => '0',
        1 => '1',
        2 => '2',
        3 => '3',
        4 => '4',
        5 => '5',
        6 => '6',
        7 => '7',
        8 => '8',
        9 => '9',
        10 => 'A',
        11 => 'B',
        12 => 'C',
        13 => 'D',
        14 => 'E',
        _ => 'F',
    }
}

/// A line under construction: plain ASCII, with room left.
spec fn line_ok(line: heapless::String<96>, text: Seq<char>) -> bool {
    &&& line_text(line) == text
    &&& is_ascii_chars(text)
}

/// Appends an ASCII character to a line that has room for it.
fn put(line: &mut heapless::String<96>, c: char, Ghost(text): Ghost<Seq<char>>)
    requires
        line_ok(*old(line), text),
        text.len() < PROBE_LINE_BYTES,
        (c as u32) < 128,
    ensures
        line_ok(*final(line), text.push(c)),
{
    proof {
        is_ascii_chars_encode_utf8(text);
        assert(is_ascii_chars(seq![c]));
        is_ascii_chars_encode_utf8(seq![c]);
    }
    let pushed = line_push(line, c);
    assert(pushed);
}

/// Appends the last `width` hexadecimal digits of `v`.
fn put_hex(line: &mut heapless::String<96>, v: u64, width: usize, Ghost(text): Ghost<Seq<char>>)
    requires
        line_ok(*old(line), text),
        width <= 16,
        text.len() + width <= PROBE_LINE_BYTES,
    ensures
        line_ok(*final(line), text + hex_fixed(v as nat, width as nat)),
{
    let mut i: usize = 0;
    let ghost mut shown: Seq<char> = Seq::empty();
    proof {
        lemma_hex_fixed_shift(v as nat, width as nat, 0);
        assert(text + shown =~= text);
    }
    while i < width
        invariant
            i <= width,
            width <= 16,
            text.len() + width <= PROBE_LINE_BYTES,
            shown.len() == i,
            line_ok(*line, text + shown),
            shown == hex_fixed(shifted(v as nat, (width - i) as nat), i as nat),
        decreases width - i,
    {
        let shift: u32 = ((width - i - 1) * 4) as u32;
        let nibble: u8 = ((v >> shift) & 0xF) as u8;
        proof {
            lemma_nibble(v, (width - i - 1) as nat);
            lemma_hex_fixed_shift(v as nat, width as nat, (width - i - 1) as nat);
        }
        let c = hex_digit(nibble);
        put(line, c, Ghost(text + shown));
        proof {
            assert((text + shown).push(c) =~= text + shown.push(c));
            shown = shown.push(c);
            lemma_shifted_step(v as nat, (width - i - 1) as nat);
        }
        i += 1;
    }
    assert(shifted(v as nat, 0) == v);
}

/// `v` without its last `digits` hexadecimal digits.
spec fn shifted(v: nat, digits: nat) -> nat
    decreases digits,
{
    if digits == 0 {
        v
    } else {
        shifted(v, (digits - 1) as nat) / 16
    }
}

proof fn lemma_shifted_step(v: nat, digits: nat)
    ensures
        shifted(v, digits + 1) == shifted(v, digits) / 16,
{
}

/// The digit in front of the last `digits` digits is a shift and a mask.
proof fn lemma_nibble(v: u64, digits: nat)
    requires
        digits < 16,
    ensures
        ((v >> ((digits * 4) as u32)) & 0xF) == shifted(v as nat, digits) % 16,
        ((v >> ((digits * 4) as u32)) & 0xF) < 16,
        (v >> ((digits * 4) as u32)) == shifted(v as nat, digits),
    decreases digits,
{
    if digits == 0 {
        assert(v >> 0u32 == v) by (bit_vector);
        assert(v & 0xF == v % 16) by (bit_vector);
    } else {
        lemma_nibble(v, (digits - 1) as nat);
        let s: u32 = ((digits - 1) * 4) as u32;
        let t: u32 = (digits * 4) as u32;
        assert(v >> t == (v >> s) / 16) by (bit_vector)
            requires
                t == s + 4,
                t < 64,
        ;
        let w = v >> t;
        assert(w & 0xF == w % 16) by (bit_vector);
    }
}

/// The digits shown so far are the fixed-width digits of the number without
/// the digits still to come.
proof fn lemma_hex_fixed_shift(v: nat, width: nat, rest: nat)
    requires
        rest <= width,
    ensures
        hex_fixed(shifted(v, rest), (width - rest) as nat).len() == width - rest,
        rest < width ==> hex_fixed(shifted(v, rest), (width - rest) as nat) == hex_fixed(
            shifted(v, rest + 1),
            (width - rest - 1) as nat,
        ).push(hex_digit_spec((shifted(v, rest) % 16) as int)),
    decreases width - rest,
{
    lemma_hex_fixed_len(shifted(v, rest), (width - rest) as nat);
}

proof fn lemma_hex_fixed_len(v: nat, width: nat)
    ensures
        hex_fixed(v, width).len() == width,
    decreases width,
{
    if width > 0 {
        lemma_hex_fixed_len(v / 16, (width - 1) as nat);
    }
}

/// Number of hexadecimal digits of `v`.
fn hex_digits_of(v: u64) -> (n: usize)
    ensures
        n == hex_width(v as nat),
        1 <= n <= 16,
{
    let mut n: usize = 1;
    let mut rest: u64 = v;
    while rest >= 16
        invariant
            1 <= n <= 16,
            hex_width(v as nat) == hex_width(rest as nat) + n - 1,
            rest == shifted(v as nat, (n - 1) as nat),
        decreases rest,
    {
        proof {
            if n == 16 {
                lemma_nibble(v, 15);
                assert((v >> 60u32) < 16) by (bit_vector);
            }
            lemma_shifted_step(v as nat, (n - 1) as nat);
        }
        rest = rest / 16;
        n += 1;
    }
    n
}

/// The line that reports the probe of offset `off`: the offset, `OK ` or
/// `ERR`, and up to eight sample bytes, as in
/// `0x01000000  OK   12 34 56 78 9A BC DE F0 `.
pub fn probe_result_line(off: u64, ok: bool, bytes: &[u8]) -> (line: heapless::String<96>)
    ensures
        line_text(line) == probe_line_spec(off, ok, bytes@),
{
    let mut line = line_new();
    let ghost mut text: Seq<char> = Seq::empty();
    put(&mut line, '0', Ghost(text));
    put(&mut line, 'x', Ghost(text.push('0')));
    proof {
        text = seq!['0', 'x'];
        assert(text =~= Seq::<char>::empty().push('0').push('x'));
    }
    let digits = hex_digits_of(off);
    let width: usize = if digits >= 8 {
        digits
    } else {
        8
    };
    put_hex(&mut line, off, width, Ghost(text));
    proof {
        text = text + hex_padded(off as nat, 8);
        lemma_hex_fixed_len(off as nat, width as nat);
    }
    put(&mut line, ' ', Ghost(text));
    put(&mut line, ' ', Ghost(text.push(' ')));
    proof {
        assert(text.push(' ').push(' ') =~= text + seq![' ', ' ']);
        text = text + seq![' ', ' '];
    }
    if ok {
        put(&mut line, 'O', Ghost(text));
        put(&mut line, 'K', Ghost(text.push('O')));
        put(&mut line, ' ', Ghost(text.push('O').push('K')));
        proof {
            assert(text.push('O').push('K').push(' ') =~= text + seq!['O', 'K', ' ']);
            text = text + seq!['O', 'K', ' '];
        }
    } else {
        put(&mut line, 'E', Ghost(text));
        put(&mut line, 'R', Ghost(text.push('E')));
        put(&mut line, 'R', Ghost(text.push('E').push('R')));
        proof {
            assert(text.push('E').push('R').push('R') =~= text + seq!['E', 'R', 'R']);
            text = text + seq!['E', 'R', 'R'];
        }
    }
    put(&mut line, ' ', Ghost(text));
    put(&mut line, ' ', Ghost(text.push(' ')));
    proof {
        assert(text.push(' ').push(' ') =~= text + seq![' ', ' ']);
        text = text + seq![' ', ' '];
    }
    let count: usize = if bytes.len() < PROBE_LINE_SAMPLES {
        bytes.len()
    } else {
        PROBE_LINE_SAMPLES
    };
    let ghost head = text;
    let ghost shown = bytes@.take(count as int);
    let mut i: usize = 0;
    assert(shown.take(0) =~= Seq::<u8>::empty());
    assert(head + hex_bytes(shown.take(0)) =~= head);
    while i < count
        invariant
            i <= count,
            count <= PROBE_LINE_SAMPLES,
            count <= bytes@.len(),
            shown == bytes@.take(count as int),
            head.len() <= 28,
            hex_bytes(shown.take(i as int)).len() == 3 * i,
            line_ok(line, head + hex_bytes(shown.take(i as int))),
        decreases count - i,
    {
        let b: u8 = bytes[i];
        let ghost so_far = head + hex_bytes(shown.take(i as int));
        put_hex(&mut line, b as u64, 2, Ghost(so_far));
        proof {
            lemma_hex_fixed_len(b as nat, 2);
        }
        put(&mut line, ' ', Ghost(so_far + hex_fixed(b as nat, 2)));
        proof {
            assert(shown.take(i + 1).drop_last() =~= shown.take(i as int));
            assert(shown.take(i + 1).last() == b);
            assert((so_far + hex_fixed(b as nat, 2)).push(' ') =~= head + hex_bytes(shown.take(i + 1)));
        }
        i += 1;
    }
    proof {
        assert(shown.take(count as int) =~= shown);
        assert(bytes@.len() < PROBE_LINE_SAMPLES ==> shown =~= bytes@);
    }
    line
}

/// Width of the progress bar in characters.
pub const PROGRESS_BAR_WIDTH: usize = 20;

/// Number of filled cells of the progress bar at `current` of `total`.
pub open spec fn progress_cells(current: int, total: int) -> int {
    if PROGRESS_BAR_WIDTH * current / total > PROGRESS_BAR_WIDTH {
        PROGRESS_BAR_WIDTH as int
    } else {
        PROGRESS_BAR_WIDTH * current / total
    }
}

/// A bar of `width` cells of which the first `filled` are filled.
pub open spec fn bar(filled: int, width: int) -> Seq<char>
    decreases width,
{
    if width <= 0 {
        Seq::empty()
    } else {
        bar(filled, width - 1).push(
            if width - 1 < filled {
                '#'
            } else {
                '-'
            },
        )
    }
}

/// The text of a progress report:
/// `Working... [#####---------------] 1/4`.
pub open spec fn progress_line_spec(current: usize, total: usize) -> Seq<char> {
    "Working... ["@ + bar(progress_cells(current as int, total as int), PROGRESS_BAR_WIDTH as int) + "] "@
        + decimal(current as nat) + "/"@ + decimal(total as nat)
}

/// The line that reports progress at `current` of `total` steps.
pub fn progress_line(current: usize, total: usize) -> (line: String)
    requires
        total > 0,
    ensures
        line@ == progress_line_spec(current, total),
{
    let wide: u128 = current as u128;
    let scaled: u128 = 20 * wide / (total as u128);
    let filled: usize = if scaled > PROGRESS_BAR_WIDTH as u128 {
        PROGRESS_BAR_WIDTH
    } else {
        scaled as usize
    };
    let mut line = String::new();
    push_text(&mut line, "Working... [");
    let ghost head = line@;
    let mut i: usize = 0;
    assert(head + bar(filled as int, 0) =~= head);
    while i < PROGRESS_BAR_WIDTH
        invariant
            i <= PROGRESS_BAR_WIDTH,
            line@ == head + bar(filled as int, i as int),
        decreases PROGRESS_BAR_WIDTH - i,
    {
        let c: char = if i < filled {
            '#'
        } else {
            '-'
        };
        line.push(c);
        assert(line@ =~= head + bar(filled as int, i + 1));
        i += 1;
    }
    push_text(&mut line, "] ");
    push_decimal(&mut line, current as u64);
    push_text(&mut line, "/");
    push_decimal(&mut line, total as u64);
    proof {
        assert(Seq::<char>::empty() + "Working... ["@ =~= "Working... ["@);
    }
    line
}

/// The letters that stand for the pressed buttons, in a fixed order: `A`,
/// `B`, a line feed for `START`, `U`, `D`, `L`, `R`.
pub open spec fn input_text_spec(buttons: u16) -> Seq<char> {
    let a = if buttons & A_BUTTON != 0 {
        seq!['A']
    } else {
        Seq::empty()
    };
    let b = if buttons & B_BUTTON != 0 {
        a.push('B')
    } else {
        a
    };
    let s = if buttons & START_BUTTON != 0 {
        b.push('\n')
    } else {
        b
    };
    let u = if buttons & UP_BUTTON != 0 {
        s.push('U')
    } else {
        s
    };
    let d = if buttons & DOWN_BUTTON != 0 {
        u.push('D')
    } else {
        u
    };
    let l = if buttons & LEFT_BUTTON != 0 {
        d.push('L')
    } else {
        d
    };
    if buttons & RIGHT_BUTTON != 0 {
        l.push('R')
    } else {
        l
    }
}

/// The pressed buttons as text; `None` where none of the seven buttons that
/// have a letter is pressed.
pub fn read_input(buttons: u16) -> (r: Option<String>)
    ensures
        match r {
            Some(text) => text@ == input_text_spec(buttons) && text@.len() > 0,
            None => input_text_spec(buttons).len() == 0,
        },
{
    let mut input = String::new();
    if (buttons & A_BUTTON) != 0 {
        input.push('A');
    }
    if (buttons & B_BUTTON) != 0 {
        input.push('B');
    }
    if (buttons & START_BUTTON) != 0 {
        input.push('\n');
    }
    if (buttons & UP_BUTTON) != 0 {
        input.push('U');
    }
    if (buttons & DOWN_BUTTON) != 0 {
        input.push('D');
    }
    if (buttons & LEFT_BUTTON) != 0 {
        input.push('L');
    }
    if (buttons & RIGHT_BUTTON) != 0 {
        input.push('R');
    }
    assert(input@ =~= input_text_spec(buttons));
    if input.as_str().unicode_len() == 0 {
        None
    } else {
        Some(input)
    }
}

/// Number of rows of the input keyboard.
pub const INPUT_ROWS: usize = 4;

/// Number of keys in a row of the input keyboard.
pub const INPUT_COLS: usize = 10;

/// The key in row `row` and column `col` of the input keyboard: the letters
/// `A` to `Z`, the digits `0` to `9`, then full stop, comma, question mark
/// and space.
pub open spec fn input_key_spec(row: int, col: int) -> char {
    let index = row * 10 + col;
    if index < 26 {
        ('A' as u32 + index) as char
    } else if index < 36 {
        ('0' as u32 + (index - 26)) as char
    } else if index == 36 {
        '.'
    } else if index == 37 {
        ','
    } else if index == 38 {
        '?'
    } else {
        ' '
    }
}

/// The key in row `row` and column `col` of the input keyboard.
pub fn input_key(row: usize, col: usize) -> (c: char)
    requires
        row < INPUT_ROWS,
        col < INPUT_COLS,
    ensures
        c == input_key_spec(row as int, col as int),
{
    let index: usize = row * 10 + col;
    match index {
        0 => 'A',
        1 => 'B',
        2 => 'C',
        3 => 'D',
        4 => 'E',
        5 => 'F',
        6 => 'G',
        7 => 'H',
        8 => 'I',
        9 => 'J',
        10 => 'K',
        11 => 'L',
        12 => 'M',
        13 => 'N',
        14 => 'O',
        15 => 'P',
        16 => 'Q',
        17 => 'R',
        18 => 'S',
        19 => 'T',
        20 => 'U',
        21 => 'V',
        22 => 'W',
        23 => 'X',
        24 => 'Y',
        25 => 'Z',
        26 => '0',
        27 => '1',
        28 => '2',
        29 => '3',
        30 => '4',
        31 => '5',
        32 => '6',
        33 => '7',
        34 => '8',
        35 => '9',
        36 => '.',
        37 => ',',
        38 => '?',
        _ => ' ',
    }
}

/// The cursor of the input keyboard.
#[derive(Debug, Clone, Copy, PartialEq, Eq, Structural)]
pub struct KeyboardInput {
    row: usize,
    col: usize,
}

/// What a poll of the input keyboard led to.
#[derive(Debug, Clone, Copy, PartialEq, Eq, Structural)]
pub struct KeyboardUpdate {
    /// Whether the cursor moved or the text was touched, so that the
    /// keyboard is to be drawn again.
    pub updated: bool,
    /// Whether `START` was pressed and the text is submitted.
    pub submit: bool,
}

/// The cursor row after up and down have had their say, up first.
pub open spec fn input_row_after(row: int, buttons: u16) -> int {
    let up = if buttons & UP_BUTTON != 0 && row > 0 {
        row - 1
    } else {
        row
    };
    if buttons & DOWN_BUTTON != 0 && up + 1 < INPUT_ROWS {
        up + 1
    } else {
        up
    }
}

/// The cursor column after left and right have had their say, left first.
pub open spec fn input_col_after(col: int, buttons: u16) -> int {
    let left = if buttons & LEFT_BUTTON != 0 && col > 0 {
        col - 1
    } else {
        col
    };
    if buttons & RIGHT_BUTTON != 0 && left + 1 < INPUT_COLS {
        left + 1
    } else {
        left
    }
}

/// Whether a poll calls for the keyboard to be drawn again: a direction
/// moved the cursor, even if another moved it back, or `A` or `B` was
/// pressed.
pub open spec fn input_updated(row: int, col: int, buttons: u16) -> bool {
    let up = buttons & UP_BUTTON != 0 && row > 0;
    let row_up = if up {
        row - 1
    } else {
        row
    };
    let down = buttons & DOWN_BUTTON != 0 && row_up + 1 < INPUT_ROWS;
    let left = buttons & LEFT_BUTTON != 0 && col > 0;
    let col_left = if left {
        col - 1
    } else {
        col
    };
    let right = buttons & RIGHT_BUTTON != 0 && col_left + 1 < INPUT_COLS;
    up || down || left || right || buttons & A_BUTTON != 0 || buttons & B_BUTTON != 0
}

/// The text after `A` has typed `key` and `B` has deleted the last
/// character, in this order.
pub open spec fn input_typed(text: Seq<char>, buttons: u16, key: char) -> Seq<char> {
    let after_a = if buttons & A_BUTTON != 0 {
        text.push(key)
    } else {
        text
    };
    if buttons & B_BUTTON != 0 && after_a.len() > 0 {
        after_a.drop_last()
    } else {
        after_a
    }
}

/// The first `cols` keys of row `row` of the input keyboard as they are
/// drawn with the cursor at `(cursor_row, cursor_col)`.
pub open spec fn input_row_text(row: int, cols: int, cursor_row: int, cursor_col: int) -> Seq<char>
    decreases cols,
{
    if cols <= 0 {
        Seq::empty()
    } else {
        let key = input_key_spec(row, cols - 1);
        input_row_text(row, cols - 1, cursor_row, cursor_col) + (if row == cursor_row && cols - 1
            == cursor_col {
            seq!['[', key, ']']
        } else {
            seq![' ', key, ' ']
        })
    }
}

impl KeyboardInput {
    /// Row of the cursor.
    pub closed spec fn row(&self) -> int {
        self.row as int
    }

    /// Column of the cursor.
    pub closed spec fn col(&self) -> int {
        self.col as int
    }

    /// The cursor lies on a key.
    #[verifier::type_invariant]
    closed spec fn inv(&self) -> bool {
        self.row < INPUT_ROWS && self.col < INPUT_COLS
    }

    /// A keyboard with the cursor on the first key.
    pub fn new() -> (k: Self)
        ensures
            k.row() == 0,
            k.col() == 0,
    {
        KeyboardInput { row: 0, col: 0 }
    }

    /// Applies the pressed `buttons`: the directions move the cursor by one
    /// key where there is one, then `A` types the key under the cursor and
    /// `B` deletes the last character. `START` submits the text.
    pub fn keyboard_input(&mut self, buttons: u16, buffer: &mut String) -> (r: KeyboardUpdate)
        ensures
            final(self).row() == input_row_after(old(self).row(), buttons),
            final(self).col() == input_col_after(old(self).col(), buttons),
            final(buffer)@ == input_typed(
                old(buffer)@,
                buttons,
                input_key_spec(final(self).row(), final(self).col()),
            ),
            r.submit == (buttons & START_BUTTON != 0),
            r.updated == input_updated(old(self).row(), old(self).col(), buttons),
    {
        proof {
            use_type_invariant(&*self);
        }
        let mut updated: bool = false;
        if (buttons & UP_BUTTON) != 0 && self.row > 0 {
            self.row = self.row - 1;
            updated = true;
        }
        if (buttons & DOWN_BUTTON) != 0 && self.row + 1 < INPUT_ROWS {
            self.row = self.row + 1;
            updated = true;
        }
        if (buttons & LEFT_BUTTON) != 0 && self.col > 0 {
            self.col = self.col - 1;
            updated = true;
        }
        if (buttons & RIGHT_BUTTON) != 0 && self.col + 1 < INPUT_COLS {
            self.col = self.col + 1;
            updated = true;
        }
        if (buttons & A_BUTTON) != 0 {
            buffer.push(input_key(self.row, self.col));
            updated = true;
        }
        if (buttons & B_BUTTON) != 0 {
            buffer.pop();
            updated = true;
        }
        KeyboardUpdate { updated, submit: (buttons & START_BUTTON) != 0 }
    }

    /// The lines that show the text typed so far and the keyboard: `Input: `
    /// and the text, then the four rows of keys.
    pub fn lines(&self, buffer: &str) -> (lines: Vec<String>)
        ensures
            lines@.len() == INPUT_ROWS + 1,
            lines@[0]@ == "Input: "@ + buffer@,
            forall|r: int|
                0 <= r < INPUT_ROWS ==> (#[trigger] lines@[r + 1])@ == input_row_text(
                    r,
                    INPUT_COLS as int,
                    self.row(),
                    self.col(),
                ),
    {
        let mut lines: Vec<String> = Vec::new();
        let mut prompt = String::new();
        push_text(&mut prompt, "Input: ");
        push_text(&mut prompt, buffer);
        assert(Seq::<char>::empty() + "Input: "@ =~= "Input: "@);
        lines.push(prompt);
        let mut row: usize = 0;
        while row < INPUT_ROWS
            invariant
                row <= INPUT_ROWS,
                lines@.len() == row + 1,
                lines@[0]@ == "Input: "@ + buffer@,
                forall|r: int|
                    0 <= r < row ==> (#[trigger] lines@[r + 1])@ == input_row_text(
                        r,
                        INPUT_COLS as int,
                        self.row(),
                        self.col(),
                    ),
            decreases INPUT_ROWS - row,
        {
            let mut line = String::new();
            let mut col: usize = 0;
            while col < INPUT_COLS
                invariant
                    col <= INPUT_COLS,
                    row < INPUT_ROWS,
                    line@ == input_row_text(row as int, col as int, self.row(), self.col()),
                decreases INPUT_COLS - col,
            {
                let key = input_key(row, col);
                let ghost before = line@;
                if row == self.row && col == self.col {
                    line.push('[');
                    line.push(key);
                    line.push(']');
                    assert(line@ =~= before + seq!['[', key, ']']);
                } else {
                    line.push(' ');
                    line.push(key);
                    line.push(' ');
                    assert(line@ =~= before + seq![' ', key, ' ']);
                }
                col += 1;
            }
            let ghost before = lines@;
            lines.push(line);
            assert forall|r: int| 0 <= r < row + 1 implies (#[trigger] lines@[r + 1])@ == input_row_text(
                r,
                INPUT_COLS as int,
                self.row(),
                self.col(),
            ) by {
                if r < row {
                    assert(lines@[r + 1] == before[r + 1]);
                }
            }
            row += 1;
        }
        lines
    }
}

} // verus!
