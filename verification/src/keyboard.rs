//! An on-screen keyboard: a cursor over three rows of ten keys.

use vstd::prelude::*;
use crate::n64_sys::{
    A_BUTTON, B_BUTTON, DOWN_BUTTON, LEFT_BUTTON, RIGHT_BUTTON, START_BUTTON, UP_BUTTON,
};

verus! {

/// Number of rows of keys.
pub const KEY_ROWS: usize = 3;

/// Number of keys in a row.
pub const KEY_COLS: usize = 10;

/// The key in row `row` and column `col`: the letters `a` to `z` in reading
/// order, then space, hyphen, full stop and question mark.
pub open spec fn key_spec(row: int, col: int) -> char {
    let index = row * 10 + col;
    if index < 26 {
        ('a' as u32 + index) as char
    } else if index == 26 {
        ' '
    } else if index == 27 {
        '-'
    } else if index == 28 {
        '.'
    } else {
        '?'
    }
}

/// The key in row `row` and column `col`.
pub fn key_at(row: usize, col: usize) -> (c: char)
    requires
        row < KEY_ROWS,
        col < KEY_COLS,
    ensures
        c == key_spec(row as int, col as int),
{
    let index: usize = row * 10 + col;
    match index {
        0 => 'a',
        1 => 'b',
        2 => 'c',
        3 => 'd',
        4 => 'e',
        5 => 'f',
        6 => 'g',
        7 => 'h',
        8 => 'i',
        9 => 'j',
        10 => 'k',
        11 => 'l',
        12 => 'm',
        13 => 'n',
        14 => 'o',
        15 => 'p',
        16 => 'q',
        17 => 'r',
        18 => 's',
        19 => 't',
        20 => 'u',
        21 => 'v',
        22 => 'w',
        23 => 'x',
        24 => 'y',
        25 => 'z',
        26 => ' ',
        27 => '-',
        28 => '.',
        _ => '?',
    }
}

/// The keyboard's cursor.
#[derive(Debug, Clone, Copy, PartialEq, Eq, Structural)]
pub struct OnScreenKeyboard {
    cursor_x: usize,
    cursor_y: usize,
}

/// Whether `button` is among the pressed `buttons`.
pub open spec fn pressed(buttons: u16, button: u16) -> bool {
    buttons & button != 0
}

/// The text after the keys `A` and `B` have had their say: `A` types the key
/// under the cursor, then `B` deletes the last character.
pub open spec fn typed(text: Seq<char>, buttons: u16, key: char) -> Seq<char> {
    let after_a = if pressed(buttons, A_BUTTON) {
        text.push(key)
    } else {
        text
    };
    if pressed(buttons, B_BUTTON) && after_a.len() > 0 {
        after_a.drop_last()
    } else {
        after_a
    }
}

/// The cursor column after left and right have had their say, left first.
pub open spec fn moved_x(x: int, buttons: u16) -> int {
    let left = if pressed(buttons, LEFT_BUTTON) && x > 0 {
        x - 1
    } else {
        x
    };
    if pressed(buttons, RIGHT_BUTTON) && left + 1 < KEY_COLS {
        left + 1
    } else {
        left
    }
}

/// The cursor row after up and down have had their say, up first.
pub open spec fn moved_y(y: int, buttons: u16) -> int {
    let up = if pressed(buttons, UP_BUTTON) && y > 0 {
        y - 1
    } else {
        y
    };
    if pressed(buttons, DOWN_BUTTON) && up + 1 < KEY_ROWS {
        up + 1
    } else {
        up
    }
}

/// One key as it is drawn: in brackets under the cursor, between spaces
/// elsewhere.
pub open spec fn cell(key: char, selected: bool) -> Seq<char> {
    if selected {
        seq!['[', key, ']']
    } else {
        seq![' ', key, ' ']
    }
}

/// The first `cols` keys of row `row` as they are drawn with the cursor at
/// `(x, y)`.
pub open spec fn row_text(row: int, cols: int, x: int, y: int) -> Seq<char>
    decreases cols,
{
    if cols <= 0 {
        Seq::empty()
    } else {
        row_text(row, cols - 1, x, y) + cell(key_spec(row, cols - 1), x == cols - 1 && y == row)
    }
}

impl OnScreenKeyboard {
    /// Column of the cursor.
    pub closed spec fn x(&self) -> int {
        self.cursor_x as int
    }

    /// Row of the cursor.
    pub closed spec fn y(&self) -> int {
        self.cursor_y as int
    }

    /// The cursor lies on a key.
    #[verifier::type_invariant]
    closed spec fn inv(&self) -> bool {
        self.cursor_x < KEY_COLS && self.cursor_y < KEY_ROWS
    }

    /// A keyboard with the cursor on the first key.
    pub fn new() -> (k: Self)
        ensures
            k.x() == 0,
            k.y() == 0,
    {
        OnScreenKeyboard { cursor_x: 0, cursor_y: 0 }
    }

    /// The three lines of the keyboard, top row first.
    pub fn draw(&self) -> (lines: Vec<String>)
        ensures
            lines@.len() == KEY_ROWS,
            forall|r: int|
                0 <= r < KEY_ROWS ==> (#[trigger] lines@[r])@ == row_text(
                    r,
                    KEY_COLS as int,
                    self.x(),
                    self.y(),
                ),
    {
        let mut lines: Vec<String> = Vec::new();
        let mut row: usize = 0;
        while row < KEY_ROWS
            invariant
                row <= KEY_ROWS,
                lines@.len() == row,
                forall|r: int|
                    0 <= r < row ==> (#[trigger] lines@[r])@ == row_text(
                        r,
                        KEY_COLS as int,
                        self.x(),
                        self.y(),
                    ),
            decreases KEY_ROWS - row,
        {
            let mut line = String::new();
            let mut col: usize = 0;
            while col < KEY_COLS
                invariant
                    col <= KEY_COLS,
                    row < KEY_ROWS,
                    line@ == row_text(row as int, col as int, self.x(), self.y()),
                decreases KEY_COLS - col,
            {
                let key = key_at(row, col);
                let ghost before = line@;
                if self.cursor_x == col && self.cursor_y == row {
                    line.push('[');
                    line.push(key);
                    line.push(']');
                } else {
                    line.push(' ');
                    line.push(key);
                    line.push(' ');
                }
                assert(line@ =~= before + cell(key, self.x() == col && self.y() == row));
                col += 1;
            }
            lines.push(line);
            row += 1;
        }
        lines
    }

    /// Applies the pressed `buttons` to the cursor and the text.
    ///
    /// `START` submits: nothing else is looked at and `true` is returned.
    /// Otherwise `A` types the key under the cursor, `B` deletes the last
    /// character, and the directions move the cursor by one key where there
    /// is one, all judged in this order.
    pub fn handle_input(&mut self, buttons: u16, buffer: &mut String) -> (submit: bool)
        ensures
            submit == pressed(buttons, START_BUTTON),
            submit ==> *final(self) == *old(self) && final(buffer)@ == old(buffer)@,
            !submit ==> {
                &&& final(buffer)@ == typed(old(buffer)@, buttons, key_spec(old(self).y(), old(self).x()))
                &&& final(self).x() == moved_x(old(self).x(), buttons)
                &&& final(self).y() == moved_y(old(self).y(), buttons)
            },
    {
        proof {
            use_type_invariant(&*self);
        }
        if (buttons & START_BUTTON) != 0 {
            return true;
        }
        if (buttons & A_BUTTON) != 0 {
            buffer.push(key_at(self.cursor_y, self.cursor_x));
        }
        if (buttons & B_BUTTON) != 0 {
            buffer.pop();
        }
        if (buttons & LEFT_BUTTON) != 0 && self.cursor_x > 0 {
            self.cursor_x = self.cursor_x - 1;
        }
        if (buttons & RIGHT_BUTTON) != 0 && self.cursor_x + 1 < KEY_COLS {
            self.cursor_x = self.cursor_x + 1;
        }
        if (buttons & UP_BUTTON) != 0 && self.cursor_y > 0 {
            self.cursor_y = self.cursor_y - 1;
        }
        if (buttons & DOWN_BUTTON) != 0 && self.cursor_y + 1 < KEY_ROWS {
            self.cursor_y = self.cursor_y + 1;
        }
        false
    }
}

} // verus!
