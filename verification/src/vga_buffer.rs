//! The console writer: colors, cells, and the cursor that appends text to the
//! last row of the display, wrapping and scrolling as it goes.

use crate::device::Buffer;
use crate::screen::{
    blank_cell, blank_row, lemma_write_text_push, Screen, LINE_BREAK, PLACEHOLDER, SPACE,
};
use core::ops::DerefMut;
use spin::Mutex;
use vstd::prelude::*;
use vstd::string::StringSliceAdditionalSpecFns;

verus! {

/// The sixteen colors of the text-mode palette, in palette order.
#[derive(Debug, Clone, Copy, PartialEq, Eq, Structural)]
pub enum Color {
    Black,
    Blue,
    Green,
    Cyan,
    Red,
    Magenta,
    Brown,
    LightGray,
    DarkGray,
    LightBlue,
    LightGreen,
    LightCyan,
    LightRed,
    Pink,
    Yellow,
    White,
}

impl Color {
    /// The palette index of a color, 0 to 15.
    pub open spec fn spec_index(self) -> u8 {
        match self {
            Color::Black => 0,
            Color::Blue => 1,
            Color::Green => 2,
            Color::Cyan => 3,
            Color::Red => 4,
            Color::Magenta => 5,
            Color::Brown => 6,
            Color::LightGray => 7,
            Color::DarkGray => 8,
            Color::LightBlue => 9,
            Color::LightGreen => 10,
            Color::LightCyan => 11,
            Color::LightRed => 12,
            Color::Pink => 13,
            Color::Yellow => 14,
            Color::White => 15,
        }
    }

    /// The palette index of the color.
    #[verifier::when_used_as_spec(spec_index)]
    pub fn index(self) -> (i: u8)
        ensures
            i == self.spec_index(),
            i < 16,
    {
        match self {
            Color::Black => 0,
            Color::Blue => 1,
            Color::Green => 2,
            Color::Cyan => 3,
            Color::Red => 4,
            Color::Magenta => 5,
            Color::Brown => 6,
            Color::LightGray => 7,
            Color::DarkGray => 8,
            Color::LightBlue => 9,
            Color::LightGreen => 10,
            Color::LightCyan => 11,
            Color::LightRed => 12,
            Color::Pink => 13,
            Color::Yellow => 14,
            Color::White => 15,
        }
    }
}

/// The attribute byte of a cell: foreground in the low four bits, background
/// in the high four.
#[derive(Debug, Clone, Copy, PartialEq, Eq, Structural)]
pub struct ColorCode(pub u8);

/// The attribute byte for a foreground and a background color: the
/// background's index shifted into the high four bits, the foreground's index
/// in the low four.
pub open spec fn packed(foreground: Color, background: Color) -> u8 {
    (background.spec_index() << 4) | foreground.spec_index()
}

impl ColorCode {
    /// The attribute byte that shows `foreground` on `background`.
    pub fn new(foreground: Color, background: Color) -> (code: ColorCode)
        ensures
            code.0 == packed(foreground, background),
    {
        ColorCode((background.index() << 4) | foreground.index())
    }
}

/// The two nibbles of an attribute byte are the two palette indices, and the
/// byte is sixteen times the background's index plus the foreground's.
pub proof fn lemma_packed_nibbles(foreground: Color, background: Color)
    ensures
        packed(foreground, background) & 0x0f == foreground.spec_index(),
        packed(foreground, background) >> 4 == background.spec_index(),
        packed(foreground, background) == 16 * background.spec_index() + foreground.spec_index(),
{
    let f = foreground.spec_index();
    let b = background.spec_index();
    assert(f < 16 && b < 16);
    assert(((b << 4) | f) & 0x0f == f) by (bit_vector)
        requires
            f < 16,
            b < 16,
    ;
    assert(((b << 4) | f) >> 4 == b) by (bit_vector)
        requires
            f < 16,
            b < 16,
    ;
    assert(((b << 4) | f) == 16 * b + f) by (bit_vector)
        requires
            f < 16,
            b < 16,
    ;
}

/// One cell of the display: a character code and its attribute byte.
#[derive(Debug, Clone, Copy, PartialEq, Eq, Structural)]
pub struct ScreenChar {
    pub ascii_character: u8,
    pub color_code: ColorCode,
}

impl ScreenChar {
    /// The 16-bit word that the device holds for a cell: the character code
    /// in the low byte, the attribute in the high byte. The display is a
    /// device of little-endian machines, where the low byte of a word is its
    /// first byte in memory.
    pub open spec fn spec_encode(self) -> u16 {
        (256 * self.color_code.0 + self.ascii_character) as u16
    }

    /// The cell that a 16-bit word of display memory stands for.
    pub open spec fn spec_decode(raw: u16) -> ScreenChar {
        ScreenChar { ascii_character: (raw % 256) as u8, color_code: ColorCode((raw / 256) as u8) }
    }

    /// The device word of the cell.
    #[verifier::when_used_as_spec(spec_encode)]
    pub fn encode(self) -> (raw: u16)
        ensures
            raw == self.spec_encode(),
            ScreenChar::spec_decode(raw) == self,
        no_unwind
    {
        (self.color_code.0 as u16) * 256 + (self.ascii_character as u16)
    }

    /// The cell of a device word.
    #[verifier::when_used_as_spec(spec_decode)]
    pub fn decode(raw: u16) -> (cell: ScreenChar)
        ensures
            cell == ScreenChar::spec_decode(raw),
            cell.spec_encode() == raw,
    {
        ScreenChar { ascii_character: (raw % 256) as u8, color_code: ColorCode((raw / 256) as u8) }
    }
}

/// The low eight bits of a cell's device word are its character code, the
/// high eight its attribute byte, and every word is the word of one cell.
pub proof fn lemma_encode_layout(cell: ScreenChar)
    ensures
        cell.spec_encode() & 0xff == cell.ascii_character,
        cell.spec_encode() >> 8 == cell.color_code.0,
        ScreenChar::spec_decode(cell.spec_encode()) == cell,
{
    let low = cell.ascii_character;
    let high = cell.color_code.0;
    let raw = cell.spec_encode();
    assert(raw == 256 * high + low);
    assert(raw & 0xff == low && raw >> 8 == high) by (bit_vector)
        requires
            raw == 256 * (high as u16) + (low as u16),
    ;
}

/// Rows of the display.
pub const BUFFER_HEIGHT: usize = 25;

/// Columns of the display.
pub const BUFFER_WIDTH: usize = 80;

/// The writer of the console. It appends to the last row of the display and
/// scrolls the rows up on each line break.
pub struct Writer {
    column_position: usize,
    color_code: ColorCode,
    buffer: Buffer,
}

impl View for Writer {
    type V = Screen;

    closed spec fn view(&self) -> Screen {
        Screen { rows: self.buffer@, column: self.column_position as nat, color: self.color_code }
    }
}

impl Writer {
    #[verifier::type_invariant]
    spec fn cursor_in_row(&self) -> bool {
        self.column_position <= BUFFER_WIDTH
    }

    /// A writer to the display behind `buffer`, with the cursor at the start
    /// of the last row. The display keeps what it shows.
    pub fn new(buffer: Buffer, color_code: ColorCode) -> (writer: Writer)
        ensures
            writer@ == (Screen { rows: buffer@, column: 0, color: color_code }),
            writer@.wf(),
    {
        proof {
            buffer.lemma_dimensions();
        }
        Writer { column_position: 0, color_code, buffer }
    }

    /// The cursor column.
    pub fn column_position(&self) -> (column: usize)
        ensures
            column == self@.column,
            column <= BUFFER_WIDTH,
            self@.wf(),
    {
        proof {
            use_type_invariant(self);
            self.buffer.lemma_dimensions();
        }
        self.column_position
    }

    /// The active attribute.
    pub fn color_code(&self) -> (color: ColorCode)
        ensures
            color == self@.color,
            self@.wf(),
    {
        proof {
            use_type_invariant(self);
            self.buffer.lemma_dimensions();
        }
        self.color_code
    }

    /// The cell at `row` and `col`, or `None` outside the grid.
    pub fn read(&self, row: usize, col: usize) -> (cell: Option<ScreenChar>)
        ensures
            row < BUFFER_HEIGHT && col < BUFFER_WIDTH ==> cell == Some(self@.rows[row as int][col as int]),
            !(row < BUFFER_HEIGHT && col < BUFFER_WIDTH) ==> cell is None,
            self@.wf(),
    {
        proof {
            use_type_invariant(self);
            self.buffer.lemma_dimensions();
        }
        if row < BUFFER_HEIGHT && col < BUFFER_WIDTH {
            Some(self.buffer.read(row, col))
        } else {
            None
        }
    }

    /// Writes one byte at the cursor in the active attribute. A line break
    /// scrolls the display and returns the cursor to column 0; so does any
    /// other byte that finds the last row full, before it is placed.
    pub fn write_byte(&mut self, byte: u8)
        ensures
            final(self)@ == old(self)@.write_byte(byte),
            final(self)@.wf(),
            byte == LINE_BREAK ==> final(self)@.column == 0,
            byte != LINE_BREAK ==> 1 <= final(self)@.column <= BUFFER_WIDTH,
    {
        if byte == LINE_BREAK {
            self.new_line();
        } else {
            if self.column_position >= BUFFER_WIDTH {
                self.new_line();
            }
            proof {
                use_type_invariant(&*self);
                self.buffer.lemma_dimensions();
            }
            let row = BUFFER_HEIGHT - 1;
            let col = self.column_position;

            let color_code = self.color_code;

            self.buffer.write(row, col, ScreenChar { ascii_character: byte, color_code });

            self.column_position += 1;
        }
    }

    /// Scrolls the display up by one row, blanks the last row and returns the
    /// cursor to column 0.
    fn new_line(&mut self)
        ensures
            final(self)@ == old(self)@.new_line(),
            final(self)@.wf(),
    {
        proof {
            use_type_invariant(&*self);
            self.buffer.lemma_dimensions();
        }
        let mut row: usize = 1;
        while row < BUFFER_HEIGHT
            invariant
                1 <= row <= BUFFER_HEIGHT,
                self.column_position == old(self).column_position,
                self.column_position <= BUFFER_WIDTH,
                self.color_code == old(self).color_code,
                self@.wf(),
                old(self)@.wf(),
                forall|r: int| 0 <= r < row - 1 ==> #[trigger] self@.rows[r] == old(self)@.rows[r + 1],
                forall|r: int| row - 1 <= r < BUFFER_HEIGHT ==> #[trigger] self@.rows[r] == old(self)@.rows[r],
            decreases BUFFER_HEIGHT - row,
        {
            let mut col: usize = 0;
            while col < BUFFER_WIDTH
                invariant
                    1 <= row < BUFFER_HEIGHT,
                    col <= BUFFER_WIDTH,
                    self.column_position == old(self).column_position,
                    self.column_position <= BUFFER_WIDTH,
                    self.color_code == old(self).color_code,
                    self@.wf(),
                    old(self)@.wf(),
                    forall|r: int| 0 <= r < row - 1 ==> #[trigger] self@.rows[r] == old(self)@.rows[r + 1],
                    forall|c: int|
                        0 <= c < col ==> #[trigger] self@.rows[row - 1][c] == old(self)@.rows[row as int][c],
                    forall|r: int| row <= r < BUFFER_HEIGHT ==> #[trigger] self@.rows[r] == old(self)@.rows[r],
                decreases BUFFER_WIDTH - col,
            {
                let character = self.buffer.read(row, col);
                self.buffer.write(row - 1, col, character);
                proof {
                    self.buffer.lemma_dimensions();
                }
                col += 1;
            }
            assert(self@.rows[row - 1] =~= old(self)@.rows[row as int]);
            row += 1;
        }
        self.clear_row(BUFFER_HEIGHT - 1);
        self.column_position = 0;
        assert(self@.rows =~= old(self)@.new_line().rows);
    }

    /// Overwrites every cell of `row` with a blank in the active attribute.
    fn clear_row(&mut self, row: usize)
        requires
            row < BUFFER_HEIGHT,
        ensures
            final(self)@ == (Screen {
                rows: old(self)@.rows.update(row as int, blank_row(old(self)@.color)),
                ..old(self)@
            }),
    {
        proof {
            use_type_invariant(&*self);
            self.buffer.lemma_dimensions();
        }
        let blank_char = ScreenChar { ascii_character: SPACE, color_code: self.color_code };
        let mut col: usize = 0;
        while col < BUFFER_WIDTH
            invariant
                row < BUFFER_HEIGHT,
                col <= BUFFER_WIDTH,
                self.column_position == old(self).column_position,
                self.column_position <= BUFFER_WIDTH,
                self.color_code == old(self).color_code,
                blank_char == blank_cell(self.color_code),
                self@.wf(),
                forall|c: int| 0 <= c < col ==> #[trigger] self@.rows[row as int][c] == blank_char,
                forall|r: int|
                    0 <= r < BUFFER_HEIGHT && r != row ==> #[trigger] self@.rows[r] == old(self)@.rows[r],
            decreases BUFFER_WIDTH - col,
        {
            self.buffer.write(row, col, blank_char);
            proof {
                self.buffer.lemma_dimensions();
            }
            col += 1;
        }
        assert(self@.rows[row as int] =~= blank_row(old(self)@.color));
        assert(self@.rows =~= old(self)@.rows.update(row as int, blank_row(old(self)@.color)));
    }

    /// Writes the bytes of `s` in order. A byte that is neither printable
    /// ASCII nor a line break is written as the placeholder, so text in a
    /// multi-byte encoding shows one placeholder for each of its bytes.
    pub fn write_str(&mut self, s: &str) -> (result: core::fmt::Result)
        ensures
            result is Ok,
            final(self)@ == old(self)@.write_text(s.spec_bytes()),
            final(self)@.wf(),
    {
        proof {
            use_type_invariant(&*self);
            self.buffer.lemma_dimensions();
        }
        let bytes = s.as_bytes();
        let mut i: usize = 0;
        assert(bytes@.take(0) =~= Seq::<u8>::empty());
        while i < bytes.len()
            invariant
                i <= bytes.len(),
                self@ == old(self)@.write_text(bytes@.take(i as int)),
                self@.wf(),
            decreases bytes.len() - i,
        {
            let byte = bytes[i];
            if (0x20 <= byte && byte <= 0x7e) || byte == LINE_BREAK {
                self.write_byte(byte);
            } else {
                self.write_byte(PLACEHOLDER);
            }
            proof {
                assert(bytes@.take(i + 1) =~= bytes@.take(i as int).push(byte));
                lemma_write_text_push(old(self)@, bytes@.take(i as int), byte);
            }
            i += 1;
        }
        assert(bytes@.take(i as int) =~= bytes@);
        Ok(())
    }
}

/// `core::fmt::Error`, the error of formatted output. The writer never
/// returns it.
#[verifier::external_type_specification]
#[verifier::external_body]
pub struct ExFmtError(core::fmt::Error);

/// Writes `text` to the console behind `console`: takes the lock, writes the
/// whole text and releases the lock, so that no other write falls between
/// two of its bytes.
pub fn _print(console: &Mutex<Writer>, text: &str) {
    let mut guard = console.lock();
    let writer = guard.deref_mut();
    writer.write_str(text).unwrap();
}

} // verus!
