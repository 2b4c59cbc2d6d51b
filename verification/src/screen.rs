//! What the console shows, as a value: the grid of cells, the cursor column
//! and the active attribute, with the effect of each write as a function on
//! that value.

use crate::vga_buffer::{ColorCode, ScreenChar, BUFFER_HEIGHT, BUFFER_WIDTH};
use vstd::prelude::*;

verus! {

/// The byte that breaks a line.
pub const LINE_BREAK: u8 = 0x0a;

/// The byte shown in place of one that the device cannot render.
pub const PLACEHOLDER: u8 = 0xfe;

/// The byte of a blank cell.
pub const SPACE: u8 = 0x20;

/// Printable ASCII: `0x20` to `0x7e`.
pub open spec fn is_printable(byte: u8) -> bool {
    0x20 <= byte <= 0x7e
}

/// The byte that is written for a byte of text: the byte itself where it is
/// printable or breaks the line, the placeholder for every other byte.
pub open spec fn rendered(byte: u8) -> u8 {
    if is_printable(byte) || byte == LINE_BREAK {
        byte
    } else {
        PLACEHOLDER
    }
}

/// A blank cell in the given attribute.
pub open spec fn blank_cell(color: ColorCode) -> ScreenChar {
    ScreenChar { ascii_character: SPACE, color_code: color }
}

/// A row of blank cells in the given attribute.
pub open spec fn blank_row(color: ColorCode) -> Seq<ScreenChar> {
    Seq::new(BUFFER_WIDTH as nat, |c: int| blank_cell(color))
}

/// The state of the console: `rows[r][c]` is the cell in row `r`, column `c`,
/// row 0 at the top; `column` is where the next character goes in the last
/// row; `color` is the attribute given to every cell written from now on.
pub struct Screen {
    pub rows: Seq<Seq<ScreenChar>>,
    pub column: nat,
    pub color: ColorCode,
}

impl Screen {
    /// The grid has its fixed size and the cursor is within the last row or
    /// just past its end.
    pub open spec fn wf(self) -> bool {
        &&& self.rows.len() == BUFFER_HEIGHT
        &&& forall|r: int| 0 <= r < BUFFER_HEIGHT ==> (#[trigger] self.rows[r]).len() == BUFFER_WIDTH
        &&& self.column <= BUFFER_WIDTH
    }

    /// The last row, where all writing happens.
    pub open spec fn last_row(self) -> Seq<ScreenChar> {
        self.rows[BUFFER_HEIGHT - 1]
    }

    /// Scroll and reset: every row moves up by one, the top row is lost, the
    /// last row becomes blank and the cursor returns to column 0.
    pub open spec fn new_line(self) -> Screen {
        Screen {
            rows: self.rows.subrange(1, BUFFER_HEIGHT as int).push(blank_row(self.color)),
            column: 0,
            color: self.color,
        }
    }

    /// The state in which the cursor has room for one more character: the
    /// state itself, or the scrolled one where the last row is full.
    pub open spec fn wrapped(self) -> Screen {
        if self.column >= BUFFER_WIDTH {
            self.new_line()
        } else {
            self
        }
    }

    /// The state with `cell` placed at the cursor and the cursor advanced.
    pub open spec fn put(self, cell: ScreenChar) -> Screen {
        Screen {
            rows: self.rows.update(
                BUFFER_HEIGHT - 1,
                self.last_row().update(self.column as int, cell),
            ),
            column: self.column + 1,
            color: self.color,
        }
    }

    /// The effect of writing one byte: a line break scrolls; any other byte
    /// is placed at the cursor in the active attribute, after a scroll where
    /// the last row was full.
    pub open spec fn write_byte(self, byte: u8) -> Screen {
        if byte == LINE_BREAK {
            self.new_line()
        } else {
            self.wrapped().put(ScreenChar { ascii_character: byte, color_code: self.color })
        }
    }

    /// The effect of writing the bytes one after another, first to last.
    pub open spec fn write_bytes(self, bytes: Seq<u8>) -> Screen
        decreases bytes.len(),
    {
        if bytes.len() == 0 {
            self
        } else {
            self.write_bytes(bytes.drop_last()).write_byte(bytes.last())
        }
    }

    /// The effect of writing text given by its bytes: each byte is written as
    /// [`rendered`] gives it.
    pub open spec fn write_text(self, bytes: Seq<u8>) -> Screen {
        self.write_bytes(bytes.map_values(|b: u8| rendered(b)))
    }
}

/// A byte that the device can render: printable ASCII or the placeholder.
pub open spec fn is_renderable(byte: u8) -> bool {
    is_printable(byte) || byte == PLACEHOLDER
}

impl Screen {
    /// Every cell of the grid holds a byte that the device can render.
    pub open spec fn shows_only_renderable(self) -> bool {
        forall|r: int, c: int|
            0 <= r < BUFFER_HEIGHT && 0 <= c < BUFFER_WIDTH ==> is_renderable(
                (#[trigger] self.rows[r][c]).ascii_character,
            )
    }
}

/// A line break leaves a well-formed state with the cursor at column 0 of a
/// blank last row, whatever the cursor and the last row were before.
pub proof fn lemma_new_line(screen: Screen)
    requires
        screen.wf(),
    ensures
        screen.new_line().wf(),
        screen.new_line().column == 0,
        screen.new_line().color == screen.color,
        screen.new_line().last_row() == blank_row(screen.color),
        forall|r: int| 0 <= r < BUFFER_HEIGHT - 1 ==> #[trigger] screen.new_line().rows[r] == screen.rows[r + 1],
{
}

/// Where the cursor stands after one byte is written: at column 0 after a
/// line break; after any other byte one past where the byte was placed, which
/// is within the row unless the byte filled the row's last column.
pub proof fn lemma_write_byte_column(screen: Screen, byte: u8)
    requires
        screen.wf(),
    ensures
        screen.write_byte(byte).wf(),
        screen.write_byte(byte).color == screen.color,
        byte == LINE_BREAK ==> screen.write_byte(byte).column == 0,
        byte != LINE_BREAK ==> 1 <= screen.write_byte(byte).column <= BUFFER_WIDTH,
        byte != LINE_BREAK ==> screen.write_byte(byte).column == if screen.column == BUFFER_WIDTH {
            1
        } else {
            screen.column + 1
        },
        byte != LINE_BREAK && screen.column != BUFFER_WIDTH - 1 ==> screen.write_byte(byte).column
            < BUFFER_WIDTH,
{
    lemma_new_line(screen);
}

/// However many bytes are written, the grid keeps its size, the cursor stays
/// within the last row or just past its end, and the attribute stays.
pub proof fn lemma_bytes_keep_size(screen: Screen, bytes: Seq<u8>)
    requires
        screen.wf(),
    ensures
        screen.write_bytes(bytes).wf(),
        screen.write_bytes(bytes).color == screen.color,
    decreases bytes.len(),
{
    if bytes.len() > 0 {
        lemma_bytes_keep_size(screen, bytes.drop_last());
        lemma_write_byte_column(screen.write_bytes(bytes.drop_last()), bytes.last());
    }
}

/// The same for text: whatever is written, the grid keeps its size, the
/// cursor stays within the last row or just past its end, and the attribute
/// stays.
pub proof fn lemma_text_keeps_size(screen: Screen, bytes: Seq<u8>)
    requires
        screen.wf(),
    ensures
        screen.write_text(bytes).wf(),
        screen.write_text(bytes).color == screen.color,
{
    lemma_bytes_keep_size(screen, bytes.map_values(|b: u8| rendered(b)));
}

/// Writing two stretches of bytes one after the other is writing them as one.
pub proof fn lemma_write_bytes_concat(screen: Screen, first: Seq<u8>, second: Seq<u8>)
    ensures
        screen.write_bytes(first + second) == screen.write_bytes(first).write_bytes(second),
    decreases second.len(),
{
    if second.len() == 0 {
        assert(first + second =~= first);
    } else {
        lemma_write_bytes_concat(screen, first, second.drop_last());
        assert((first + second).drop_last() =~= first + second.drop_last());
    }
}

/// Two writes of text, one after the other, show what one write of the two
/// texts joined shows: the second continues where the first left the cursor,
/// and no byte of one falls between two bytes of the other.
pub proof fn lemma_write_text_concat(screen: Screen, first: Seq<u8>, second: Seq<u8>)
    ensures
        screen.write_text(first + second) == screen.write_text(first).write_text(second),
{
    let f = |b: u8| rendered(b);
    assert((first + second).map_values(f) =~= first.map_values(f) + second.map_values(f));
    lemma_write_bytes_concat(screen, first.map_values(f), second.map_values(f));
}

/// The bytes of the texts, one text after another.
pub open spec fn joined(texts: Seq<Seq<u8>>) -> Seq<u8>
    decreases texts.len(),
{
    if texts.len() == 0 {
        Seq::empty()
    } else {
        joined(texts.drop_last()) + texts.last()
    }
}

impl Screen {
    /// The effect of writing each text as a whole, first text to last.
    pub open spec fn write_texts(self, texts: Seq<Seq<u8>>) -> Screen
        decreases texts.len(),
    {
        if texts.len() == 0 {
            self
        } else {
            self.write_texts(texts.drop_last()).write_text(texts.last())
        }
    }
}

/// Writes that take their turn one after another, each as a whole, show what
/// a single write of all their texts in that order shows. What the display
/// shows is settled by the order of the writes alone: the bytes of one write
/// stay together.
pub proof fn lemma_writes_in_turn(screen: Screen, texts: Seq<Seq<u8>>)
    ensures
        screen.write_texts(texts) == screen.write_text(joined(texts)),
    decreases texts.len(),
{
    if texts.len() == 0 {
        assert(joined(texts).map_values(|b: u8| rendered(b)) =~= Seq::<u8>::empty());
    } else {
        lemma_writes_in_turn(screen, texts.drop_last());
        lemma_write_text_concat(screen, joined(texts.drop_last()), texts.last());
    }
}

/// Text of printable bytes and line breaks is written as it is.
pub proof fn lemma_plain_text(screen: Screen, bytes: Seq<u8>)
    requires
        forall|i: int| 0 <= i < bytes.len() ==> is_printable(#[trigger] bytes[i]) || bytes[i] == LINE_BREAK,
    ensures
        screen.write_text(bytes) == screen.write_bytes(bytes),
{
    assert(bytes.map_values(|b: u8| rendered(b)) =~= bytes);
}

/// A byte of text that is neither printable nor a line break is never
/// stored: the placeholder is placed at the cursor in its stead.
pub proof fn lemma_unprintable_replaced(screen: Screen, byte: u8)
    requires
        screen.wf(),
        !is_printable(byte),
        byte != LINE_BREAK,
    ensures
        screen.write_text(seq![byte]) == screen.write_byte(PLACEHOLDER),
        screen.write_text(seq![byte]).column >= 1,
        screen.write_text(seq![byte]).last_row()[screen.write_text(seq![byte]).column - 1] == (ScreenChar {
            ascii_character: PLACEHOLDER,
            color_code: screen.color,
        }),
{
    let text = seq![byte];
    let shown = text.map_values(|b: u8| rendered(b));
    assert(shown.drop_last() =~= Seq::<u8>::empty());
    assert(shown.last() == PLACEHOLDER);
    assert(screen.write_bytes(shown.drop_last()) == screen);
    lemma_new_line(screen);
}

/// Text never puts a byte on the display that the device cannot render: a
/// grid of renderable bytes stays one, whatever text is written.
pub proof fn lemma_text_keeps_renderable(screen: Screen, bytes: Seq<u8>)
    requires
        screen.wf(),
        screen.shows_only_renderable(),
    ensures
        screen.write_text(bytes).wf(),
        screen.write_text(bytes).shows_only_renderable(),
    decreases bytes.len(),
{
    if bytes.len() > 0 {
        let before = screen.write_text(bytes.drop_last());
        lemma_text_keeps_renderable(screen, bytes.drop_last());
        assert(bytes =~= bytes.drop_last().push(bytes.last()));
        lemma_write_text_push(screen, bytes.drop_last(), bytes.last());
        lemma_write_byte_column(before, rendered(bytes.last()));
        lemma_new_line(before);
        let after = before.write_byte(rendered(bytes.last()));
        assert forall|r: int, c: int| 0 <= r < BUFFER_HEIGHT && 0 <= c < BUFFER_WIDTH implies is_renderable(
            (#[trigger] after.rows[r][c]).ascii_character,
        ) by {
            if r < BUFFER_HEIGHT - 1 {
                assert(is_renderable(before.rows[r][c].ascii_character));
                assert(is_renderable(before.rows[r + 1][c].ascii_character));
            } else {
                assert(is_renderable(before.rows[r][c].ascii_character));
            }
        }
    } else {
        assert(bytes.map_values(|b: u8| rendered(b)) =~= Seq::<u8>::empty());
    }
}

/// Writing text that ends in `byte` is writing the text before it and then
/// the byte as it is rendered.
pub proof fn lemma_write_text_push(screen: Screen, bytes: Seq<u8>, byte: u8)
    ensures
        screen.write_text(bytes.push(byte)) == screen.write_text(bytes).write_byte(rendered(byte)),
{
    let f = |b: u8| rendered(b);
    let all = bytes.push(byte).map_values(f);
    assert(all.drop_last() =~= bytes.map_values(f));
    assert(all.last() == rendered(byte));
}

} // verus!
