//! Lines of text on the display: where a line stands after it is written,
//! and which lines remain in view as later lines scroll it up.

use crate::screen::{
    blank_cell, blank_row, is_printable, lemma_new_line, lemma_plain_text, lemma_text_keeps_size,
    lemma_bytes_keep_size, lemma_write_text_push, Screen, LINE_BREAK,
};
use crate::vga_buffer::{ColorCode, ScreenChar, BUFFER_HEIGHT, BUFFER_WIDTH};
use vstd::prelude::*;

verus! {

/// The cells that show the bytes in the given attribute.
pub open spec fn cells_of(bytes: Seq<u8>, color: ColorCode) -> Seq<ScreenChar> {
    bytes.map_values(|b: u8| ScreenChar { ascii_character: b, color_code: color })
}

/// The row with `cells` laid over it from column `at` on.
pub open spec fn overlay(row: Seq<ScreenChar>, at: int, cells: Seq<ScreenChar>) -> Seq<ScreenChar> {
    Seq::new(
        row.len(),
        |c: int|
            if at <= c < at + cells.len() {
                cells[c - at]
            } else {
                row[c]
            },
    )
}

/// A whole row that shows `line` from column 0 on and blanks after it.
pub open spec fn padded(line: Seq<u8>, color: ColorCode) -> Seq<ScreenChar> {
    overlay(blank_row(color), 0, cells_of(line, color))
}

/// A line of printable bytes that fits in one row.
pub open spec fn is_line(line: Seq<u8>) -> bool {
    &&& line.len() <= BUFFER_WIDTH
    &&& forall|i: int| 0 <= i < line.len() ==> is_printable(#[trigger] line[i])
}

impl Screen {
    /// The effect of writing each line followed by a line break, first line
    /// to last.
    pub open spec fn write_lines(self, lines: Seq<Seq<u8>>) -> Screen
        decreases lines.len(),
    {
        if lines.len() == 0 {
            self
        } else {
            self.write_lines(lines.drop_last()).write_text(lines.last().push(LINE_BREAK))
        }
    }
}

/// Bytes that fit in what is left of the last row, none of them a line break,
/// are placed side by side from the cursor on. Nothing scrolls and no other
/// cell changes.
pub proof fn lemma_write_within_row(screen: Screen, bytes: Seq<u8>)
    requires
        screen.wf(),
        screen.column + bytes.len() <= BUFFER_WIDTH,
        forall|i: int| 0 <= i < bytes.len() ==> #[trigger] bytes[i] != LINE_BREAK,
    ensures
        screen.write_bytes(bytes) == (Screen {
            rows: screen.rows.update(
                BUFFER_HEIGHT - 1,
                overlay(screen.last_row(), screen.column as int, cells_of(bytes, screen.color)),
            ),
            column: screen.column + bytes.len(),
            color: screen.color,
        }),
    decreases bytes.len(),
{
    let target = Screen {
        rows: screen.rows.update(
            BUFFER_HEIGHT - 1,
            overlay(screen.last_row(), screen.column as int, cells_of(bytes, screen.color)),
        ),
        column: screen.column + bytes.len(),
        color: screen.color,
    };
    if bytes.len() == 0 {
        assert(target.rows =~~= screen.rows);
    } else {
        let init = bytes.drop_last();
        lemma_write_within_row(screen, init);
        let before = screen.write_bytes(init);
        assert(before.wrapped() == before);
        assert(screen.write_bytes(bytes).rows =~~= target.rows);
    }
}

/// A line written at the start of a blank last row and followed by a line
/// break stands in the row above the last: its bytes from column 0 on, each in
/// the active attribute, and blanks in the rest of the row. The last row is
/// blank again, the cursor is back at column 0, and the rows above have moved
/// up by one.
pub proof fn lemma_line_above_last_row(screen: Screen, line: Seq<u8>)
    requires
        screen.wf(),
        screen.column == 0,
        screen.last_row() == blank_row(screen.color),
        is_line(line),
    ensures
        screen.write_text(line.push(LINE_BREAK)).wf(),
        screen.write_text(line.push(LINE_BREAK)).column == 0,
        screen.write_text(line.push(LINE_BREAK)).color == screen.color,
        screen.write_text(line.push(LINE_BREAK)).last_row() == blank_row(screen.color),
        screen.write_text(line.push(LINE_BREAK)).rows[BUFFER_HEIGHT - 2] == padded(line, screen.color),
        forall|c: int|
            0 <= c < line.len() ==> #[trigger] screen.write_text(line.push(LINE_BREAK)).rows[BUFFER_HEIGHT
                - 2][c] == (ScreenChar { ascii_character: line[c], color_code: screen.color }),
        forall|c: int|
            line.len() <= c < BUFFER_WIDTH ==> #[trigger] screen.write_text(
                line.push(LINE_BREAK),
            ).rows[BUFFER_HEIGHT - 2][c] == blank_cell(screen.color),
        forall|r: int|
            0 <= r < BUFFER_HEIGHT - 2 ==> #[trigger] screen.write_text(line.push(LINE_BREAK)).rows[r]
                == screen.rows[r + 1],
{
    lemma_write_text_push(screen, line, LINE_BREAK);
    lemma_plain_text(screen, line);
    lemma_write_within_row(screen, line);
    let written = screen.write_bytes(line);
    lemma_bytes_keep_size(screen, line);
    lemma_new_line(written);
}

/// After any number of lines, each written from the start of a blank last
/// row and followed by a line break, the display shows the most recent lines
/// and nothing else of them: the last line stands in the row above the last
/// row, the line before it one row higher, and so on up to the top row. Lines
/// older than that have scrolled off. Where fewer lines were written than
/// there are rows above the last, what the display showed before stands above
/// them, moved up by their number. The last row is blank.
pub proof fn lemma_lines_scroll(screen: Screen, lines: Seq<Seq<u8>>)
    requires
        screen.wf(),
        screen.column == 0,
        screen.last_row() == blank_row(screen.color),
        forall|i: int| 0 <= i < lines.len() ==> is_line(#[trigger] lines[i]),
    ensures
        screen.write_lines(lines).wf(),
        screen.write_lines(lines).column == 0,
        screen.write_lines(lines).color == screen.color,
        screen.write_lines(lines).last_row() == blank_row(screen.color),
        forall|k: int|
            1 <= k <= lines.len() && k <= BUFFER_HEIGHT - 1 ==> #[trigger] screen.write_lines(
                lines,
            ).rows[BUFFER_HEIGHT - 1 - k] == padded(lines[lines.len() - k], screen.color),
        forall|r: int|
            0 <= r && r + lines.len() < BUFFER_HEIGHT - 1 ==> #[trigger] screen.write_lines(lines).rows[r]
                == screen.rows[r + lines.len()],
    decreases lines.len(),
{
    if lines.len() > 0 {
        let init = lines.drop_last();
        let before = screen.write_lines(init);
        let after = screen.write_lines(lines);
        lemma_lines_scroll(screen, init);
        lemma_line_above_last_row(before, lines.last());
        assert forall|k: int| 1 <= k <= lines.len() && k <= BUFFER_HEIGHT - 1 implies #[trigger] after.rows[BUFFER_HEIGHT
            - 1 - k] == padded(lines[lines.len() - k], screen.color) by {
            if k > 1 {
                assert(after.rows[BUFFER_HEIGHT - 1 - k] == before.rows[BUFFER_HEIGHT - 1 - (k - 1)]);
                assert(init[init.len() - (k - 1)] == lines[lines.len() - k]);
            }
        }
        assert forall|r: int| 0 <= r && r + lines.len() < BUFFER_HEIGHT - 1 implies #[trigger] after.rows[r]
            == screen.rows[r + lines.len()] by {
            assert(after.rows[r] == before.rows[r + 1]);
        }
    }
}

/// Writing two runs of lines one after the other is writing them as one run.
pub proof fn lemma_write_lines_concat(screen: Screen, first: Seq<Seq<u8>>, second: Seq<Seq<u8>>)
    ensures
        screen.write_lines(first + second) == screen.write_lines(first).write_lines(second),
    decreases second.len(),
{
    if second.len() == 0 {
        assert(first + second =~= first);
    } else {
        lemma_write_lines_concat(screen, first, second.drop_last());
        assert((first + second).drop_last() =~= first + second.drop_last());
    }
}

/// Whatever the display showed and wherever the cursor stood: after a run of
/// lines, each followed by a line break, the lines after the first stand in
/// the rows above the last row, the last line lowest, as far up as there are
/// rows. So after as many lines as the display has rows, it shows the most
/// recent of them, one fewer than it has rows, above a blank last row, and
/// nothing else. Of the first text nothing is asked: it may be of any length
/// and hold any bytes.
pub proof fn lemma_recent_lines_in_view(screen: Screen, lines: Seq<Seq<u8>>)
    requires
        screen.wf(),
        lines.len() >= 1,
        forall|i: int| 1 <= i < lines.len() ==> is_line(#[trigger] lines[i]),
    ensures
        screen.write_lines(lines).wf(),
        screen.write_lines(lines).column == 0,
        screen.write_lines(lines).color == screen.color,
        screen.write_lines(lines).last_row() == blank_row(screen.color),
        forall|k: int|
            1 <= k < lines.len() && k <= BUFFER_HEIGHT - 1 ==> #[trigger] screen.write_lines(
                lines,
            ).rows[BUFFER_HEIGHT - 1 - k] == padded(lines[lines.len() - k], screen.color),
{
    let head = seq![lines[0]];
    let tail = lines.subrange(1, lines.len() as int);
    assert(lines =~= head + tail);
    lemma_write_lines_concat(screen, head, tail);
    let started = screen.write_lines(head);
    assert(started == screen.write_text(lines[0].push(LINE_BREAK))) by {
        assert(head.drop_last() =~= Seq::<Seq<u8>>::empty());
        assert(screen.write_lines(head.drop_last()) == screen);
    }
    lemma_write_text_push(screen, lines[0], LINE_BREAK);
    lemma_text_keeps_size(screen, lines[0]);
    lemma_new_line(screen.write_text(lines[0]));
    lemma_lines_scroll(started, tail);
    let after = screen.write_lines(lines);
    assert forall|k: int| 1 <= k < lines.len() && k <= BUFFER_HEIGHT - 1 implies #[trigger] after.rows[BUFFER_HEIGHT
        - 1 - k] == padded(lines[lines.len() - k], screen.color) by {
        assert(tail[tail.len() - k] == lines[lines.len() - k]);
    }
}

/// The same with one more line in progress: after a run of lines, each
/// followed by a line break, and one more line without a line break, that
/// line stands in the last row with the cursor behind it, the line before it
/// in the row above, and so on up to the top row.
pub proof fn lemma_recent_lines_with_line_in_progress(
    screen: Screen,
    lines: Seq<Seq<u8>>,
    current: Seq<u8>,
)
    requires
        screen.wf(),
        lines.len() >= 1,
        forall|i: int| 1 <= i < lines.len() ==> is_line(#[trigger] lines[i]),
        is_line(current),
    ensures
        screen.write_lines(lines).write_text(current).wf(),
        screen.write_lines(lines).write_text(current).column == current.len(),
        screen.write_lines(lines).write_text(current).color == screen.color,
        screen.write_lines(lines).write_text(current).last_row() == padded(current, screen.color),
        forall|k: int|
            1 <= k < lines.len() && k <= BUFFER_HEIGHT - 1 ==> #[trigger] screen.write_lines(
                lines,
            ).write_text(current).rows[BUFFER_HEIGHT - 1 - k] == padded(
                lines[lines.len() - k],
                screen.color,
            ),
{
    let before = screen.write_lines(lines);
    lemma_recent_lines_in_view(screen, lines);
    lemma_plain_text(before, current);
    lemma_write_within_row(before, current);
    lemma_bytes_keep_size(before, current);
    let after = before.write_text(current);
    assert forall|k: int| 1 <= k < lines.len() && k <= BUFFER_HEIGHT - 1 implies #[trigger] after.rows[BUFFER_HEIGHT
        - 1 - k] == padded(lines[lines.len() - k], screen.color) by {
        assert(after.rows[BUFFER_HEIGHT - 1 - k] == before.rows[BUFFER_HEIGHT - 1 - k]);
    }
}

} // verus!
