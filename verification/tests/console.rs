use gavin_rust_blog_os::device::{Buffer, Slots};
use gavin_rust_blog_os::vga_buffer::{
    Color, ColorCode, ScreenChar, Writer, _print, BUFFER_HEIGHT, BUFFER_WIDTH,
};
use spin::Mutex;
use volatile::Volatile;

const LAST: usize = BUFFER_HEIGHT - 1;

fn display(raw: u16) -> &'static mut Slots {
    Box::leak(Box::new(core::array::from_fn(|_| {
        core::array::from_fn(|_| Volatile::new(raw))
    })))
}

fn yellow() -> ColorCode {
    ColorCode::new(Color::Yellow, Color::Black)
}

fn writer() -> Writer {
    Writer::new(Buffer::new(display(0)), yellow())
}

fn cleared() -> Writer {
    let mut w = writer();
    for _ in 0..BUFFER_HEIGHT {
        w.write_byte(b'\n');
    }
    w
}

fn cell(byte: u8) -> ScreenChar {
    ScreenChar { ascii_character: byte, color_code: yellow() }
}

fn row(w: &Writer, r: usize) -> Vec<u8> {
    (0..BUFFER_WIDTH).map(|c| w.read(r, c).unwrap().ascii_character).collect()
}

fn text_of(w: &Writer, r: usize) -> String {
    String::from_utf8(row(w, r)).unwrap().trim_end().to_string()
}

fn padded(line: &str) -> Vec<u8> {
    let mut bytes = line.as_bytes().to_vec();
    bytes.resize(BUFFER_WIDTH, b' ');
    bytes
}

fn snapshot(w: &Writer) -> Vec<ScreenChar> {
    let mut cells = Vec::new();
    for r in 0..BUFFER_HEIGHT {
        for c in 0..BUFFER_WIDTH {
            cells.push(w.read(r, c).unwrap());
        }
    }
    cells
}

#[test]
fn buffer_reads_what_display_memory_holds() {
    let slots = display(0x0720);
    slots[0][0].write(0x0e48);
    slots[LAST][BUFFER_WIDTH - 1].write(0x1f21);
    let buffer = Buffer::new(slots);
    assert_eq!(buffer.read(0, 0), cell(b'H'));
    assert_eq!(
        buffer.read(LAST, BUFFER_WIDTH - 1),
        ScreenChar { ascii_character: b'!', color_code: ColorCode(0x1f) }
    );
    assert_eq!(
        buffer.read(12, 40),
        ScreenChar { ascii_character: b' ', color_code: ColorCode(0x07) }
    );
}

#[test]
fn buffer_write_replaces_one_cell() {
    let mut buffer = Buffer::new(display(0x0720));
    let blank = ScreenChar { ascii_character: b' ', color_code: ColorCode(0x07) };
    buffer.write(3, 5, cell(b'x'));
    for r in 0..BUFFER_HEIGHT {
        for c in 0..BUFFER_WIDTH {
            let expected = if (r, c) == (3, 5) { cell(b'x') } else { blank };
            assert_eq!(buffer.read(r, c), expected);
        }
    }
    buffer.write(3, 5, cell(b'y'));
    assert_eq!(buffer.read(3, 5), cell(b'y'));
}

#[test]
fn writer_scrolls_what_the_buffer_was_given() {
    let mut buffer = Buffer::new(display(0));
    buffer.write(7, 9, cell(b'Q'));
    assert_eq!(buffer.read(7, 9).encode(), 0x0e51);
    let mut w = Writer::new(buffer, yellow());
    for _ in 0..7 {
        w.write_byte(b'\n');
    }
    assert_eq!(w.read(0, 9), Some(cell(b'Q')));
    w.write_byte(b'\n');
    for r in 0..BUFFER_HEIGHT {
        assert_ne!(w.read(r, 9), Some(cell(b'Q')));
    }
}

#[test]
fn new_writer_starts_at_column_zero_and_keeps_the_display() {
    let buffer = display(0x1f41);
    buffer[3][7].write(0x0e42);
    let w = Writer::new(Buffer::new(buffer), yellow());
    assert_eq!(w.column_position(), 0);
    assert_eq!(w.color_code(), ColorCode(0x0e));
    assert_eq!(
        w.read(0, 0),
        Some(ScreenChar { ascii_character: b'A', color_code: ColorCode(0x1f) })
    );
    assert_eq!(w.read(3, 7), Some(cell(b'B')));
    assert_eq!(
        w.read(LAST, BUFFER_WIDTH - 1),
        Some(ScreenChar { ascii_character: b'A', color_code: ColorCode(0x1f) })
    );
}

#[test]
fn read_outside_the_grid_is_none() {
    let w = writer();
    assert_eq!(w.read(BUFFER_HEIGHT, 0), None);
    assert_eq!(w.read(0, BUFFER_WIDTH), None);
    assert_eq!(w.read(usize::MAX, usize::MAX), None);
    assert!(w.read(LAST, BUFFER_WIDTH - 1).is_some());
}

#[test]
fn write_byte_places_the_cell_in_the_last_row() {
    let mut w = cleared();
    w.write_byte(b'H');
    w.write_byte(b'i');
    assert_eq!(w.read(LAST, 0), Some(cell(b'H')));
    assert_eq!(w.read(LAST, 1), Some(cell(b'i')));
    assert_eq!(w.read(LAST, 2), Some(cell(b' ')));
    assert_eq!(w.column_position(), 2);
    for r in 0..LAST {
        assert_eq!(row(&w, r), padded(""));
    }
}

#[test]
fn write_byte_stores_the_active_attribute() {
    let mut w = Writer::new(Buffer::new(display(0)), ColorCode::new(Color::White, Color::Blue));
    w.write_byte(b'x');
    assert_eq!(
        w.read(LAST, 0),
        Some(ScreenChar { ascii_character: b'x', color_code: ColorCode(0x1f) })
    );
}

#[test]
fn write_byte_stores_any_byte_but_the_line_break() {
    let mut w = cleared();
    w.write_byte(0x00);
    w.write_byte(0xff);
    w.write_byte(0x09);
    assert_eq!(w.read(LAST, 0), Some(cell(0x00)));
    assert_eq!(w.read(LAST, 1), Some(cell(0xff)));
    assert_eq!(w.read(LAST, 2), Some(cell(0x09)));
    assert_eq!(w.column_position(), 3);
}

#[test]
fn line_break_scrolls_and_resets_the_cursor() {
    let mut w = cleared();
    w.write_byte(b'a');
    w.write_byte(b'b');
    w.write_byte(b'\n');
    assert_eq!(w.column_position(), 0);
    assert_eq!(row(&w, LAST - 1), padded("ab"));
    assert_eq!(row(&w, LAST), padded(""));
    for c in 0..BUFFER_WIDTH {
        assert_eq!(w.read(LAST, c), Some(cell(b' ')));
    }
}

#[test]
fn line_break_at_column_zero_still_scrolls() {
    let mut w = cleared();
    w.write_str("first\n").unwrap();
    assert_eq!(w.column_position(), 0);
    assert_eq!(text_of(&w, LAST - 1), "first");
    w.write_byte(b'\n');
    assert_eq!(w.column_position(), 0);
    assert_eq!(text_of(&w, LAST - 2), "first");
    assert_eq!(row(&w, LAST - 1), padded(""));
    assert_eq!(row(&w, LAST), padded(""));
}

#[test]
fn scroll_moves_every_row_up_by_one() {
    let buffer = display(0);
    for r in 0..BUFFER_HEIGHT {
        for c in 0..BUFFER_WIDTH {
            buffer[r][c].write(((r as u16) << 8) | c as u16);
        }
    }
    let mut w = Writer::new(Buffer::new(buffer), yellow());
    w.write_byte(b'\n');
    for r in 0..LAST {
        for c in 0..BUFFER_WIDTH {
            assert_eq!(
                w.read(r, c),
                Some(ScreenChar { ascii_character: c as u8, color_code: ColorCode(r as u8 + 1) })
            );
        }
    }
    for c in 0..BUFFER_WIDTH {
        assert_eq!(w.read(LAST, c), Some(cell(b' ')));
    }
}

#[test]
fn a_full_row_wraps_before_the_next_byte() {
    let mut w = cleared();
    for i in 0..BUFFER_WIDTH {
        w.write_byte(b'a' + (i % 26) as u8);
    }
    assert_eq!(w.column_position(), BUFFER_WIDTH);
    assert_eq!(w.read(LAST, BUFFER_WIDTH - 1), Some(cell(b'a' + 1)));
    assert_eq!(row(&w, LAST - 1), padded(""));
    w.write_byte(b'Z');
    assert_eq!(w.column_position(), 1);
    assert_eq!(w.read(LAST, 0), Some(cell(b'Z')));
    assert_eq!(w.read(LAST, 1), Some(cell(b' ')));
    for i in 0..BUFFER_WIDTH {
        assert_eq!(w.read(LAST - 1, i), Some(cell(b'a' + (i % 26) as u8)));
    }
}

#[test]
fn a_full_row_followed_by_a_line_break_scrolls_once() {
    let mut w = cleared();
    let line = "x".repeat(BUFFER_WIDTH);
    w.write_str(&line).unwrap();
    w.write_byte(b'\n');
    assert_eq!(w.column_position(), 0);
    assert_eq!(row(&w, LAST - 1), line.as_bytes());
    assert_eq!(row(&w, LAST - 2), padded(""));
    assert_eq!(row(&w, LAST), padded(""));
}

#[test]
fn cursor_column_after_every_byte() {
    let mut w = writer();
    let mut expected = 0;
    for i in 0..1000usize {
        let byte = if i % 37 == 36 { b'\n' } else { b'!' + (i % 90) as u8 };
        w.write_byte(byte);
        expected = if byte == b'\n' {
            0
        } else if expected == BUFFER_WIDTH {
            1
        } else {
            expected + 1
        };
        assert_eq!(w.column_position(), expected);
        assert!(w.column_position() <= BUFFER_WIDTH);
        if byte == b'\n' {
            assert_eq!(w.column_position(), 0);
        } else {
            assert!(w.column_position() >= 1);
            assert_eq!(w.read(LAST, w.column_position() - 1), Some(cell(byte)));
        }
    }
}

#[test]
fn long_text_wraps_without_a_marker() {
    let mut w = cleared();
    let text: String = (0..200).map(|i| (b'0' + (i % 10) as u8) as char).collect();
    w.write_str(&text).unwrap();
    assert_eq!(row(&w, LAST - 2), text.as_bytes()[0..80].to_vec());
    assert_eq!(row(&w, LAST - 1), text.as_bytes()[80..160].to_vec());
    assert_eq!(text_of(&w, LAST), &text[160..200]);
    assert_eq!(w.column_position(), 40);
}

#[test]
fn write_str_returns_ok() {
    let mut w = writer();
    assert_eq!(w.write_str(""), Ok(()));
    assert_eq!(w.write_str("plain"), Ok(()));
    assert_eq!(w.write_str("\u{1f601}\0\u{7f}"), Ok(()));
}

#[test]
fn empty_text_changes_nothing() {
    let mut w = cleared();
    w.write_str("abc").unwrap();
    let before = snapshot(&w);
    w.write_str("").unwrap();
    assert_eq!(snapshot(&w), before);
    assert_eq!(w.column_position(), 3);
}

#[test]
fn printable_bytes_are_written_as_they_are() {
    let mut w = cleared();
    let all: String = (0x20u8..=0x7e).map(|b| b as char).collect();
    w.write_str(&all[0..80]).unwrap();
    for (i, b) in (0x20u8..0x70).enumerate() {
        assert_eq!(w.read(LAST, i), Some(cell(b)));
    }
    w.write_str(&all[80..]).unwrap();
    for (i, b) in (0x70u8..=0x7e).enumerate() {
        assert_eq!(w.read(LAST, i), Some(cell(b)));
    }
}

#[test]
fn unprintable_bytes_become_the_placeholder() {
    for byte in 0u8..=0x7f {
        if (0x20..=0x7e).contains(&byte) || byte == b'\n' {
            continue;
        }
        let mut w = cleared();
        let text = String::from_utf8(vec![b'<', byte, b'>']).unwrap();
        w.write_str(&text).unwrap();
        assert_eq!(w.read(LAST, 0), Some(cell(b'<')));
        assert_eq!(w.read(LAST, 1), Some(cell(0xfe)));
        assert_eq!(w.read(LAST, 2), Some(cell(b'>')));
        assert_eq!(w.column_position(), 3);
    }
}

#[test]
fn edges_of_the_printable_range() {
    let mut w = cleared();
    w.write_str("\u{1f}\u{20}\u{7e}\u{7f}").unwrap();
    assert_eq!(w.read(LAST, 0), Some(cell(0xfe)));
    assert_eq!(w.read(LAST, 1), Some(cell(0x20)));
    assert_eq!(w.read(LAST, 2), Some(cell(0x7e)));
    assert_eq!(w.read(LAST, 3), Some(cell(0xfe)));
}

#[test]
fn multi_byte_characters_show_one_placeholder_for_each_byte() {
    let mut w = cleared();
    w.write_str("a\u{e9}b").unwrap();
    assert_eq!(row(&w, LAST)[0..5], [b'a', 0xfe, 0xfe, b'b', b' ']);
    assert_eq!(w.column_position(), 4);

    let mut w = cleared();
    w.write_str("Hello, with a newline! \u{1f601}\n").unwrap();
    let mut expected = b"Hello, with a newline! ".to_vec();
    expected.extend_from_slice(&[0xfe; 4]);
    expected.resize(BUFFER_WIDTH, b' ');
    assert_eq!(row(&w, LAST - 1), expected);
    assert_eq!(w.column_position(), 0);
}

#[test]
fn text_never_stores_a_byte_that_cannot_be_rendered() {
    let mut w = cleared();
    let mut text = String::new();
    for code in 0u32..0x300 {
        text.push(char::from_u32(code).unwrap());
    }
    w.write_str(&text).unwrap();
    for cell in snapshot(&w) {
        let b = cell.ascii_character;
        assert!((0x20..=0x7e).contains(&b) || b == 0xfe);
        assert_eq!(cell.color_code, yellow());
    }
}

#[test]
fn a_line_and_a_break_stand_above_the_blank_last_row() {
    let mut w = cleared();
    let line = "Here is a simple output";
    w.write_str(line).unwrap();
    w.write_byte(b'\n');
    for (i, b) in line.bytes().enumerate() {
        assert_eq!(w.read(LAST - 1, i), Some(cell(b)));
    }
    for c in line.len()..BUFFER_WIDTH {
        assert_eq!(w.read(LAST - 1, c), Some(cell(b' ')));
    }
    for c in 0..BUFFER_WIDTH {
        assert_eq!(w.read(LAST, c), Some(cell(b' ')));
    }
    assert_eq!(w.column_position(), 0);
}

#[test]
fn as_many_lines_as_rows_keep_the_most_recent_in_view() {
    let mut w = cleared();
    let lines: Vec<String> = (0..BUFFER_HEIGHT).map(|i| format!("line number {}", i)).collect();
    for (i, line) in lines.iter().enumerate() {
        w.write_str(line).unwrap();
        if i + 1 == lines.len() {
            assert_eq!(row(&w, LAST), padded(&lines[BUFFER_HEIGHT - 1]));
            assert_eq!(row(&w, LAST - 1), padded(&lines[BUFFER_HEIGHT - 2]));
            for k in 0..BUFFER_HEIGHT {
                assert_eq!(row(&w, LAST - k), padded(&lines[BUFFER_HEIGHT - 1 - k]));
            }
        }
        w.write_byte(b'\n');
    }
    assert_eq!(row(&w, LAST), padded(""));
    for k in 1..BUFFER_HEIGHT {
        assert_eq!(row(&w, LAST - k), padded(&lines[BUFFER_HEIGHT - k]));
    }
    let shown: Vec<String> = (0..BUFFER_HEIGHT).map(|r| text_of(&w, r)).collect();
    assert!(!shown.contains(&lines[0]));
    assert_eq!(w.column_position(), 0);
}

#[test]
fn fewer_lines_than_rows_push_the_old_rows_up() {
    let mut w = cleared();
    w.write_str("old one\nold two\n").unwrap();
    w.write_str("new one\nnew two\nnew three\n").unwrap();
    assert_eq!(text_of(&w, LAST - 1), "new three");
    assert_eq!(text_of(&w, LAST - 2), "new two");
    assert_eq!(text_of(&w, LAST - 3), "new one");
    assert_eq!(text_of(&w, LAST - 4), "old two");
    assert_eq!(text_of(&w, LAST - 5), "old one");
    assert_eq!(text_of(&w, LAST - 6), "");
}

#[test]
fn many_lines_leave_the_last_ones_in_view() {
    let mut w = writer();
    for i in 0..250 {
        w.write_str(&format!("stress line {}\n", i)).unwrap();
    }
    assert_eq!(w.column_position(), 0);
    assert_eq!(row(&w, LAST), padded(""));
    for k in 1..BUFFER_HEIGHT {
        assert_eq!(row(&w, LAST - k), padded(&format!("stress line {}", 250 - k)));
    }
    for cell in snapshot(&w) {
        assert_eq!(cell.color_code, yellow());
    }
}

#[test]
fn two_writes_show_what_one_write_of_both_shows() {
    let first = "Hello, with no newline";
    let second = "!\nsecond line that is long enough to wrap over the end of the row, or so one hopes, by a few bytes\n\u{e9}";
    let mut split = cleared();
    split.write_str(first).unwrap();
    split.write_str(second).unwrap();
    let mut joined = cleared();
    joined.write_str(&format!("{}{}", first, second)).unwrap();
    assert_eq!(snapshot(&split), snapshot(&joined));
    assert_eq!(split.column_position(), joined.column_position());
}

#[test]
fn write_str_is_write_byte_for_each_byte() {
    let text = "tab\there\nand \u{fc}ber";
    let mut by_text = cleared();
    by_text.write_str(text).unwrap();
    let mut by_byte = cleared();
    for b in text.bytes() {
        let shown = if (0x20..=0x7e).contains(&b) || b == b'\n' { b } else { 0xfe };
        by_byte.write_byte(shown);
    }
    assert_eq!(snapshot(&by_text), snapshot(&by_byte));
    assert_eq!(by_text.column_position(), by_byte.column_position());
}

#[test]
fn test_println_simple() {
    let console = Mutex::new(writer());
    _print(&console, "test_println_simple output\n");
}

#[test]
fn test_println_many() {
    let console = Mutex::new(writer());
    for _ in 0..200 {
        _print(&console, "Test of println output\n");
    }
}

#[test]
fn test_println_output() {
    let console = Mutex::new(writer());
    let s = "Here is a simple output";
    _print(&console, &format!("{}\n", s));
    for (i, c) in s.chars().enumerate() {
        let screen_char = console.lock().read(BUFFER_HEIGHT - 2, i).unwrap();
        assert_eq!(char::from(screen_char.ascii_character), c);
    }
}

#[test]
fn print_writes_through_the_lock_and_releases_it() {
    let console = Mutex::new(cleared());
    _print(&console, "Hello, with no newline");
    _print(&console, "!");
    assert!(console.try_lock().is_some());
    _print(&console, "\n");
    _print(&console, "O___O");
    let w = console.lock();
    assert_eq!(text_of(&w, LAST - 1), "Hello, with no newline!");
    assert_eq!(text_of(&w, LAST), "O___O");
    assert_eq!(w.column_position(), 5);
}

#[test]
fn a_second_holder_is_kept_out_while_the_lock_is_held() {
    let console = Mutex::new(cleared());
    {
        let mut outer = console.lock();
        outer.write_str("AAAA").unwrap();
        assert!(console.try_lock().is_none());
        outer.write_str("AAAA").unwrap();
    }
    _print(&console, "BBBB");
    let w = console.lock();
    assert_eq!(text_of(&w, LAST), "AAAAAAAABBBB");
}

#[test]
fn interleaved_callers_are_never_mixed_within_a_call() {
    let console = Mutex::new(cleared());
    let a = "a".repeat(BUFFER_WIDTH - 1) + "\n";
    let b = "b".repeat(BUFFER_WIDTH - 1) + "\n";
    let mut order = Vec::new();
    for turn in 0..100usize {
        let first = turn % 3 != 0;
        _print(&console, if first { &a } else { &b });
        order.push(first);
        let retry = console.try_lock();
        assert!(retry.is_some());
        assert!(console.try_lock().is_none());
        drop(retry);
    }
    let w = console.lock();
    assert_eq!(row(&w, LAST), padded(""));
    for k in 1..BUFFER_HEIGHT {
        let text = text_of(&w, LAST - k);
        let expected = if order[order.len() - k] { a.trim_end() } else { b.trim_end() };
        assert_eq!(text, expected);
    }
}
