use hexler::ascii_renderer::write_ascii_cell;
use hexler::blocks::count_lines;
use hexler::byte_to_color::{byte_kind, color, reset, ByteKind};
use hexler::error::HexlerError;
use hexler::hex_formatter::{write_hex_cell, write_offset};
use hexler::line_writer::{Border, LineWriter};
use hexler::text::{decimal, hex_len, push_hex};
use hexler::BufferWriter;

/// How many columns `text` takes on a terminal.
fn columns(text: &str) -> usize {
    let mut inside = false;
    let mut count = 0;
    for c in text.chars() {
        if inside {
            inside = c != 'm';
        } else if c == '\x1b' {
            inside = true;
        } else if c != '\n' {
            count += 1;
        }
    }
    count
}

fn text_of(write: impl Fn(&mut Vec<u8>)) -> String {
    let mut out = Vec::new();
    write(&mut out);
    String::from_utf8(out).unwrap()
}

#[test]
fn bytes_per_line_must_be_whole_groups() {
    for n in [8, 16, 24, 80, 65544] {
        assert_eq!(LineWriter::new_bytes(n).unwrap().bytes_per_line(), n);
    }
    for n in [0, 1, 4, 7, 9, 12, 17, usize::MAX] {
        match LineWriter::new_bytes(n) {
            Err(HexlerError::InvalidBytesPerLine(m)) => assert_eq!(m, n),
            _ => panic!("{} bytes per line were taken", n),
        }
    }
}

#[test]
fn widths_are_used_best() {
    for (width, bytes) in [
        (0, 8),
        (42, 8),
        (43, 8),
        (75, 8),
        (76, 16),
        (80, 16),
        (108, 16),
        (109, 24),
        (150, 32),
    ] {
        let line_writer = LineWriter::new_max_width(width).unwrap();
        assert_eq!(line_writer.bytes_per_line(), bytes);
    }
    let widest = LineWriter::new_max_width(usize::MAX).unwrap();
    assert_eq!(widest.bytes_per_line(), (usize::MAX - 10) / 33 * 8);
}

#[test]
fn full_lines_are_as_wide_as_bars() {
    for bytes in [8, 16, 24, 32] {
        let line_writer = LineWriter::new_bytes(bytes).unwrap();
        let line = text_of(|out| line_writer.write_line(out, 16, &vec![65; bytes]));
        let shorter = text_of(|out| line_writer.write_line(out, 16, &vec![65; bytes - 3]));
        let bar = text_of(|out| line_writer.write_border(out, Border::Footer, "").unwrap());
        assert_eq!(columns(&line), 10 + 33 * bytes / 8);
        assert_eq!(columns(&shorter), columns(&line) - 3);
        assert_eq!(columns(&bar), columns(&line));
    }
}

#[test]
fn borders_hold_the_title_on_their_outer_side() {
    let line_writer = LineWriter::new_bytes(8).unwrap();
    let bar = "─".repeat(43);
    let border = |border: Border, title: &str| {
        text_of(|out| line_writer.write_border(out, border, title).unwrap())
    };
    assert_eq!(border(Border::Header, "über"), format!("über\n{}\n", bar));
    assert_eq!(border(Border::Footer, "end"), format!("{}\nend\n", bar));
    assert_eq!(border(Border::Header, ""), format!("{}\n", bar));
    assert_eq!(border(Border::Footer, ""), format!("{}\n", bar));
}

#[test]
fn a_line_may_hold_more_bytes_than_asked_for() {
    let line_writer = LineWriter::new_bytes(8).unwrap();
    let line = text_of(|out| line_writer.write_line(out, 0, &[0x31; 9]));
    assert_eq!(line.matches("31\x1b[0m").count(), 9);
}

#[test]
fn writing_a_line_keeps_what_was_there() {
    let line_writer = LineWriter::new_bytes(8).unwrap();
    let line = text_of(|out| {
        out.extend_from_slice(b"before ");
        line_writer.write_line(out, 0, b"");
    });
    assert!(line.starts_with("before 00000000  "));
}

#[test]
fn block_lines_replace_what_was_there() {
    let line_writer = LineWriter::new_bytes(8).unwrap();
    let line = text_of(|out| {
        out.extend_from_slice(b"before ");
        line_writer.write_block_line(out, 16, 3, b"");
    });
    assert!(line.starts_with("00000028  "));
}

#[test]
fn byte_kinds_have_their_colors() {
    for (b, kind, escape) in [
        (0, ByteKind::Null, "\x1b[90m"),
        (9, ByteKind::Whitespace, "\x1b[32m"),
        (13, ByteKind::Whitespace, "\x1b[32m"),
        (32, ByteKind::Whitespace, "\x1b[32m"),
        (33, ByteKind::Printable, "\x1b[36m"),
        (126, ByteKind::Printable, "\x1b[36m"),
        (8, ByteKind::Control, "\x1b[35m"),
        (14, ByteKind::Control, "\x1b[35m"),
        (127, ByteKind::Control, "\x1b[35m"),
        (128, ByteKind::Extended, "\x1b[33m"),
        (255, ByteKind::Extended, "\x1b[33m"),
    ] {
        assert_eq!(byte_kind(b), kind);
        assert_eq!(color(b), escape);
    }
    assert_eq!(reset(), "\x1b[0m");
}

#[test]
fn cells_are_exact() {
    assert_eq!(text_of(|out| write_hex_cell(out, 0x0a)), "\x1b[32m0a\x1b[0m");
    assert_eq!(text_of(|out| write_hex_cell(out, 0xff)), "\x1b[33mff\x1b[0m");
    assert_eq!(text_of(|out| write_ascii_cell(out, b'~')), "\x1b[36m~\x1b[0m");
    assert_eq!(text_of(|out| write_ascii_cell(out, 0x7f)), "\x1b[35m.\x1b[0m");
    assert_eq!(text_of(|out| write_ascii_cell(out, b' ')), "\x1b[32m \x1b[0m");
}

#[test]
fn numbers_are_exact() {
    assert_eq!(text_of(|out| write_offset(out, 0)), "00000000");
    assert_eq!(text_of(|out| write_offset(out, 0xabc)), "00000abc");
    assert_eq!(text_of(|out| write_offset(out, 0x1_2345_6789)), "123456789");
    assert_eq!(text_of(|out| push_hex(out, 0xdeadbeef)), "deadbeef");
    assert_eq!(hex_len(0), 1);
    assert_eq!(hex_len(0x10000), 5);
    assert_eq!(decimal(0), "0");
    assert_eq!(decimal(1234567890), "1234567890");
}

#[test]
fn lines_are_counted() {
    assert_eq!(count_lines(0, 8), 0);
    assert_eq!(count_lines(1, 8), 1);
    assert_eq!(count_lines(8, 8), 1);
    assert_eq!(count_lines(9, 8), 2);
    assert_eq!(count_lines(usize::MAX, 1), usize::MAX);
}

#[test]
fn a_buffer_keeps_what_is_written() {
    let mut writer = BufferWriter::new();
    assert_eq!(writer.get_output_as_string(), "");
    assert_eq!(writer.write(b"gr").unwrap(), 2);
    assert_eq!(writer.write("ün".as_bytes()).unwrap(), 3);
    assert!(writer.flush().is_ok());
    assert_eq!(writer.get_output_as_string(), "grün");
}

#[test]
fn bytes_that_are_not_utf8_are_replaced() {
    let mut writer = BufferWriter::new();
    writer.write(b"a\xffb").unwrap();
    assert_eq!(writer.get_output_as_string(), "a\u{fffd}b");
}
