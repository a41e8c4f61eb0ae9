use hexler::line_writer::LineWriter;
use hexler::{demo, dump, BufferWriter};

#[test]
fn test_dump_empty() {
    let test_data = b"";

    let mut writer = BufferWriter::new();
    let mut line_writer = LineWriter::new_bytes(8).unwrap();

    let result = dump("Empty", test_data, &mut line_writer, &mut writer);
    assert!(result.is_ok());

    let output = writer.get_output_as_string();
    assert!(output.contains("Empty"));
    assert!(output.contains("─"));
}

#[test]
fn test_dump_single_byte() {
    let test_data = b"x";

    let mut writer = BufferWriter::new();
    let mut line_writer = LineWriter::new_bytes(8).unwrap();

    let result = dump("Test", test_data, &mut line_writer, &mut writer);
    assert!(result.is_ok());

    let output = writer.get_output_as_string();
    assert!(output.contains("78"));
    assert!(output.contains("Test"));
}

#[test]
fn test_dump_multiple_lines() {
    let test_data: Vec<u8> = (0..=255).collect();

    let mut writer = BufferWriter::new();
    let mut line_writer = LineWriter::new_bytes(16).unwrap();

    let result = dump("Multi-line test", &test_data, &mut line_writer, &mut writer);
    assert!(result.is_ok());

    let output = writer.get_output_as_string();
    assert!(output.contains("Multi-line test"));
    assert!(output.contains("00"));
    assert!(output.contains("ff"));
    let line_count = output.lines().count();
    assert!(line_count >= 18);
}

#[test]
fn test_dump_partial_line() {
    let test_data = b"Hello";

    let mut writer = BufferWriter::new();
    let mut line_writer = LineWriter::new_bytes(16).unwrap();

    let result = dump("Partial", test_data, &mut line_writer, &mut writer);
    assert!(result.is_ok());

    let output = writer.get_output_as_string();
    assert!(output.contains("48"));
    assert!(output.contains("65"));
    assert!(output.contains("6c"));
    assert!(output.contains("6f"));
}

#[test]
fn test_line_writer_invalid_bytes_per_line() {
    let result = LineWriter::new_bytes(4);
    assert!(result.is_err());

    let result = LineWriter::new_bytes(12);
    assert!(result.is_err());

    assert!(LineWriter::new_bytes(8).is_ok());
    assert!(LineWriter::new_bytes(16).is_ok());
    assert!(LineWriter::new_bytes(24).is_ok());
}

#[test]
fn test_line_writer_max_width_calculation() {
    let line_writer = LineWriter::new_max_width(50).unwrap();
    assert_eq!(line_writer.bytes_per_line(), 8);

    let line_writer = LineWriter::new_max_width(150).unwrap();
    assert!(line_writer.bytes_per_line() >= 16);
}

#[test]
fn test_dump_with_various_byte_values() {
    let test_data = vec![0x00, 0x0a, 0x20, 0x41, 0x7f, 0xff];

    let mut writer = BufferWriter::new();
    let mut line_writer = LineWriter::new_bytes(8).unwrap();

    let result = dump("Various bytes", &test_data, &mut line_writer, &mut writer);
    assert!(result.is_ok());

    let output = writer.get_output_as_string();
    assert!(output.contains("00"));
    assert!(output.contains("0a"));
    assert!(output.contains("20"));
    assert!(output.contains("41"));
    assert!(output.contains("7f"));
    assert!(output.contains("ff"));
}

#[test]
fn test_border_output() {
    let test_data = b"test";

    let mut writer = BufferWriter::new();
    let mut line_writer = LineWriter::new_bytes(8).unwrap();

    let result = dump("Border Test", test_data, &mut line_writer, &mut writer);
    assert!(result.is_ok());

    let output = writer.get_output_as_string();
    assert!(output.contains("Border Test"));
    assert!(output.contains("─"));
    let line_count = output.lines().count();
    assert!(line_count >= 3);
}

#[test]
fn test_exact_buffer_boundary() {
    const READ_SIZE: usize = 64 * 1024;
    let test_data: Vec<u8> = (0..READ_SIZE).map(|i| (i % 256) as u8).collect();

    let mut writer = BufferWriter::new();
    let mut line_writer = LineWriter::new_bytes(16).unwrap();

    let result = dump("Buffer boundary", &test_data, &mut line_writer, &mut writer);
    assert!(result.is_ok());

    let output = writer.get_output_as_string();
    assert!(!output.is_empty());
    let line_count = output.lines().count();
    assert!(line_count >= 4098);
}

#[test]
fn a_small_dump_is_exact() {
    let mut writer = BufferWriter::new();
    let mut line_writer = LineWriter::new_bytes(8).unwrap();
    dump("T", b"A\n\x00\xff ", &mut line_writer, &mut writer).unwrap();
    let bar = "─".repeat(43);
    let expected = format!(
        "T\n{bar}\n00000000  \
         \x1b[36m41\x1b[0m \x1b[32m0a\x1b[0m \x1b[90m00\x1b[0m \x1b[33mff\x1b[0m \x1b[32m20\x1b[0m\
         \u{20}  \u{20}  \u{20}    \
         \x1b[36mA\x1b[0m\x1b[32m.\x1b[0m\x1b[90m.\x1b[0m\x1b[33m.\x1b[0m\x1b[32m \x1b[0m\n{bar}\n",
    );
    assert_eq!(writer.get_output_as_string(), expected);
}

#[test]
fn demo_shows_every_byte() {
    let mut line_writer = LineWriter::new_bytes(16).unwrap();
    let mut shown = BufferWriter::new();
    demo(&mut line_writer, &mut shown).unwrap();
    let mut dumped = BufferWriter::new();
    let data: Vec<u8> = (0..=255).collect();
    dump("demo, 256 bytes, 0 to 255", &data, &mut line_writer, &mut dumped).unwrap();
    assert_eq!(shown.get_output_as_string(), dumped.get_output_as_string());
    assert_eq!(shown.get_output_as_string().lines().count(), 19);
}
