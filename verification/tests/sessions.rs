use hexler::error::HexlerError;
use hexler::line_writer::LineWriter;
use hexler::session::{block_len, read_len, Action, Event, Session};
use hexler::{dump, BufferWriter};

/// What a session writes where reads give at most `most` bytes of `data`.
fn run(title: &str, data: &[u8], bytes_per_line: usize, most: usize) -> Vec<u8> {
    let line_writer = LineWriter::new_bytes(bytes_per_line).unwrap();
    let mut session = Session::new(&line_writer);
    let mut out = session.header(title);
    let mut pos = 0;
    let mut event = Event::Written(Vec::new());
    loop {
        event = match session.step(event).unwrap() {
            Action::Read(limit) => {
                let end = data.len().min(pos + limit.min(most));
                let bytes = data[pos..end].to_vec();
                pos = end;
                Event::Received(bytes)
            }
            Action::Write(bytes) => {
                out.extend_from_slice(&bytes);
                Event::Written(bytes)
            }
            Action::Finish(bytes) => {
                out.extend_from_slice(&bytes);
                return out;
            }
        };
    }
}

/// What `dump` writes.
fn dumped(title: &str, data: &[u8], bytes_per_line: usize) -> String {
    let mut line_writer = LineWriter::new_bytes(bytes_per_line).unwrap();
    let mut writer = BufferWriter::new();
    dump(title, data, &mut line_writer, &mut writer).unwrap();
    writer.get_output_as_string()
}

fn pattern(len: usize) -> Vec<u8> {
    (0..len).map(|i| (i * 7 % 251) as u8).collect()
}

#[test]
fn reads_cannot_be_seen_in_the_output() {
    let data = pattern(1000);
    let whole = dumped("pieces", &data, 24);
    for most in [1, 3, 24, 25, 999, 1000, 5000] {
        assert_eq!(run("pieces", &data, 24, most), whole.as_bytes());
    }
}

#[test]
fn blocks_join_without_a_seam() {
    // 65520 is the largest multiple of 24 that is not above 65536.
    assert_eq!(block_len(24), 65520);
    for len in [65519, 65520, 65521, 131040, 131041] {
        let data = pattern(len);
        let whole = dumped("blocks", &data, 24);
        assert_eq!(run("blocks", &data, 24, 4097), whole.as_bytes());
        assert_eq!(whole.lines().count(), 3 + (len + 23) / 24);
    }
}

#[test]
fn offsets_go_on_from_block_to_block() {
    let data = pattern(65536 + 16);
    let whole = dumped("offsets", &data, 16);
    let lines: Vec<&str> = whole.lines().collect();
    assert!(lines[2].starts_with("00000000  "));
    assert!(lines[3].starts_with("00000010  "));
    assert!(lines[2 + 4096].starts_with("00010000  "));
    assert_eq!(lines.len(), 3 + 4097);
}

#[test]
fn block_sizes_are_whole_lines() {
    assert_eq!(block_len(8), 65536);
    assert_eq!(block_len(16), 65536);
    assert_eq!(block_len(65536), 65536);
    assert_eq!(block_len(32776), 32776);
    assert_eq!(block_len(65544), 65544);
    assert_eq!(block_len(1_000_000), 1_000_000);
}

#[test]
fn lines_may_be_longer_than_other_blocks() {
    let shown = dumped("long", b"data", 65544);
    assert_eq!(shown.lines().count(), 4);
    assert!(shown.lines().nth(2).unwrap().starts_with("00000000  \x1b[36m64\x1b[0m "));

    let data = pattern(2 * 65544 + 1);
    let shown = dumped("long", &data, 65544);
    assert_eq!(run("long", &data, 65544, 30000), shown.as_bytes());
    let lines: Vec<&str> = shown.lines().collect();
    assert_eq!(lines.len(), 6);
    assert!(lines[3].starts_with("00010008  "));
    assert!(lines[4].starts_with("00020010  "));
    assert_eq!(lines[3].matches("\x1b[0m").count(), 2 * 65544);
}

#[test]
fn no_read_asks_for_more_than_the_limit() {
    let line_writer = LineWriter::new_bytes(65544).unwrap();
    let mut session = Session::new(&line_writer);
    assert!(matches!(
        session.step(Event::Written(Vec::new())),
        Ok(Action::Read(65536))
    ));
    assert!(matches!(
        session.step(Event::Received(vec![0; 65536])),
        Ok(Action::Read(8))
    ));
    assert!(matches!(
        session.step(Event::Received(vec![0; 8])),
        Ok(Action::Write(_))
    ));
    assert_eq!(read_len(65537), 65536);
    assert_eq!(read_len(7), 7);
}

#[test]
fn a_failed_read_keeps_full_blocks() {
    let line_writer = LineWriter::new_bytes(8).unwrap();
    let data = pattern(65536 + 100);
    let mut session = Session::new(&line_writer);
    let mut out = session.header("lost");
    session.step(Event::Written(Vec::new())).unwrap();
    match session.step(Event::Received(data[..65536].to_vec())) {
        Ok(Action::Write(bytes)) => {
            out.extend_from_slice(&bytes);
            session.step(Event::Written(bytes)).unwrap();
        }
        _ => panic!("lines were expected"),
    }
    session.step(Event::Received(data[65536..].to_vec())).unwrap();
    let error = std::io::Error::new(std::io::ErrorKind::Other, "unplugged");
    assert!(session.step(Event::Failed(error)).is_err());
    let whole = dumped("lost", &data[..65536], 8);
    let footer = format!("{}\n", "─".repeat(43));
    assert_eq!(out, whole.strip_suffix(footer.as_str()).unwrap().as_bytes());
}

#[test]
fn a_used_buffer_leaves_no_trace() {
    let line_writer = LineWriter::new_bytes(8).unwrap();
    let mut session = Session::new(&line_writer);
    session.step(Event::Written(b"leftover".to_vec())).unwrap();
    match session.step(Event::Received(vec![])) {
        Ok(Action::Finish(bytes)) => {
            assert_eq!(bytes, format!("{}\n", "─".repeat(43)).as_bytes());
        }
        _ => panic!("the footer was expected"),
    }
}

#[test]
fn a_session_asks_for_what_is_missing() {
    let line_writer = LineWriter::new_bytes(8).unwrap();
    let mut session = Session::new(&line_writer);
    assert!(matches!(session.step(Event::Written(Vec::new())), Ok(Action::Read(65536))));
    assert!(matches!(
        session.step(Event::Received(vec![0; 36])),
        Ok(Action::Read(65500))
    ));
    assert!(matches!(
        session.step(Event::Received(vec![0; 65500])),
        Ok(Action::Write(_))
    ));
    assert!(matches!(session.step(Event::Written(Vec::new())), Ok(Action::Read(65536))));
    assert!(matches!(
        session.step(Event::Received(vec![])),
        Ok(Action::Finish(_))
    ));
}

#[test]
fn input_can_go_on_behind_an_end() {
    let line_writer = LineWriter::new_bytes(8).unwrap();
    let mut session = Session::new(&line_writer);
    session.step(Event::Written(Vec::new())).unwrap();
    session.step(Event::Received(b"abc".to_vec())).unwrap();
    assert!(matches!(
        session.step(Event::Received(vec![])),
        Ok(Action::Write(_))
    ));
    session.step(Event::Written(Vec::new())).unwrap();
    session.step(Event::Received(b"d".to_vec())).unwrap();
    match session.step(Event::Received(vec![])) {
        Ok(Action::Write(bytes)) => assert!(bytes.starts_with(b"00000003  ")),
        _ => panic!("lines were expected"),
    }
}

#[test]
fn a_failed_read_is_an_io_error() {
    let line_writer = LineWriter::new_bytes(8).unwrap();
    let mut session = Session::new(&line_writer);
    session.step(Event::Written(Vec::new())).unwrap();
    let error = std::io::Error::new(std::io::ErrorKind::Other, "unplugged");
    match session.step(Event::Failed(error)) {
        Err(HexlerError::Io(error)) => assert_eq!(error.to_string(), "unplugged"),
        _ => panic!("an I/O error was expected"),
    }
}

#[test]
fn different_data_gives_different_dumps() {
    assert_ne!(dumped("t", b"abc", 8), dumped("t", b"abd", 8));
    assert_ne!(dumped("t", b"abc", 8), dumped("t", b"abc\x00", 8));
    assert_ne!(dumped("t", &[1], 8), dumped("t", &[2], 8));
}

#[test]
fn every_byte_is_shown() {
    let all: Vec<u8> = (0..=255).collect();
    let shown = dumped("all", &all, 32);
    for b in all {
        assert!(shown.contains(&format!("m{:02x}\x1b[0m", b)));
    }
}

#[test]
fn the_last_write_can_fail() {
    let line_writer = LineWriter::new_bytes(8).unwrap();
    let mut session = Session::new(&line_writer);
    session.step(Event::Written(Vec::new())).unwrap();
    assert!(matches!(
        session.step(Event::Received(vec![])),
        Ok(Action::Finish(_))
    ));
    let error = std::io::Error::new(std::io::ErrorKind::BrokenPipe, "gone");
    match session.step(Event::Failed(error)) {
        Err(HexlerError::Io(error)) => assert_eq!(error.to_string(), "gone"),
        _ => panic!("an I/O error was expected"),
    }
}
