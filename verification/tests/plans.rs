use hexler::args::{choose_line_writer, fixed_title, paged_text, Sink, Source};
use hexler::error::HexlerError;
use hexler::title::{build_title, file_title, LocalTime};
use hexler::{plan, Args, BufferWriter};
use std::path::PathBuf;

fn args(num_bytes_per_line: Option<usize>, stdout: bool, demo: bool, file: Option<&str>) -> Args {
    Args { num_bytes_per_line, stdout, demo, file: file.map(PathBuf::from) }
}

#[test]
fn a_given_number_of_bytes_comes_before_the_terminal() {
    let chosen = plan(args(Some(24), false, false, None), Some(50)).unwrap();
    assert_eq!(chosen.line_writer.bytes_per_line(), 24);
    let chosen = plan(args(Some(24), false, false, None), None).unwrap();
    assert_eq!(chosen.line_writer.bytes_per_line(), 24);
    let chosen = plan(args(None, false, false, None), Some(80)).unwrap();
    assert_eq!(chosen.line_writer.bytes_per_line(), 16);
}

#[test]
fn a_bad_number_of_bytes_is_refused() {
    assert!(matches!(
        plan(args(Some(12), true, true, None), Some(80)),
        Err(HexlerError::InvalidBytesPerLine(12))
    ));
    assert!(matches!(
        choose_line_writer(Some(0), None),
        Err(HexlerError::InvalidBytesPerLine(0))
    ));
}

#[test]
fn a_terminal_without_a_width_is_refused() {
    assert!(matches!(
        plan(args(None, true, true, None), None),
        Err(HexlerError::TerminalSizeError)
    ));
}

#[test]
fn a_demo_comes_before_a_file_and_a_file_before_stdin() {
    let source = |demo: bool, file: Option<&str>| {
        plan(args(Some(8), true, demo, file), None).unwrap().source
    };
    assert!(matches!(source(true, Some("a")), Source::Demo));
    assert!(matches!(source(true, None), Source::Demo));
    match source(false, Some("a")) {
        Source::File(file) => assert_eq!(file, PathBuf::from("a")),
        _ => panic!("a file was expected"),
    }
    assert!(matches!(source(false, None), Source::Stdin));
}

#[test]
fn stdout_disables_the_pager() {
    let sink = |stdout: bool| plan(args(Some(8), stdout, false, None), None).unwrap().sink;
    assert_eq!(sink(true), Sink::Stdout);
    assert_eq!(sink(false), Sink::Pager);
}

#[test]
fn titles_of_files_are_exact() {
    let modified = LocalTime::new(2024, 3, 5, 7, 8, 9).unwrap();
    assert_eq!(
        file_title("notes.txt", 200, &modified),
        "\x1b[1mnotes.txt\x1b[0m   200 bytes   5 Mar 2024 07:08:09"
    );
    assert_eq!(
        file_title("my notes.txt", 1_340_249, &modified),
        "\x1b[1m'my notes.txt'\x1b[0m   1.28 MiB   5 Mar 2024 07:08:09"
    );
    assert_eq!(
        file_title("one", 1, &LocalTime::new(1999, 12, 31, 23, 59, 59).unwrap()),
        "\x1b[1mone\x1b[0m   1 byte   31 Dec 1999 23:59:59"
    );
}

#[test]
fn years_outside_of_four_digits_have_a_sign() {
    let title = |year: i32| file_title("f", 0, &LocalTime::new(year, 1, 1, 0, 0, 0).unwrap());
    assert!(title(7).ends_with("   1 Jan 0007 00:00:00"));
    assert!(title(0).ends_with("   1 Jan 0000 00:00:00"));
    assert!(title(-5).ends_with("   1 Jan -0005 00:00:00"));
    assert!(title(12345).ends_with("   1 Jan +12345 00:00:00"));
    assert!(title(262142).ends_with("   1 Jan +262142 00:00:00"));
    assert!(title(-262143).ends_with("   1 Jan -262143 00:00:00"));
}

#[test]
fn all_months_have_their_names() {
    let names = [
        "Jan", "Feb", "Mar", "Apr", "May", "Jun", "Jul", "Aug", "Sep", "Oct", "Nov", "Dec",
    ];
    for (i, name) in names.iter().enumerate() {
        let time = LocalTime::new(2023, i as u32 + 1, 28, 10, 20, 30).unwrap();
        assert!(file_title("f", 0, &time).ends_with(&format!("   28 {} 2023 10:20:30", name)));
    }
}

#[test]
fn times_that_do_not_exist_are_refused() {
    assert!(LocalTime::new(2024, 2, 29, 0, 0, 0).is_some());
    assert!(LocalTime::new(2000, 2, 29, 0, 0, 0).is_some());
    assert!(LocalTime::new(-4, 2, 29, 0, 0, 0).is_some());
    assert!(LocalTime::new(2023, 2, 29, 0, 0, 0).is_none());
    assert!(LocalTime::new(1900, 2, 29, 0, 0, 0).is_none());
    assert!(LocalTime::new(2024, 4, 31, 0, 0, 0).is_none());
    assert!(LocalTime::new(2024, 0, 1, 0, 0, 0).is_none());
    assert!(LocalTime::new(2024, 13, 1, 0, 0, 0).is_none());
    assert!(LocalTime::new(2024, 1, 0, 0, 0, 0).is_none());
    assert!(LocalTime::new(2024, 1, 1, 24, 0, 0).is_none());
    assert!(LocalTime::new(2024, 1, 1, 0, 60, 0).is_none());
    assert!(LocalTime::new(2024, 1, 1, 0, 0, 60).is_none());
    assert!(LocalTime::new(262143, 1, 1, 0, 0, 0).is_none());
    assert!(LocalTime::new(-262144, 1, 1, 0, 0, 0).is_none());
}

#[test]
fn names_with_spaces_are_quoted() {
    assert_eq!(build_title("a b", "S", "T"), "\x1b[1m'a b'\x1b[0m   S   T");
    assert_eq!(build_title("ab", "S", "T"), "\x1b[1mab\x1b[0m   S   T");
    assert_eq!(build_title("a\tb", "S", "T"), "\x1b[1ma\tb\x1b[0m   S   T");
    assert_eq!(build_title("", "S", "T"), "\x1b[1m\x1b[0m   S   T");
}

#[test]
fn each_source_has_its_title() {
    assert_eq!(fixed_title(&Source::Demo), Some("demo, 256 bytes, 0 to 255"));
    assert_eq!(fixed_title(&Source::Stdin), Some("stdin"));
    assert_eq!(fixed_title(&Source::File(PathBuf::from("a"))), None);
}

#[test]
fn only_a_pager_gets_the_text_afterwards() {
    let mut writer = BufferWriter::new();
    writer.write("grün".as_bytes()).unwrap();
    assert_eq!(paged_text(Sink::Pager, &writer), Some("grün".to_string()));
    assert_eq!(paged_text(Sink::Stdout, &writer), None);
    writer.write(b"\xff").unwrap();
    assert_eq!(paged_text(Sink::Pager, &writer), Some("grün\u{fffd}".to_string()));
}
