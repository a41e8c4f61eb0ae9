//! What the user asks for, and what is to be done about it.

use vstd::prelude::*;
use vstd::utf8::{decode_utf8, valid_utf8};

use crate::buffer_writer::{utf8_lossy, BufferWriter};
use crate::dump::DEMO_TITLE;
use crate::error::{HexlerError, Result};
use crate::line_writer::{bytes_for_width, valid_bytes_per_line, LineWriter};
use crate::title::STDIN_TITLE;

verus! {

/// `std::path::PathBuf`, handed on to whoever opens the file and never looked into.
#[verifier::external_type_specification]
#[verifier::external_body]
pub struct ExPathBuf(std::path::PathBuf);

/// The command-line arguments.
#[derive(Debug)]
pub struct Args {
    /// How many bytes to print on a line: a multiple of 8. Without it, the width of the terminal
    /// decides.
    pub num_bytes_per_line: Option<usize>,
    /// Whether to write to the standard output and not to a pager.
    pub stdout: bool,
    /// Whether to show the bytes 0 to 255, as a demonstration.
    pub demo: bool,
    /// The file to show. Without it, the standard input is shown.
    pub file: Option<std::path::PathBuf>,
}

/// Where the bytes come from.
#[derive(Debug)]
pub enum Source {
    /// The demonstration.
    Demo,
    /// A file.
    File(std::path::PathBuf),
    /// The standard input.
    Stdin,
}

/// Where the dump goes to.
#[derive(Clone, Copy, PartialEq, Eq, Structural, Debug)]
pub enum Sink {
    /// A pager, once the dump is complete.
    Pager,
    /// The standard output.
    Stdout,
}

/// What is to be done.
pub struct Plan {
    /// Writes the lines.
    pub line_writer: LineWriter,
    /// Where the bytes come from.
    pub source: Source,
    /// Where the dump goes to.
    pub sink: Sink,
}

impl Args {
    /// How many bytes stand on a line, where the terminal has `terminal_width` columns or none are
    /// known.
    pub open spec fn chosen_bytes_per_line(&self, terminal_width: Option<u16>) -> Option<nat> {
        match (self.num_bytes_per_line, terminal_width) {
            (Some(n), _) => Some(n as nat),
            (None, Some(width)) => Some(bytes_for_width(width as nat)),
            (None, None) => None,
        }
    }

    /// Where the bytes come from: a demonstration takes precedence over a file, and a file over
    /// the standard input.
    pub open spec fn chosen_source(&self) -> Source {
        match (self.demo, self.file) {
            (true, _) => Source::Demo,
            (false, Some(file)) => Source::File(file),
            (false, None) => Source::Stdin,
        }
    }

    /// Where the dump goes to.
    pub open spec fn chosen_sink(&self) -> Sink {
        if self.stdout {
            Sink::Stdout
        } else {
            Sink::Pager
        }
    }
}

/// The line writer that the arguments ask for. The width of the terminal matters only where they
/// give no number of bytes per line, and has to be known then.
pub fn choose_line_writer(
    num_bytes_per_line: Option<usize>,
    terminal_width: Option<u16>,
) -> (r: Result<LineWriter>)
    ensures
        match num_bytes_per_line {
            Some(n) => if valid_bytes_per_line(n as nat) {
                r matches Ok(line_writer) && line_writer@ == n
            } else {
                r == Result::<LineWriter>::Err(HexlerError::InvalidBytesPerLine(n))
            },
            None => match terminal_width {
                Some(width) => r matches Ok(line_writer) && line_writer@ == bytes_for_width(
                    width as nat,
                ),
                None => r == Result::<LineWriter>::Err(HexlerError::TerminalSizeError),
            },
        },
{
    match num_bytes_per_line {
        Some(n) => LineWriter::new_bytes(n),
        None => match terminal_width {
            Some(width) => LineWriter::new_max_width(width as usize),
            None => Err(HexlerError::TerminalSizeError),
        },
    }
}

/// What is to be done about `args` on a terminal with `terminal_width` columns, or without a
/// terminal whose width is known.
pub fn plan(args: Args, terminal_width: Option<u16>) -> (r: Result<Plan>)
    ensures
        match args.chosen_bytes_per_line(terminal_width) {
            None => r == Result::<Plan>::Err(HexlerError::TerminalSizeError),
            Some(n) => if valid_bytes_per_line(n) {
                r matches Ok(plan) && plan.line_writer@ == n && plan.source == args.chosen_source()
                    && plan.sink == args.chosen_sink()
            } else {
                r == Result::<Plan>::Err(HexlerError::InvalidBytesPerLine(n as usize))
            },
        },
        r matches Ok(plan) ==> {
            &&& args.stdout <==> plan.sink is Stdout
            &&& args.demo <==> plan.source is Demo
            &&& !args.demo ==> match args.file {
                Some(file) => plan.source == Source::File(file),
                None => plan.source is Stdin,
            }
            &&& args.num_bytes_per_line matches Some(n) ==> plan.line_writer@ == n
        },
{
    let sink = if args.stdout {
        Sink::Stdout
    } else {
        Sink::Pager
    };
    let line_writer = match choose_line_writer(args.num_bytes_per_line, terminal_width) {
        Ok(line_writer) => line_writer,
        Err(error) => {
            return Err(error);
        },
    };
    proof {
        if let Some(width) = terminal_width {
            crate::laws::law_width_gives_valid_bytes(width as nat);
        }
    }
    let source = if args.demo {
        Source::Demo
    } else {
        match args.file {
            Some(file) => Source::File(file),
            None => Source::Stdin,
        }
    };
    Ok(Plan { line_writer, source, sink })
}

/// A plan writes to the standard output where that was asked for, and only there, whatever else was
/// asked for.
pub proof fn law_stdout_decides(args: Args, terminal_width: Option<u16>, r: Result<Plan>)
    requires
        call_ensures(plan, (args, terminal_width), r),
    ensures
        r matches Ok(made) ==> (args.stdout <==> made.sink is Stdout),
{
}

/// A plan shows the demonstration where that was asked for, and only there. It shows the file that
/// was named otherwise, and the standard input where none was.
pub proof fn law_source_is_what_was_named(args: Args, terminal_width: Option<u16>, r: Result<Plan>)
    requires
        call_ensures(plan, (args, terminal_width), r),
    ensures
        r matches Ok(made) ==> (args.demo <==> made.source is Demo),
        r matches Ok(made) ==> !args.demo ==> match made.source {
            Source::Demo => false,
            Source::File(file) => args.file == Some(file),
            Source::Stdin => args.file is None,
        },
{
}

/// The number of bytes per line that was asked for is what a plan has, on every terminal and without
/// one; it is refused where it is not one or more groups of eight.
pub proof fn law_given_bytes_are_kept(
    args: Args,
    n: usize,
    terminal_width: Option<u16>,
    r: Result<Plan>,
)
    requires
        args.num_bytes_per_line == Some(n),
        call_ensures(plan, (args, terminal_width), r),
    ensures
        n >= 8 && n % 8 == 0 ==> (r matches Ok(made) && made.line_writer@ == n),
        n < 8 || n % 8 != 0 ==> r == Result::<Plan>::Err(HexlerError::InvalidBytesPerLine(n)),
{
}

/// Without a number of bytes per line, a plan makes the most of the terminal: as many groups of eight
/// bytes as have room, and one where none has. Without a terminal there is no plan.
pub proof fn law_terminal_decides(
    args: Args,
    terminal_width: Option<u16>,
    k: nat,
    r: Result<Plan>,
)
    requires
        args.num_bytes_per_line is None,
        call_ensures(plan, (args, terminal_width), r),
    ensures
        terminal_width is None ==> r == Result::<Plan>::Err(HexlerError::TerminalSizeError),
        terminal_width matches Some(width) ==> {
            &&& r matches Ok(made)
            &&& made.line_writer@ >= 8
            &&& made.line_writer@ % 8 == 0
            &&& made.line_writer@ == 8 || 10 + 33 * (made.line_writer@ / 8) <= width
            &&& k >= 1 && 10 + 33 * k <= width ==> made.line_writer@ >= 8 * k
        },
{
    if let Some(width) = terminal_width {
        crate::laws::law_width_gives_valid_bytes(width as nat);
    }
}

/// The title of a dump of `source`, where it is the same for all dumps of that kind. The title of
/// a file is made by [`crate::title::file_title`].
pub fn fixed_title(source: &Source) -> (r: Option<&'static str>)
    ensures
        match source {
            Source::Demo => r matches Some(title) && title@ == DEMO_TITLE@,
            Source::Stdin => r matches Some(title) && title@ == STDIN_TITLE@,
            Source::File(_) => r is None,
        },
        r matches Some(title) ==> title@ == if source is Demo {
            "demo, 256 bytes, 0 to 255"@
        } else {
            "stdin"@
        },
{
    match source {
        Source::Demo => Some(DEMO_TITLE),
        Source::Stdin => Some(STDIN_TITLE),
        Source::File(_) => None,
    }
}

/// What is left to show once a dump is complete: all of it where it goes to a pager, which gets what
/// was `written` in memory, and nothing where it went to the standard output.
pub fn paged_text(sink: Sink, written: &BufferWriter) -> (r: Option<String>)
    ensures
        match sink {
            Sink::Stdout => r is None,
            Sink::Pager => r matches Some(text) && text@ == utf8_lossy(written@) && (valid_utf8(
                written@,
            ) ==> text@ == decode_utf8(written@)),
        },
{
    match sink {
        Sink::Stdout => None,
        Sink::Pager => Some(written.get_output_as_string()),
    }
}

} // verus!
