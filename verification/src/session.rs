//! A dump step by step: what to read and what to write next.
//!
//! A session is driven by whoever owns the input and the output. It says how much to read, is
//! told what a read gave, and hands out the bytes to write. Data is gathered until a block is
//! full, so that the way in which reads cut up the input cannot be seen in the output.

use vstd::prelude::*;
use vstd::utf8::encode_utf8;

use crate::blocks::{lines_text, write_block};
use crate::border_writer::{border_text, Border};
use crate::error::{HexlerError, Result};
use crate::line_writer::LineWriter;

verus! {

/// No block is larger than this many bytes, unless a single line is. No read asks for more.
pub const MAX_BLOCK_SIZE: usize = 65536;

/// How many bytes a block holds: as many full lines as fit, and one line where not even one fits.
pub open spec fn block_size(bytes_per_line: nat) -> nat {
    if bytes_per_line > MAX_BLOCK_SIZE {
        bytes_per_line
    } else {
        MAX_BLOCK_SIZE as nat / bytes_per_line * bytes_per_line
    }
}

/// How many bytes to ask for where a block lacks `missing` bytes.
pub open spec fn read_size(missing: nat) -> nat {
    if missing > MAX_BLOCK_SIZE {
        MAX_BLOCK_SIZE as nat
    } else {
        missing
    }
}

/// The border above the lines.
pub open spec fn header_text(bytes_per_line: nat, title: Seq<char>) -> Seq<char> {
    border_text(bytes_per_line / 8, Border::Header, title)
}

/// The border below the lines.
pub open spec fn footer_text(bytes_per_line: nat) -> Seq<char> {
    border_text(bytes_per_line / 8, Border::Footer, ""@)
}

/// What a session has come to.
#[verifier::ext_equal]
pub struct SessionState {
    /// The number of bytes per line.
    pub bytes_per_line: nat,
    /// How many bytes have been written as lines.
    pub offset: nat,
    /// What has been read since, and is less than a block.
    pub pending: Seq<u8>,
    /// Whether the footer has been handed out.
    pub finished: bool,
}

/// What happened to the action that a session asked for.
pub enum Event {
    /// The bytes were written. The buffer can be used again; what it holds does not matter.
    Written(Vec<u8>),
    /// The read gave these bytes. None means that the input has ended.
    Received(Vec<u8>),
    /// The read failed, or the write, or the flush behind the last write.
    Failed(std::io::Error),
}

/// What a session asks for.
pub enum Action {
    /// Read at most this many bytes, and at least one where the input has not ended.
    Read(usize),
    /// Write these bytes.
    Write(Vec<u8>),
    /// Write these bytes; the dump is then complete.
    Finish(Vec<u8>),
}

/// The contents of an [`Action`].
#[verifier::ext_equal]
pub enum ActionView {
    /// See [`Action::Read`].
    Read(nat),
    /// See [`Action::Write`].
    Write(Seq<u8>),
    /// See [`Action::Finish`].
    Finish(Seq<u8>),
}

impl View for Action {
    type V = ActionView;

    open spec fn view(&self) -> ActionView {
        match self {
            Action::Read(n) => ActionView::Read(*n as nat),
            Action::Write(bytes) => ActionView::Write(bytes@),
            Action::Finish(bytes) => ActionView::Finish(bytes@),
        }
    }
}

impl SessionState {
    /// A session that is about to read its first byte.
    pub open spec fn initial(bytes_per_line: nat) -> SessionState {
        SessionState { bytes_per_line, offset: 0, pending: Seq::empty(), finished: false }
    }

    /// Whether `event` can happen now. A read or a write can fail at any time, and behind the footer
    /// the last write or the flush can; nothing else happens there. A write can be over only where
    /// nothing is pending, and a read gives no more than the block lacks. The number of bytes
    /// written as lines is a `usize`.
    pub open spec fn admits(self, event: Event) -> bool {
        match event {
            Event::Written(_) => !self.finished && self.pending.len() == 0,
            Event::Received(bytes) => {
                &&& !self.finished
                &&& self.pending.len() + bytes@.len() <= block_size(self.bytes_per_line)
                &&& self.offset + self.pending.len() + bytes@.len() <= usize::MAX
            },
            Event::Failed(_) => true,
        }
    }

    /// The footer has been handed out.
    pub open spec fn closed(self) -> SessionState {
        SessionState { finished: true, ..self }
    }

    /// What follows the header and each block: the first read for the next block.
    pub open spec fn after_write(self) -> (SessionState, ActionView) {
        (self, ActionView::Read(read_size(block_size(self.bytes_per_line))))
    }

    /// What follows a read: another one until the block is full or the input has ended; then the
    /// lines of the block. An end of input with nothing pending is the end of the dump.
    pub open spec fn after_read(self, bytes: Seq<u8>) -> (SessionState, ActionView) {
        let size = block_size(self.bytes_per_line);
        let pending = self.pending + bytes;
        if bytes.len() > 0 && pending.len() < size {
            (
                SessionState { pending, ..self },
                ActionView::Read(read_size((size - pending.len()) as nat)),
            )
        } else if pending.len() == 0 {
            (self.closed(), ActionView::Finish(encode_utf8(footer_text(self.bytes_per_line))))
        } else {
            (
                SessionState {
                    offset: self.offset + pending.len(),
                    pending: Seq::empty(),
                    ..self
                },
                ActionView::Write(
                    encode_utf8(lines_text(self.bytes_per_line, self.offset, pending)),
                ),
            )
        }
    }
}

/// Computes [`block_size`].
pub fn block_len(bytes_per_line: usize) -> (size: usize)
    requires
        bytes_per_line > 0,
    ensures
        size == block_size(bytes_per_line as nat),
{
    proof {
        crate::laws::law_blocks_hold_full_lines(bytes_per_line as nat);
    }
    if bytes_per_line > MAX_BLOCK_SIZE {
        bytes_per_line
    } else {
        MAX_BLOCK_SIZE / bytes_per_line * bytes_per_line
    }
}

/// Computes [`read_size`].
pub fn read_len(missing: usize) -> (size: usize)
    ensures
        size == read_size(missing as nat),
{
    if missing > MAX_BLOCK_SIZE {
        MAX_BLOCK_SIZE
    } else {
        missing
    }
}

/// A dump in progress.
pub struct Session<'a> {
    line_writer: &'a LineWriter,
    offset: usize,
    pending: Vec<u8>,
    finished: bool,
    lines: Vec<Vec<u8>>,
    spare: Vec<u8>,
}

impl View for Session<'_> {
    type V = SessionState;

    closed spec fn view(&self) -> SessionState {
        SessionState {
            bytes_per_line: self.line_writer@,
            offset: self.offset as nat,
            pending: self.pending@,
            finished: self.finished,
        }
    }
}

impl<'a> Session<'a> {
    /// A session that has read nothing.
    pub fn new(line_writer: &'a LineWriter) -> (session: Session<'a>)
        ensures
            session@ == SessionState::initial(line_writer@),
    {
        Session {
            line_writer,
            offset: 0,
            pending: Vec::new(),
            finished: false,
            lines: Vec::new(),
            spare: Vec::new(),
        }
    }

    /// The border that stands above the lines.
    pub fn header(&self, title: &str) -> (bytes: Vec<u8>)
        ensures
            bytes@ == encode_utf8(header_text(self@.bytes_per_line, title@)),
    {
        let mut out: Vec<u8> = Vec::new();
        let ghost before = out@;
        let _ = self.line_writer.write_border(&mut out, Border::Header, title);
        assert(before + encode_utf8(header_text(self@.bytes_per_line, title@)) =~= encode_utf8(
            header_text(self@.bytes_per_line, title@),
        ));
        out
    }

    /// An empty buffer: the one that came back from the last write, where there is one.
    fn buffer(&mut self) -> (out: Vec<u8>)
        ensures
            out@ == Seq::<u8>::empty(),
            final(self)@ == old(self)@,
    {
        let mut out: Vec<u8> = Vec::new();
        std::mem::swap(&mut out, &mut self.spare);
        out.clear();
        out
    }

    /// Hands out the footer.
    fn close(&mut self) -> (action: Action)
        ensures
            final(self)@ == old(self)@.closed(),
            action@ == ActionView::Finish(encode_utf8(footer_text(old(self)@.bytes_per_line))),
    {
        let mut out = self.buffer();
        let ghost before = out@;
        let _ = self.line_writer.write_border(&mut out, Border::Footer, "");
        assert(before + encode_utf8(footer_text(self@.bytes_per_line)) =~= encode_utf8(
            footer_text(self@.bytes_per_line),
        ));
        self.finished = true;
        Action::Finish(out)
    }

    /// Hands out the lines of what is pending.
    fn emit(&mut self) -> (action: Action)
        requires
            old(self)@.offset + old(self)@.pending.len() <= usize::MAX,
        ensures
            final(self)@ == (SessionState {
                offset: old(self)@.offset + old(self)@.pending.len(),
                pending: Seq::empty(),
                ..old(self)@
            }),
            action@ == ActionView::Write(
                encode_utf8(
                    lines_text(old(self)@.bytes_per_line, old(self)@.offset, old(self)@.pending),
                ),
            ),
    {
        let mut out = self.buffer();
        let ghost before = out@;
        let ghost text = lines_text(self@.bytes_per_line, self@.offset, self@.pending);
        write_block(
            self.line_writer,
            self.pending.as_slice(),
            self.offset,
            &mut self.lines,
            &mut out,
        );
        assert(before + encode_utf8(text) =~= encode_utf8(text));
        self.offset = self.offset + self.pending.len();
        self.pending.clear();
        Action::Write(out)
    }

    /// What to do after `event`. A read, write or flush that failed is the caller's error.
    pub fn step(&mut self, event: Event) -> (r: Result<Action>)
        requires
            old(self)@.admits(event),
        ensures
            match event {
                Event::Written(_) => r matches Ok(action) && (final(self)@, action@)
                    == old(self)@.after_write(),
                Event::Received(bytes) => r matches Ok(action) && (final(self)@, action@)
                    == old(self)@.after_read(bytes@),
                Event::Failed(error) => r == Result::<Action>::Err(HexlerError::Io(error))
                    && final(self)@ == old(self)@,
            },
    {
        let size = block_len(self.line_writer.bytes_per_line());
        match event {
            Event::Written(spare) => {
                self.spare = spare;
                Ok(Action::Read(read_len(size)))
            },
            Event::Received(bytes) => {
                self.pending.extend_from_slice(bytes.as_slice());
                assert(self.pending@ == old(self)@.pending + bytes@);
                if bytes.len() > 0 && self.pending.len() < size {
                    Ok(Action::Read(read_len(size - self.pending.len())))
                } else if self.pending.len() == 0 {
                    assert(self@ =~= old(self)@);
                    Ok(self.close())
                } else {
                    Ok(self.emit())
                }
            },
            Event::Failed(error) => Err(HexlerError::from(error)),
        }
    }
}

} // verus!
