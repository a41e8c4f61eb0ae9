//! Whole dumps of data in memory.

use vstd::arithmetic::div_mod::{lemma_add_mod_noop, lemma_small_mod};
use vstd::prelude::*;
use vstd::utf8::encode_utf8;

use crate::blocks::lines_text;
use crate::buffer_writer::BufferWriter;
use crate::error::Result;
use crate::laws::{law_blocks_hold_full_lines, law_blocks_join, lemma_no_lines};
use crate::line_writer::LineWriter;
use crate::session::{block_size, footer_text, header_text, Action, Event, Session};

verus! {

broadcast use crate::text::lemma_append_text;

/// The title of a demonstration.
pub const DEMO_TITLE: &'static str = "demo, 256 bytes, 0 to 255";

/// The lines of a dump of `data`.
pub open spec fn body_text(bytes_per_line: nat, data: Seq<u8>) -> Seq<char> {
    lines_text(bytes_per_line, 0, data)
}

/// A dump: a border with the title, the lines, and another border.
pub open spec fn dump_text(bytes_per_line: nat, title: Seq<char>, data: Seq<u8>) -> Seq<char> {
    header_text(bytes_per_line, title) + body_text(bytes_per_line, data) + footer_text(
        bytes_per_line,
    )
}

/// Every byte value once, in order.
pub open spec fn every_byte() -> Seq<u8> {
    Seq::new(256, |i: int| i as u8)
}

/// The bytes of `data` from `start` up to `end`.
fn piece(data: &[u8], start: usize, end: usize) -> (bytes: Vec<u8>)
    requires
        start <= end <= data@.len(),
    ensures
        bytes@ == data@.subrange(start as int, end as int),
{
    let mut bytes: Vec<u8> = Vec::new();
    bytes.extend_from_slice(vstd::slice::slice_subrange(data, start, end));
    assert(bytes@ =~= data@.subrange(start as int, end as int));
    bytes
}

/// Where in the cycle of reading and writing `event` stands: it gets smaller where neither the
/// data that is left nor the data that is pending does.
spec fn event_rank(event: Event) -> int {
    match event {
        Event::Written(_) => 2,
        Event::Received(bytes) => if bytes@.len() > 0 {
            1
        } else {
            0
        },
        Event::Failed(_) => 0,
    }
}

/// Writes a dump of `data` to `writer`. Neither reading from memory nor writing to it can fail.
pub fn dump(
    title: &str,
    data: &[u8],
    line_writer: &mut LineWriter,
    writer: &mut BufferWriter,
) -> (r: Result<()>)
    ensures
        r is Ok,
        *final(line_writer) == *old(line_writer),
        final(writer)@ == old(writer)@ + encode_utf8(
            dump_text(old(line_writer)@, title@, data@),
        ),
{
    let ghost b = line_writer@;
    let ghost size = block_size(b);
    let ghost header = header_text(b, title@);
    let bytes_per_line = line_writer.bytes_per_line();
    proof {
        law_blocks_hold_full_lines(b);
    }
    let mut session = Session::new(line_writer);
    let bytes = session.header(title);
    let _ = writer.write(bytes.as_slice());
    let mut event = Event::Written(bytes);
    let mut pos: usize = 0;
    assert(data@.take(0) =~= Seq::<u8>::empty());
    assert(lines_text(b, 0, data@.take(0)) =~= Seq::<char>::empty()) by {
        lemma_no_lines(b, 0);
    }
    assert(header + Seq::<char>::empty() =~= header);
    loop
        invariant
            b == line_writer@,
            bytes_per_line == b,
            b >= 8,
            size == block_size(b),
            size > 0,
            size % b == 0,
            header == header_text(b, title@),
            session@.bytes_per_line == b,
            session@.admits(event),
            session@.offset % b == 0 || session@.offset == data@.len(),
            session@.offset <= pos <= data@.len(),
            !(event is Failed),
            event matches Event::Received(bytes) ==> session@.pending + bytes@
                == data@.subrange(session@.offset as int, pos as int) && (bytes@.len() == 0 ==> pos
                == data@.len()),
            event is Written ==> session@.pending.len() == 0 && pos == session@.offset,
            writer@ == old(writer)@ + encode_utf8(
                header + lines_text(b, 0, data@.take(session@.offset as int)),
            ),
        decreases data@.len() - session@.offset, data@.len() - pos, event_rank(event),
    {
        let ghost state = session@;
        let ghost shown = lines_text(b, 0, data@.take(state.offset as int));
        match session.step(event) {
            Err(error) => {
                return Err(error);
            },
            Ok(Action::Read(n)) => {
                let end = if n < data.len() - pos {
                    pos + n
                } else {
                    data.len()
                };
                assert(session@.pending + data@.subrange(pos as int, end as int)
                    =~= data@.subrange(session@.offset as int, end as int));
                event = Event::Received(piece(data, pos, end));
                pos = end;
            },
            Ok(Action::Write(bytes)) => {
                proof {
                    let block = data@.subrange(state.offset as int, pos as int);
                    law_blocks_join(b, 0, data@.take(state.offset as int), block);
                    assert(data@.take(state.offset as int) + block =~= data@.take(pos as int));
                    let lines = lines_text(b, state.offset, block);
                    assert((header + shown) + lines =~= header + (shown + lines));
                    if pos < data@.len() {
                        assert(block.len() == size);
                        assert(state.offset % b == 0);
                        lemma_add_mod_noop(state.offset as int, size as int, b as int);
                        lemma_small_mod(0, b);
                        assert((state.offset + size) % b == 0);
                    }
                }
                let _ = writer.write(bytes.as_slice());
                event = Event::Written(bytes);
            },
            Ok(Action::Finish(bytes)) => {
                let _ = writer.write(bytes.as_slice());
                proof {
                    assert(state.offset == pos == data@.len());
                    assert(data@.take(state.offset as int) =~= data@);
                    assert(shown == body_text(b, data@));
                }
                return Ok(());
            },
        }
    }
}

/// Every byte value once, in order.
pub fn demo_bytes() -> (bytes: Vec<u8>)
    ensures
        bytes@ == every_byte(),
{
    let mut bytes: Vec<u8> = Vec::new();
    let mut i: usize = 0;
    while i < 256
        invariant
            i <= 256,
            bytes@ == every_byte().take(i as int),
        decreases 256 - i,
    {
        bytes.push(i as u8);
        i = i + 1;
        assert(bytes@ =~= every_byte().take(i as int));
    }
    assert(every_byte().take(256) =~= every_byte());
    bytes
}

/// Writes a dump of all byte values to `writer`, to show their colours.
pub fn demo(line_writer: &mut LineWriter, writer: &mut BufferWriter) -> (r: Result<()>)
    ensures
        r is Ok,
        *final(line_writer) == *old(line_writer),
        final(writer)@ == old(writer)@ + encode_utf8(
            dump_text(old(line_writer)@, DEMO_TITLE@, every_byte()),
        ),
{
    let bytes = demo_bytes();
    dump(DEMO_TITLE, bytes.as_slice(), line_writer, writer)
}

} // verus!
