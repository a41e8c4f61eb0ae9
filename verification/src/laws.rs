//! What holds of the library as a whole.

use vstd::arithmetic::div_mod::{
    lemma_add_mod_noop, lemma_basic_div, lemma_div_by_multiple, lemma_div_non_zero,
    lemma_fundamental_div_mod, lemma_hoist_over_denominator, lemma_mod_multiples_basic,
};
use vstd::arithmetic::mul::{
    lemma_mul_basics_1, lemma_mul_increases, lemma_mul_is_commutative,
    lemma_mul_is_distributive_add_other_way,
};
use vstd::prelude::*;
use vstd::utf8::{
    decode_utf8, encode_utf8, encode_utf8_decode_utf8, encode_utf8_valid_utf8, valid_utf8,
};

use crate::blocks::{block_line, first_lines, line_bytes, line_count, lines_text};
use crate::border_writer::Border;
use crate::dump::dump_text;
use crate::error::{HexlerError, Result};
use crate::line_writer::{bytes_for_width, line_width, valid_bytes_per_line, LineWriter};
use crate::reading::{
    is_bar, law_blocks_show_their_data, law_borders_show_their_title, lines_show, rows, unended,
};
use crate::session::{
    block_size, footer_text, header_text, read_size, Action, ActionView, Event, Session, SessionState,
    MAX_BLOCK_SIZE,
};
use crate::text::lemma_encode_concat;

verus! {

/// `(q + i) * b` is `q * b + i * b`.
proof fn lemma_shift(q: int, i: int, b: int)
    by (nonlinear_arith)
    ensures
        (q + i) * b == q * b + i * b,
        (q + i + 1) * b == q * b + (i + 1) * b,
{
}

/// How many lines data takes that begins with `q` full lines.
proof fn lemma_count_behind_full_lines(q: int, rest: int, b: int)
    requires
        b > 0,
        q >= 0,
        rest >= 0,
    ensures
        (q * b + rest + b - 1) / b == q + (rest + b - 1) / b,
        (q * b + b - 1) / b == q,
        (q * b) % b == 0,
        (q * b) / b == q,
{
    lemma_hoist_over_denominator(rest + b - 1, q, b as nat);
    lemma_hoist_over_denominator(b - 1, q, b as nat);
    lemma_basic_div(b - 1, b);
    lemma_div_by_multiple(q, b);
    lemma_mod_multiples_basic(q, b);
}

/// Lines that end inside `front` are the same, whatever follows it.
proof fn lemma_lines_in_front(b: nat, offset: nat, front: Seq<u8>, back: Seq<u8>, count: nat)
    requires
        b > 0,
        count * b <= front.len(),
    ensures
        first_lines(b, offset, front + back, count) == first_lines(b, offset, front, count),
    decreases count,
{
    if count > 0 {
        let i = count - 1;
        assert(i * b + b == count * b && i * b >= 0) by (nonlinear_arith)
            requires
                i == count - 1,
                i >= 0,
        ;
        lemma_lines_in_front(b, offset, front, back, i as nat);
        assert(line_bytes(front + back, b, i) =~= line_bytes(front, b, i));
    }
}

/// Behind full lines, a block goes on as a block of its own.
proof fn lemma_lines_behind(
    b: nat,
    offset: nat,
    front: Seq<u8>,
    back: Seq<u8>,
    q: nat,
    count: nat,
)
    requires
        b > 0,
        front.len() == q * b,
        count <= line_count(back.len(), b),
    ensures
        first_lines(b, offset, front + back, q + count) == first_lines(b, offset, front, q)
            + first_lines(b, offset + front.len(), back, count),
    decreases count,
{
    if count == 0 {
        lemma_lines_in_front(b, offset, front, back, q);
        assert(first_lines(b, offset, front, q) + Seq::<char>::empty() =~= first_lines(
            b,
            offset,
            front,
            q,
        ));
    } else {
        let i = count - 1;
        lemma_lines_behind(b, offset, front, back, q, i as nat);
        lemma_shift(q as int, i, b as int);
        crate::blocks::lemma_line_begins(back.len(), b, i);
        assert(line_bytes(front + back, b, q + i) =~= line_bytes(back, b, i));
        assert(block_line(b, offset, front + back, q + i) == block_line(
            b,
            offset + front.len(),
            back,
            i,
        ));
        let first = first_lines(b, offset, front, q);
        let rest = first_lines(b, offset + front.len(), back, i as nat);
        let line = block_line(b, offset + front.len(), back, i);
        assert((first + rest) + line =~= first + (rest + line));
    }
}

/// Whatever the width, the number of bytes per line that is chosen for it is valid.
pub proof fn law_width_gives_valid_bytes(max_width: nat)
    ensures
        valid_bytes_per_line(bytes_for_width(max_width)),
{
}

/// The number of bytes per line that is chosen for a width makes the best use of it: its lines
/// fit, or it is the smallest there is, and no larger valid number has lines that fit.
pub proof fn law_width_is_used_best(max_width: nat, other: nat)
    requires
        valid_bytes_per_line(other),
    ensures
        line_width(bytes_for_width(max_width)) <= max_width || bytes_for_width(max_width) == 8,
        other > bytes_for_width(max_width) ==> line_width(other) > max_width,
{
}

/// A wider terminal never gets fewer bytes per line.
pub proof fn law_wider_is_not_less(narrow: nat, wide: nat)
    requires
        narrow <= wide,
    ensures
        bytes_for_width(narrow) <= bytes_for_width(wide),
{
}

/// No data takes no lines.
pub proof fn lemma_no_lines(bytes_per_line: nat, offset: nat)
    requires
        bytes_per_line > 0,
    ensures
        lines_text(bytes_per_line, offset, Seq::<u8>::empty()) == Seq::<char>::empty(),
{
    lemma_count_behind_full_lines(0, 0, bytes_per_line as int);
}

/// A block holds full lines only, and at least one: a line that is not full can stand only at the
/// end of the input. Blocks are limited in size unless a single line is longer, and hold as many lines
/// as the limit lets them.
pub proof fn law_blocks_hold_full_lines(bytes_per_line: nat)
    requires
        bytes_per_line > 0,
    ensures
        block_size(bytes_per_line) % bytes_per_line == 0,
        block_size(bytes_per_line) >= bytes_per_line,
        block_size(bytes_per_line) > 0,
        bytes_per_line <= MAX_BLOCK_SIZE ==> block_size(bytes_per_line) <= MAX_BLOCK_SIZE,
        bytes_per_line > MAX_BLOCK_SIZE ==> block_size(bytes_per_line) == bytes_per_line,
        bytes_per_line <= 65536 ==> block_size(bytes_per_line) <= 65536 < block_size(bytes_per_line)
            + bytes_per_line,
{
    let b = bytes_per_line as int;
    let q = 65536int / b;
    lemma_mod_multiples_basic(1, b);
    if b <= 65536 {
        lemma_fundamental_div_mod(65536, b);
        lemma_mod_multiples_basic(q, b);
        lemma_mul_is_commutative(q, b);
        lemma_div_non_zero(65536, b);
        lemma_mul_increases(q, b);
    }
}

/// A line can hold any whole number of groups of eight bytes, as far as it is a number at all: it is
/// never refused, and is what the lines then hold.
pub proof fn law_whole_groups_are_accepted(k: nat, n: usize, r: Result<LineWriter>)
    requires
        k >= 1,
        n == 8 * k,
        call_ensures(LineWriter::new_bytes, (n,), r),
    ensures
        r matches Ok(line_writer) && line_writer@ == 8 * k,
{
}

/// A line can hold nothing but whole groups of eight bytes: where a number is accepted it is one or
/// more of them, and where it is refused, the refusal names it.
pub proof fn law_only_whole_groups_are_accepted(n: usize, r: Result<LineWriter>)
    requires
        call_ensures(LineWriter::new_bytes, (n,), r),
    ensures
        r is Ok ==> n as int / 8 >= 1 && n == 8 * (n as int / 8),
        r is Err ==> r == Result::<LineWriter>::Err(HexlerError::InvalidBytesPerLine(n)),
{
}

/// Where `k` groups of eight bytes have room, lines hold at least that many.
pub proof fn law_room_is_used(width: usize, k: nat, r: Result<LineWriter>)
    requires
        k >= 1,
        10 + 33 * k <= width,
        call_ensures(LineWriter::new_max_width, (width,), r),
    ensures
        r matches Ok(line_writer) && line_writer@ >= 8 * k,
{
}

/// For every width there are lines, of one group of eight bytes or more. Lines of more than one
/// group have room.
pub proof fn law_lines_have_room(width: usize, r: Result<LineWriter>)
    requires
        call_ensures(LineWriter::new_max_width, (width,), r),
    ensures
        r matches Ok(line_writer) && line_writer@ >= 8 && line_writer@ % 8 == 0 && (line_writer@ > 8
            ==> 10 + 33 * (line_writer@ / 8) <= width),
{
}

/// Data that is cut behind full lines can be written block by block: the lines of the whole are
/// those of the first part, followed by those of the second part at its own offset.
pub proof fn law_blocks_join(bytes_per_line: nat, offset: nat, front: Seq<u8>, back: Seq<u8>)
    requires
        bytes_per_line > 0,
        front.len() % bytes_per_line == 0,
    ensures
        lines_text(bytes_per_line, offset, front + back) == lines_text(
            bytes_per_line,
            offset,
            front,
        ) + lines_text(bytes_per_line, offset + front.len(), back),
{
    let b = bytes_per_line;
    let q = front.len() / b;
    assert(front.len() == q * b) by (nonlinear_arith)
        requires
            b > 0,
            q == front.len() / b,
            front.len() % b == 0,
    ;
    lemma_count_behind_full_lines(q as int, back.len() as int, b as int);
    lemma_lines_behind(b, offset, front, back, q, line_count(back.len(), b));
}

/// What a session that waits for a read hands out from then on, where the reads give `reads`.
pub open spec fn output_of_reads(state: SessionState, reads: Seq<Seq<u8>>) -> Seq<u8>
    decreases reads.len(),
{
    if reads.len() == 0 {
        Seq::empty()
    } else {
        let (next, action) = state.after_read(reads[0]);
        match action {
            ActionView::Read(_) => output_of_reads(next, reads.drop_first()),
            ActionView::Write(bytes) => bytes + output_of_reads(next, reads.drop_first()),
            ActionView::Finish(bytes) => bytes,
        }
    }
}

/// What a session hands out, the header first, where the reads give `reads`.
pub open spec fn session_output(
    bytes_per_line: nat,
    title: Seq<char>,
    reads: Seq<Seq<u8>>,
) -> Seq<u8> {
    let (state, _) = SessionState::initial(bytes_per_line).after_write();
    encode_utf8(header_text(bytes_per_line, title)) + output_of_reads(state, reads)
}

/// Whether reads can give `pieces`: none is empty, and none is longer than what the block lacks.
pub open spec fn can_be_read(state: SessionState, pieces: Seq<Seq<u8>>) -> bool
    decreases pieces.len(),
{
    pieces.len() > 0 ==> {
        &&& 0 < pieces[0].len() <= block_size(state.bytes_per_line) - state.pending.len()
        &&& can_be_read(state.after_read(pieces[0]).0, pieces.drop_first())
    }
}

/// What reads give of an input that consists of `pieces` and then ends. A reader at the end of its
/// input keeps giving nothing.
pub open spec fn reads_of(pieces: Seq<Seq<u8>>) -> Seq<Seq<u8>> {
    pieces + seq![Seq::<u8>::empty(), Seq::<u8>::empty()]
}

/// What a session in the middle of an input hands out from then on.
proof fn lemma_output_of_pieces(state: SessionState, pieces: Seq<Seq<u8>>)
    requires
        state.bytes_per_line > 0,
        !state.finished,
        state.offset % state.bytes_per_line == 0,
        state.pending.len() < block_size(state.bytes_per_line),
        can_be_read(state, pieces),
    ensures
        output_of_reads(state, reads_of(pieces)) == encode_utf8(
            lines_text(state.bytes_per_line, state.offset, state.pending + pieces.flatten())
                + footer_text(state.bytes_per_line),
        ),
    decreases pieces.len(),
{
    let b = state.bytes_per_line;
    let size = block_size(b);
    let reads = reads_of(pieces);
    let footer = footer_text(b);
    law_blocks_hold_full_lines(b);
    if pieces.len() == 0 {
        let end = Seq::<u8>::empty();
        assert(pieces.flatten() =~= end);
        assert(state.pending + end =~= state.pending);
        assert(reads[0] == end);
        let (next, action) = state.after_read(end);
        if state.pending.len() > 0 {
            let lines = lines_text(b, state.offset, state.pending);
            assert(reads.drop_first() =~= seq![end]);
            assert(next.pending + end =~= end);
            assert(output_of_reads(next, seq![end]) == encode_utf8(footer));
            lemma_encode_concat(lines, footer);
        } else {
            assert(state.pending =~= end);
            lemma_no_lines(b, state.offset);
            assert(Seq::<char>::empty() + footer =~= footer);
        }
    } else {
        let piece = pieces[0];
        let rest = pieces.drop_first();
        let (next, action) = state.after_read(piece);
        let pending = state.pending + piece;
        assert(reads[0] == piece);
        assert(reads.drop_first() =~= reads_of(rest));
        assert(pieces.flatten() == piece + rest.flatten());
        assert(pending + rest.flatten() =~= state.pending + pieces.flatten());
        if pending.len() == size {
            lemma_add_mod_noop(state.offset as int, size as int, b as int);
        }
        lemma_output_of_pieces(next, rest);
        if pending.len() == size {
            assert(next.pending + rest.flatten() =~= rest.flatten());
            law_blocks_join(b, state.offset, pending, rest.flatten());
            let lines = lines_text(b, state.offset, pending);
            let more = lines_text(b, next.offset, rest.flatten());
            lemma_encode_concat(lines, more + footer);
            assert(lines + (more + footer) =~= (lines + more) + footer);
        }
    }
}

/// The way in which reads cut up the input cannot be seen: whatever pieces it comes in, a session
/// hands out the dump of the whole.
pub proof fn law_reads_do_not_matter(bytes_per_line: nat, title: Seq<char>, pieces: Seq<Seq<u8>>)
    requires
        bytes_per_line > 0,
        can_be_read(SessionState::initial(bytes_per_line), pieces),
    ensures
        session_output(bytes_per_line, title, reads_of(pieces)) == encode_utf8(
            dump_text(bytes_per_line, title, pieces.flatten()),
        ),
{
    let state = SessionState::initial(bytes_per_line);
    let data = pieces.flatten();
    law_blocks_hold_full_lines(bytes_per_line);
    lemma_mod_multiples_basic(0, bytes_per_line as int);
    lemma_output_of_pieces(state, pieces);
    assert(state.pending + data =~= data);
    let header = header_text(bytes_per_line, title);
    let lines = lines_text(bytes_per_line, 0, data);
    let footer = footer_text(bytes_per_line);
    lemma_encode_concat(header, lines + footer);
    assert(header + (lines + footer) =~= header + lines + footer);
}

/// How many of `len` bytes fill blocks of `size` bytes.
pub open spec fn in_full_blocks(len: nat, size: nat) -> nat {
    len / size * size
}

/// What a session in the middle of an input has handed out after `pieces`, where the input has not
/// ended.
proof fn lemma_output_before_the_end(state: SessionState, pieces: Seq<Seq<u8>>)
    requires
        state.bytes_per_line > 0,
        !state.finished,
        state.pending.len() < block_size(state.bytes_per_line),
        can_be_read(state, pieces),
    ensures
        ({
            let b = state.bytes_per_line;
            let data = state.pending + pieces.flatten();
            output_of_reads(state, pieces) == encode_utf8(
                lines_text(
                    b,
                    state.offset,
                    data.take(in_full_blocks(data.len(), block_size(b)) as int),
                ),
            )
        }),
    decreases pieces.len(),
{
    let b = state.bytes_per_line;
    let size = block_size(b);
    let data = state.pending + pieces.flatten();
    law_blocks_hold_full_lines(b);
    if pieces.len() == 0 {
        assert(pieces.flatten() =~= Seq::<u8>::empty());
        lemma_basic_div(data.len() as int, size as int);
        assert(data.take(0) =~= Seq::<u8>::empty());
        lemma_no_lines(b, state.offset);
        assert(in_full_blocks(data.len(), size) == 0) by {
            lemma_mul_basics_1(size as int);
        }
        assert(output_of_reads(state, pieces) =~= encode_utf8(Seq::<char>::empty()));
    } else {
        let piece = pieces[0];
        let rest = pieces.drop_first();
        let (next, action) = state.after_read(piece);
        let pending = state.pending + piece;
        assert(pieces.flatten() == piece + rest.flatten());
        assert(pending + rest.flatten() =~= data);
        lemma_output_before_the_end(next, rest);
        if pending.len() == size {
            let later = rest.flatten();
            let q = later.len() as int / size as int;
            let whole = in_full_blocks(later.len(), size);
            let lines = lines_text(b, state.offset, pending);
            let more = lines_text(b, next.offset, later.take(whole as int));
            assert(next.pending + later =~= later);
            assert(output_of_reads(next, rest) == encode_utf8(more));
            assert(output_of_reads(state, pieces) == encode_utf8(lines) + encode_utf8(more));
            assert(in_full_blocks(data.len(), size) == whole + size) by {
                lemma_hoist_over_denominator(later.len() as int, 1, size);
                lemma_mul_is_distributive_add_other_way(size as int, q, 1);
            }
            assert(0 <= whole <= later.len()) by {
                lemma_fundamental_div_mod(later.len() as int, size as int);
                lemma_mul_is_commutative(q, size as int);
            }
            assert(data.take((whole + size) as int) =~= pending + later.take(whole as int));
            law_blocks_join(b, state.offset, pending, later.take(whole as int));
            lemma_encode_concat(lines, more);
            assert(lines + more == lines_text(b, state.offset, data.take((whole + size) as int)));
        } else {
            assert(next.pending + rest.flatten() =~= data);
            assert(output_of_reads(state, pieces) == output_of_reads(next, rest));
            assert(next.bytes_per_line == b && next.offset == state.offset);
        }
    }
}

/// A read that fails loses no block that was full by then: what a session has handed out is the
/// header, and the lines of all data that filled blocks.
pub proof fn law_failed_read_keeps_full_blocks(
    bytes_per_line: nat,
    title: Seq<char>,
    pieces: Seq<Seq<u8>>,
)
    requires
        bytes_per_line > 0,
        can_be_read(SessionState::initial(bytes_per_line), pieces),
    ensures
        ({
            let data = pieces.flatten();
            let whole = in_full_blocks(data.len(), block_size(bytes_per_line));
            let lines = lines_text(bytes_per_line, 0, data.take(whole as int));
            &&& output_of_reads(SessionState::initial(bytes_per_line), pieces) == encode_utf8(lines)
            &&& session_output(bytes_per_line, title, pieces) == encode_utf8(
                header_text(bytes_per_line, title) + lines,
            )
        }),
{
    let state = SessionState::initial(bytes_per_line);
    let data = pieces.flatten();
    law_blocks_hold_full_lines(bytes_per_line);
    lemma_output_before_the_end(state, pieces);
    assert(state.pending + data =~= data);
    let whole = in_full_blocks(data.len(), block_size(bytes_per_line));
    lemma_encode_concat(
        header_text(bytes_per_line, title),
        lines_text(bytes_per_line, 0, data.take(whole as int)),
    );
}

/// A session writes lines only where a block is full or the input has ended, keeps less than a
/// block otherwise, and asks for what the block lacks or as much of it as one read may give.
pub proof fn law_blocks_are_filled(state: SessionState, bytes: Seq<u8>)
    requires
        state.bytes_per_line > 0,
        state.pending.len() + bytes.len() <= block_size(state.bytes_per_line),
    ensures
        state.after_read(bytes).1 is Write ==> bytes.len() == 0 || state.pending.len()
            + bytes.len() == block_size(state.bytes_per_line),
        !state.after_read(bytes).0.finished ==> state.after_read(bytes).0.pending.len()
            < block_size(state.bytes_per_line),
        state.after_read(bytes).1 matches ActionView::Read(n) ==> 0 < n <= MAX_BLOCK_SIZE && n
            + state.after_read(bytes).0.pending.len() <= block_size(state.bytes_per_line) && (n
            == MAX_BLOCK_SIZE || n + state.after_read(bytes).0.pending.len() == block_size(
            state.bytes_per_line,
        )),
{
    law_blocks_hold_full_lines(state.bytes_per_line);
}

/// What an action is seen as is what it asks for.
pub proof fn law_actions_are_seen_as_they_are(action: Action)
    ensures
        action@ is Read <==> action is Read,
        action@ is Write <==> action is Write,
        action@ is Finish <==> action is Finish,
        action matches Action::Read(n) ==> action@ == ActionView::Read(n as nat),
        action matches Action::Write(bytes) ==> action@ == ActionView::Write(bytes@),
        action matches Action::Finish(bytes) ==> action@ == ActionView::Finish(bytes@),
{
}

/// A read asks for what is missing, or for as much of it as one read may give.
pub proof fn law_reads_are_limited(missing: nat)
    ensures
        read_size(missing) <= missing,
        missing <= 65536 ==> read_size(missing) == missing,
        missing > 65536 ==> read_size(missing) == 65536,
{
}

/// Behind the header and each block, a session reads on from where it is.
pub proof fn law_writes_are_followed_by_reads(state: SessionState)
    requires
        state.bytes_per_line > 0,
    ensures
        state.after_write().0 == state,
        state.after_write().1 matches ActionView::Read(n) && 0 < n <= 65536 && (n == 65536 || n
            == block_size(state.bytes_per_line)),
{
    law_blocks_hold_full_lines(state.bytes_per_line);
}

/// No byte is lost or made up: every byte that a read gave has been written or is pending. A session
/// ends with a read that gives nothing while nothing is pending, and with no other.
pub proof fn law_bytes_are_accounted_for(state: SessionState, bytes: Seq<u8>)
    requires
        state.bytes_per_line > 0,
        !state.finished,
    ensures
        ({
            let (next, action) = state.after_read(bytes);
            &&& next.bytes_per_line == state.bytes_per_line
            &&& next.offset + next.pending.len() == state.offset + state.pending.len() + bytes.len()
            &&& action is Read ==> next.offset == state.offset && next.pending == state.pending
                + bytes
            &&& action is Write ==> next.offset == state.offset + state.pending.len() + bytes.len()
            &&& next.finished <==> action is Finish
            &&& next.finished <==> state.pending.len() == 0 && bytes.len() == 0
            &&& action is Write <==> state.pending.len() + bytes.len() > 0 && (bytes.len() == 0
                || state.pending.len() + bytes.len() >= block_size(state.bytes_per_line))
        }),
{
    law_blocks_hold_full_lines(state.bytes_per_line);
}

/// What a session writes shows what was pending and what was read, behind what was shown before: each
/// line the right bytes at the right offset. At the end it writes one bar.
pub proof fn law_writes_show_what_was_read(state: SessionState, bytes: Seq<u8>)
    requires
        state.bytes_per_line > 0,
    ensures
        state.after_read(bytes).1 matches ActionView::Write(out) ==> {
            let text = decode_utf8(out);
            &&& valid_utf8(out)
            &&& unended(text).len() == 0
            &&& lines_show(rows(text), state.bytes_per_line, state.offset, state.pending + bytes)
        },
        state.after_read(bytes).1 matches ActionView::Finish(out) ==> {
            let text = decode_utf8(out);
            &&& valid_utf8(out)
            &&& text.len() > 0
            &&& is_bar(text.drop_last(), 10 + 33 * (state.bytes_per_line / 8))
            &&& text.last() == '\n'
        },
{
    let b = state.bytes_per_line;
    let lines = lines_text(b, state.offset, state.pending + bytes);
    let footer = footer_text(b);
    encode_utf8_valid_utf8(lines);
    encode_utf8_decode_utf8(lines);
    encode_utf8_valid_utf8(footer);
    encode_utf8_decode_utf8(footer);
    law_blocks_show_their_data(b, state.offset, state.pending + bytes);
    reveal_strlit("");
    assert(""@ =~= Seq::<char>::empty());
    law_borders_show_their_title(b / 8, Border::Footer, ""@);
    let width = 10 + 33 * (b / 8);
    assert(footer.drop_last() =~= footer.subrange(0, 0int + width));
}

/// What a step of a session does, seen from outside. A failure is handed back and changes nothing. A
/// write that is over is followed by a read. A read is followed by another one, by the lines of all
/// that is pending, or, where there is nothing, by the last bar.
pub proof fn law_steps_of_a_session(session: &mut Session<'_>, event: Event, r: Result<Action>)
    requires
        old(session)@.bytes_per_line > 0,
        !old(session)@.finished,
        call_ensures(Session::step, (session, event), r),
    ensures
        event matches Event::Failed(error) ==> {
            &&& r == Result::<Action>::Err(HexlerError::Io(error))
            &&& final(session)@ == old(session)@
        },
        event is Written ==> {
            &&& r matches Ok(Action::Read(n))
            &&& 0 < n <= 65536
            &&& final(session)@ == old(session)@
        },
        event matches Event::Received(bytes) ==> {
            let data = old(session)@.pending + bytes@;
            &&& r matches Ok(action)
            &&& final(session)@.bytes_per_line == old(session)@.bytes_per_line
            &&& match action {
                Action::Read(n) => {
                    &&& 0 < n <= 65536
                    &&& bytes@.len() > 0
                    &&& final(session)@.pending == data
                    &&& final(session)@.offset == old(session)@.offset
                    &&& !final(session)@.finished
                },
                Action::Write(out) => {
                    &&& data.len() > 0
                    &&& valid_utf8(out@)
                    &&& unended(decode_utf8(out@)).len() == 0
                    &&& lines_show(
                        rows(decode_utf8(out@)),
                        old(session)@.bytes_per_line,
                        old(session)@.offset,
                        data,
                    )
                    &&& final(session)@.pending.len() == 0
                    &&& final(session)@.offset == old(session)@.offset + data.len()
                    &&& !final(session)@.finished
                },
                Action::Finish(out) => {
                    &&& data.len() == 0
                    &&& valid_utf8(out@)
                    &&& decode_utf8(out@).len() > 0
                    &&& is_bar(
                        decode_utf8(out@).drop_last(),
                        10 + 33 * (old(session)@.bytes_per_line / 8),
                    )
                    &&& decode_utf8(out@).last() == '\n'
                    &&& final(session)@.finished
                },
            }
        },
{
    let state = old(session)@;
    law_blocks_hold_full_lines(state.bytes_per_line);
    if let Ok(action) = r {
        law_actions_are_seen_as_they_are(action);
    }
    if let Event::Received(bytes) = event {
        law_writes_show_what_was_read(state, bytes@);
    }
}

/// Whatever a session asks for can be answered: a read by as many bytes as it asked for or fewer, as
/// far as their number is one, and a write by its end. Everything can fail.
pub proof fn law_answers_are_admitted(
    state: SessionState,
    bytes: Seq<u8>,
    answer: Event,
    failure: Event,
)
    requires
        state.bytes_per_line > 0,
        !state.finished,
        failure is Failed,
    ensures
        ({
            let (next, action) = state.after_read(bytes);
            &&& action matches ActionView::Read(n) ==> {
                answer matches Event::Received(given) ==> given@.len() <= n && next.offset
                    + next.pending.len() + given@.len() <= usize::MAX ==> next.admits(answer)
            }
            &&& action is Write ==> answer is Written ==> next.admits(answer)
            &&& next.admits(failure)
        }),
        state.admits(failure),
        state.pending.len() == 0 && answer is Written ==> state.admits(answer),
        state.pending.len() == 0 ==> {
            state.after_write().1 matches ActionView::Read(n) ==> {
                answer matches Event::Received(given) ==> given@.len() <= n && state.offset
                    + given@.len() <= usize::MAX ==> state.admits(answer)
            }
        },
{
    law_blocks_hold_full_lines(state.bytes_per_line);
}

/// What a dump writes is UTF-8, and reads back as the text of the dump.
pub proof fn law_dump_reads_back(bytes_per_line: nat, title: Seq<char>, data: Seq<u8>)
    ensures
        valid_utf8(encode_utf8(dump_text(bytes_per_line, title, data))),
        decode_utf8(encode_utf8(dump_text(bytes_per_line, title, data))) == dump_text(
            bytes_per_line,
            title,
            data,
        ),
{
    encode_utf8_valid_utf8(dump_text(bytes_per_line, title, data));
    encode_utf8_decode_utf8(dump_text(bytes_per_line, title, data));
}

} // verus!
