//! A dump loses nothing: the data can be told from it.

use vstd::prelude::*;

use crate::ascii_renderer::{ascii_cell, ascii_column};
use crate::blocks::{
    block_line, first_lines, lemma_line_begins, line_bytes, line_count, line_end, lines_text,
};
use crate::byte_to_color::{color_text, reset_text};
use crate::dump::dump_text;
use crate::hex_formatter::{byte_text, gap, hex_cell, hex_column, offset_text};
use crate::line_writer::{line_text, valid_bytes_per_line};
use crate::session::{footer_text, header_text};
use crate::shown::lemma_first_lines_count;
use crate::text::digit_char;

verus! {

/// Two equal texts that are cut at the same place have equal parts.
proof fn lemma_equal_parts(a: Seq<char>, b: Seq<char>, c: Seq<char>, d: Seq<char>)
    requires
        a + b == c + d,
        a.len() == c.len(),
    ensures
        a == c,
        b == d,
{
    assert(a =~= (a + b).subrange(0, a.len() as int));
    assert(c =~= (c + d).subrange(0, c.len() as int));
    assert(b =~= (a + b).subrange(a.len() as int, (a + b).len() as int));
    assert(d =~= (c + d).subrange(c.len() as int, (c + d).len() as int));
}

/// All colours are written with the same number of characters.
proof fn lemma_cell_lengths(b: u8)
    ensures
        color_text(b).len() == 5,
        hex_cell(b).len() == 11,
        ascii_cell(b).len() == 10,
{
    reveal_strlit("\x1b[90m");
    reveal_strlit("\x1b[32m");
    reveal_strlit("\x1b[36m");
    reveal_strlit("\x1b[35m");
    reveal_strlit("\x1b[33m");
    reveal_strlit("\x1b[0m");
}

/// A byte can be told from its cell.
proof fn lemma_cell_tells_byte(a: u8, b: u8)
    requires
        hex_cell(a) == hex_cell(b),
    ensures
        a == b,
{
    lemma_cell_lengths(a);
    lemma_cell_lengths(b);
    lemma_equal_parts(
        color_text(a) + byte_text(a),
        reset_text(),
        color_text(b) + byte_text(b),
        reset_text(),
    );
    lemma_equal_parts(color_text(a), byte_text(a), color_text(b), byte_text(b));
    assert(byte_text(a)[0] == byte_text(b)[0]);
    assert(byte_text(a)[1] == byte_text(b)[1]);
    assert(digit_char((a / 16) as int) == digit_char((b / 16) as int));
    assert(digit_char((a % 16) as int) == digit_char((b % 16) as int));
}

/// How many characters the gaps in front of the first `slots` cells are.
spec fn gap_length(slots: nat) -> nat
    decreases slots,
{
    if slots == 0 {
        0
    } else {
        gap_length((slots - 1) as nat) + gap(slots - 1).len()
    }
}

/// The smaller of two numbers.
spec fn smaller(a: nat, b: nat) -> nat {
    if a < b {
        a
    } else {
        b
    }
}

/// The length of a hexadecimal column depends on the number of bytes alone.
proof fn lemma_hex_column_length(bytes: Seq<u8>, slots: nat)
    ensures
        hex_column(bytes, slots).len() == gap_length(slots) + 2 * slots + 9 * smaller(
            slots,
            bytes.len(),
        ),
    decreases slots,
{
    if slots > 0 {
        lemma_hex_column_length(bytes, (slots - 1) as nat);
        reveal_strlit("  ");
        if slots - 1 < bytes.len() {
            lemma_cell_lengths(bytes[slots - 1]);
        }
    }
}

/// The length of a character column depends on the number of bytes alone.
proof fn lemma_ascii_column_length(bytes: Seq<u8>)
    ensures
        ascii_column(bytes).len() == 10 * bytes.len(),
    decreases bytes.len(),
{
    if bytes.len() > 0 {
        lemma_ascii_column_length(bytes.drop_last());
        lemma_cell_lengths(bytes.last());
    }
}

/// Bytes can be told from a hexadecimal column, where their number is known.
proof fn lemma_column_tells_bytes(a: Seq<u8>, b: Seq<u8>, slots: nat, index: int)
    requires
        a.len() == b.len(),
        hex_column(a, slots) == hex_column(b, slots),
        0 <= index < a.len(),
        index < slots,
    ensures
        a[index] == b[index],
    decreases slots,
{
    let last = slots - 1;
    let front_a = hex_column(a, last as nat);
    let front_b = hex_column(b, last as nat);
    lemma_hex_column_length(a, last as nat);
    lemma_hex_column_length(b, last as nat);
    let cell_a = if last < a.len() {
        hex_cell(a[last])
    } else {
        "  "@
    };
    let cell_b = if last < b.len() {
        hex_cell(b[last])
    } else {
        "  "@
    };
    lemma_equal_parts(front_a + gap(last), cell_a, front_b + gap(last), cell_b);
    lemma_equal_parts(front_a, gap(last), front_b, gap(last));
    if index == last {
        lemma_cell_tells_byte(a[index], b[index]);
    } else {
        lemma_column_tells_bytes(a, b, last as nat, index);
    }
}

/// The length of a line depends on its offset and the number of its bytes alone, and grows with
/// that number.
proof fn lemma_line_length(bytes_per_line: nat, offset: nat, bytes: Seq<u8>)
    requires
        bytes.len() <= bytes_per_line,
    ensures
        line_text(bytes_per_line, offset, bytes).len() == offset_text(offset).len() + gap_length(
            bytes_per_line,
        ) + 2 * bytes_per_line + 3 + 19 * bytes.len(),
{
    lemma_hex_column_length(bytes, bytes_per_line);
    lemma_ascii_column_length(bytes);
    reveal_strlit("  ");
    reveal_strlit("\n");
}

/// Bytes can be told from a line, where their number is known.
proof fn lemma_line_tells_bytes(bytes_per_line: nat, offset: nat, a: Seq<u8>, b: Seq<u8>)
    requires
        a.len() == b.len() <= bytes_per_line,
        line_text(bytes_per_line, offset, a) == line_text(bytes_per_line, offset, b),
    ensures
        a == b,
{
    let front = offset_text(offset);
    let hex_a = hex_column(a, bytes_per_line);
    let hex_b = hex_column(b, bytes_per_line);
    lemma_hex_column_length(a, bytes_per_line);
    lemma_hex_column_length(b, bytes_per_line);
    let rest_a = "  "@ + ascii_column(a) + "\n"@;
    let rest_b = "  "@ + ascii_column(b) + "\n"@;
    assert(line_text(bytes_per_line, offset, a) =~= front + hex_a + rest_a);
    assert(line_text(bytes_per_line, offset, b) =~= front + hex_b + rest_b);
    lemma_equal_parts(front + hex_a, rest_a, front + hex_b, rest_b);
    lemma_equal_parts(front, hex_a, front, hex_b);
    assert forall|i: int| 0 <= i < a.len() implies a[i] == b[i] by {
        lemma_column_tells_bytes(a, b, bytes_per_line, i);
    }
    assert(a =~= b);
}

/// Every line in front of the last is full.
proof fn lemma_line_is_full(len: nat, bytes_per_line: nat, index: int)
    requires
        bytes_per_line > 0,
        0 <= index < line_count(len, bytes_per_line) - 1,
    ensures
        0 <= index * bytes_per_line,
        line_end(len, bytes_per_line, index) == index * bytes_per_line + bytes_per_line <= len,
{
    lemma_line_begins(len, bytes_per_line, index);
    lemma_line_begins(len, bytes_per_line, index + 1);
    assert((index + 1) * bytes_per_line == index * bytes_per_line + bytes_per_line)
        by (nonlinear_arith);
}

/// Full lines of two blocks take the same number of characters.
proof fn lemma_full_lines_length(
    bytes_per_line: nat,
    offset: nat,
    a: Seq<u8>,
    b: Seq<u8>,
    count: nat,
)
    requires
        bytes_per_line > 0,
        count < line_count(a.len(), bytes_per_line),
        count < line_count(b.len(), bytes_per_line),
    ensures
        first_lines(bytes_per_line, offset, a, count).len() == first_lines(
            bytes_per_line,
            offset,
            b,
            count,
        ).len(),
    decreases count,
{
    if count > 0 {
        let i = count - 1;
        lemma_full_lines_length(bytes_per_line, offset, a, b, i as nat);
        lemma_line_is_full(a.len(), bytes_per_line, i);
        lemma_line_is_full(b.len(), bytes_per_line, i);
        let there = (offset + i * bytes_per_line) as nat;
        lemma_line_length(bytes_per_line, there, line_bytes(a, bytes_per_line, i));
        lemma_line_length(bytes_per_line, there, line_bytes(b, bytes_per_line, i));
    }
}

/// Equal full lines show equal bytes.
proof fn lemma_full_lines_tell_bytes(
    bytes_per_line: nat,
    offset: nat,
    a: Seq<u8>,
    b: Seq<u8>,
    count: nat,
)
    requires
        bytes_per_line > 0,
        count < line_count(a.len(), bytes_per_line),
        count < line_count(b.len(), bytes_per_line),
        first_lines(bytes_per_line, offset, a, count) == first_lines(
            bytes_per_line,
            offset,
            b,
            count,
        ),
    ensures
        0 <= count * bytes_per_line <= a.len(),
        count * bytes_per_line <= b.len(),
        a.take(count as int * bytes_per_line) == b.take(count as int * bytes_per_line),
    decreases count,
{
    if count > 0 {
        let i = count - 1;
        lemma_full_lines_length(bytes_per_line, offset, a, b, i as nat);
        lemma_equal_parts(
            first_lines(bytes_per_line, offset, a, i as nat),
            block_line(bytes_per_line, offset, a, i),
            first_lines(bytes_per_line, offset, b, i as nat),
            block_line(bytes_per_line, offset, b, i),
        );
        lemma_full_lines_tell_bytes(bytes_per_line, offset, a, b, i as nat);
        lemma_line_is_full(a.len(), bytes_per_line, i);
        lemma_line_is_full(b.len(), bytes_per_line, i);
        let line_a = line_bytes(a, bytes_per_line, i);
        let line_b = line_bytes(b, bytes_per_line, i);
        lemma_line_tells_bytes(
            bytes_per_line,
            (offset + i * bytes_per_line) as nat,
            line_a,
            line_b,
        );
        assert(count * bytes_per_line == i * bytes_per_line + bytes_per_line) by (nonlinear_arith)
            requires
                i == count - 1,
        ;
        assert(a.take(count as int * bytes_per_line) =~= a.take(i * bytes_per_line) + line_a);
        assert(b.take(count as int * bytes_per_line) =~= b.take(i * bytes_per_line) + line_b);
    } else {
        assert(0 * bytes_per_line == 0) by (nonlinear_arith);
        assert(a.take(0) =~= b.take(0));
    }
}

/// Data can be told from its lines.
proof fn lemma_lines_tell_bytes(bytes_per_line: nat, offset: nat, a: Seq<u8>, b: Seq<u8>)
    requires
        bytes_per_line > 0,
        lines_text(bytes_per_line, offset, a) == lines_text(bytes_per_line, offset, b),
    ensures
        a == b,
{
    let n = line_count(a.len(), bytes_per_line);
    lemma_first_lines_count(bytes_per_line, offset, a, n);
    lemma_first_lines_count(bytes_per_line, offset, b, line_count(b.len(), bytes_per_line));
    assert(line_count(b.len(), bytes_per_line) == n);
    if n == 0 {
        lemma_some_lines(a.len(), bytes_per_line);
        lemma_some_lines(b.len(), bytes_per_line);
        assert(a =~= b);
    } else {
        let last = n - 1;
        lemma_full_lines_length(bytes_per_line, offset, a, b, last as nat);
        lemma_equal_parts(
            first_lines(bytes_per_line, offset, a, last as nat),
            block_line(bytes_per_line, offset, a, last),
            first_lines(bytes_per_line, offset, b, last as nat),
            block_line(bytes_per_line, offset, b, last),
        );
        lemma_full_lines_tell_bytes(bytes_per_line, offset, a, b, last as nat);
        lemma_line_begins(a.len(), bytes_per_line, last);
        lemma_line_begins(b.len(), bytes_per_line, last);
        lemma_last_line(a.len(), bytes_per_line);
        lemma_last_line(b.len(), bytes_per_line);
        let line_a = line_bytes(a, bytes_per_line, last);
        let line_b = line_bytes(b, bytes_per_line, last);
        let there = (offset + last * bytes_per_line) as nat;
        lemma_line_length(bytes_per_line, there, line_a);
        lemma_line_length(bytes_per_line, there, line_b);
        lemma_line_tells_bytes(bytes_per_line, there, line_a, line_b);
        assert(a =~= a.take(last * bytes_per_line) + line_a);
        assert(b =~= b.take(last * bytes_per_line) + line_b);
    }
}

/// Data takes at least one line.
proof fn lemma_some_lines(len: nat, bytes_per_line: nat)
    requires
        bytes_per_line > 0,
        line_count(len, bytes_per_line) == 0,
    ensures
        len == 0,
{
    if len > 0 {
        vstd::arithmetic::div_mod::lemma_div_non_zero(
            len + bytes_per_line - 1,
            bytes_per_line as int,
        );
    }
}

/// The last line ends where the data does.
proof fn lemma_last_line(len: nat, bytes_per_line: nat)
    requires
        bytes_per_line > 0,
        line_count(len, bytes_per_line) > 0,
    ensures
        line_end(len, bytes_per_line, line_count(len, bytes_per_line) - 1) == len,
{
    let b = bytes_per_line as int;
    let n = line_count(len, bytes_per_line) as int;
    vstd::arithmetic::div_mod::lemma_fundamental_div_mod(len + b - 1, b);
    vstd::arithmetic::mul::lemma_mul_is_commutative(n, b);
}

/// A dump loses nothing: two dumps with the same title and the same number of bytes per line are
/// equal only where the data is.
pub proof fn law_dump_tells_data(bytes_per_line: nat, title: Seq<char>, a: Seq<u8>, b: Seq<u8>)
    requires
        valid_bytes_per_line(bytes_per_line),
        dump_text(bytes_per_line, title, a) == dump_text(bytes_per_line, title, b),
    ensures
        a == b,
{
    let header = header_text(bytes_per_line, title);
    let footer = footer_text(bytes_per_line);
    let lines_a = lines_text(bytes_per_line, 0, a);
    let lines_b = lines_text(bytes_per_line, 0, b);
    let whole_a = dump_text(bytes_per_line, title, a);
    let whole_b = dump_text(bytes_per_line, title, b);
    assert(whole_a == header + lines_a + footer);
    assert(whole_b == header + lines_b + footer);
    assert(whole_a.len() == header.len() + lines_a.len() + footer.len());
    assert(whole_b.len() == header.len() + lines_b.len() + footer.len());
    lemma_equal_parts(header + lines_a, footer, header + lines_b, footer);
    lemma_equal_parts(header, lines_a, header, lines_b);
    lemma_lines_tell_bytes(bytes_per_line, 0, a, b);
}

} // verus!
