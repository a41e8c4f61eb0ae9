//! What a reader sees of a dump: columns, lines, and the bytes and titles in them.

use vstd::prelude::*;

use crate::ascii_renderer::{ascii_cell, ascii_char, ascii_column};
use crate::blocks::{block_line, first_lines, line_bytes, line_count, lines_text};
use crate::border_writer::{bar_text, columns_for, title_line};
use crate::byte_to_color::{color_text, reset_text};
use crate::dump::{body_text, dump_text, every_byte, DEMO_TITLE};
use crate::hex_formatter::{byte_text, gap, hex_cell, hex_column, offset_text};
use crate::line_writer::{larger, line_text, line_width, valid_bytes_per_line};
use crate::session::{footer_text, header_text};
use crate::text::{hex_text, repeated};

verus! {

/// Whether an escape sequence has begun in `text` and not ended. The sequences used here end with
/// an `m`.
pub open spec fn escape_is_open(text: Seq<char>) -> bool
    decreases text.len(),
{
    if text.len() == 0 {
        false
    } else if escape_is_open(text.drop_last()) {
        text.last() != 'm'
    } else {
        text.last() == '\x1b'
    }
}

/// How many columns of a terminal `text` takes: escape sequences and line ends take none.
pub open spec fn columns(text: Seq<char>) -> nat
    decreases text.len(),
{
    if text.len() == 0 {
        0
    } else if escape_is_open(text.drop_last()) || text.last() == '\x1b' || text.last() == '\n' {
        columns(text.drop_last())
    } else {
        columns(text.drop_last()) + 1
    }
}

/// Whether `text` has no escape sequence left open, and takes `n` columns.
pub open spec fn takes(text: Seq<char>, n: nat) -> bool {
    !escape_is_open(text) && columns(text) == n
}

/// How many line ends `text` holds.
pub open spec fn line_ends(text: Seq<char>) -> nat
    decreases text.len(),
{
    if text.len() == 0 {
        0
    } else {
        line_ends(text.drop_last()) + if text.last() == '\n' {
            1nat
        } else {
            0
        }
    }
}

/// Whether `part` stands somewhere in `text`.
pub open spec fn occurs(part: Seq<char>, text: Seq<char>) -> bool {
    exists|at: int|
        0 <= at && at + part.len() <= text.len() && #[trigger] text.subrange(at, at + part.len())
            == part
}

/// Columns add up.
proof fn lemma_takes_concat(a: Seq<char>, m: nat, b: Seq<char>, n: nat)
    requires
        takes(a, m),
        takes(b, n),
    ensures
        takes(a + b, m + n),
{
    lemma_columns_concat(a, b);
}

/// Behind text without an open escape sequence, text takes what it takes by itself.
proof fn lemma_columns_concat(a: Seq<char>, b: Seq<char>)
    requires
        !escape_is_open(a),
    ensures
        escape_is_open(a + b) == escape_is_open(b),
        columns(a + b) == columns(a) + columns(b),
    decreases b.len(),
{
    if b.len() == 0 {
        assert(a + b =~= a);
    } else {
        lemma_columns_concat(a, b.drop_last());
        assert((a + b).drop_last() =~= a + b.drop_last());
    }
}

/// Text without escape sequences and line ends takes one column for each character.
proof fn lemma_plain_takes(text: Seq<char>)
    requires
        forall|i: int| 0 <= i < text.len() ==> text[i] != '\x1b' && text[i] != '\n',
    ensures
        takes(text, text.len()),
    decreases text.len(),
{
    if text.len() > 0 {
        assert forall|i: int| 0 <= i < text.drop_last().len() implies text.drop_last()[i] != '\x1b'
            && text.drop_last()[i] != '\n' by {
            assert(text.drop_last()[i] == text[i]);
        }
        lemma_plain_takes(text.drop_last());
    }
}

/// Line ends add up.
pub proof fn lemma_line_ends_concat(a: Seq<char>, b: Seq<char>)
    ensures
        line_ends(a + b) == line_ends(a) + line_ends(b),
    decreases b.len(),
{
    if b.len() == 0 {
        assert(a + b =~= a);
    } else {
        lemma_line_ends_concat(a, b.drop_last());
        assert((a + b).drop_last() =~= a + b.drop_last());
    }
}

/// Text without line ends has none.
proof fn lemma_no_line_ends(text: Seq<char>)
    requires
        forall|i: int| 0 <= i < text.len() ==> text[i] != '\n',
    ensures
        line_ends(text) == 0,
    decreases text.len(),
{
    if text.len() > 0 {
        assert forall|i: int| 0 <= i < text.drop_last().len() implies text.drop_last()[i] != '\n' by {
            assert(text.drop_last()[i] == text[i]);
        }
        lemma_no_line_ends(text.drop_last());
    }
}

/// What stands in a part stands in the whole.
proof fn lemma_occurs_within(part: Seq<char>, before: Seq<char>, text: Seq<char>, after: Seq<char>)
    requires
        occurs(part, text),
    ensures
        occurs(part, before + text + after),
{
    let at = choose|at: int|
        0 <= at && at + part.len() <= text.len() && #[trigger] text.subrange(at, at + part.len())
            == part;
    let whole = before + text + after;
    let there = before.len() + at;
    assert(whole.subrange(there, there + part.len()) =~= text.subrange(at, at + part.len()));
}

/// Text stands in itself.
proof fn lemma_occurs_in_itself(text: Seq<char>)
    ensures
        occurs(text, text),
{
    assert(text.subrange(0, 0int + text.len()) =~= text);
}

/// The escape sequences that set a colour take no columns and hold no line ends.
proof fn lemma_color_takes_nothing(b: u8)
    ensures
        takes(color_text(b), 0),
        takes(reset_text(), 0),
        line_ends(color_text(b)) == 0,
        line_ends(reset_text()) == 0,
{
    reveal_strlit("\x1b[90m");
    reveal_strlit("\x1b[32m");
    reveal_strlit("\x1b[36m");
    reveal_strlit("\x1b[35m");
    reveal_strlit("\x1b[33m");
    reveal_strlit("\x1b[0m");
    lemma_escape(color_text(b));
    lemma_escape(reset_text());
    lemma_no_line_ends(color_text(b));
    lemma_no_line_ends(reset_text());
}

/// An escape sequence takes no columns.
proof fn lemma_escape(text: Seq<char>)
    requires
        text.len() >= 2,
        text[0] == '\x1b',
        text.last() == 'm',
        forall|i: int| 1 <= i < text.len() - 1 ==> text[i] != 'm',
    ensures
        takes(text, 0),
{
    lemma_escape_goes_on(text.drop_last());
}

/// An escape sequence without its end is open, and takes no columns.
proof fn lemma_escape_goes_on(text: Seq<char>)
    requires
        text.len() >= 1,
        text[0] == '\x1b',
        forall|i: int| 1 <= i < text.len() ==> text[i] != 'm',
    ensures
        escape_is_open(text),
        columns(text) == 0,
    decreases text.len(),
{
    if text.len() == 1 {
        assert(columns(text.drop_last()) == 0);
    } else {
        lemma_escape_goes_on(text.drop_last());
    }
}

/// Whether `text` has neither escape sequences nor line ends.
spec fn plain(text: Seq<char>) -> bool {
    forall|i: int| 0 <= i < text.len() ==> text[i] != '\x1b' && text[i] != '\n'
}

/// Plain text takes its length and has no line ends.
proof fn lemma_plain(text: Seq<char>)
    requires
        plain(text),
    ensures
        takes(text, text.len()),
        line_ends(text) == 0,
{
    lemma_plain_takes(text);
    lemma_no_line_ends(text);
}

/// Numbers are plain.
proof fn lemma_hex_is_plain(n: nat)
    ensures
        plain(hex_text(n)),
    decreases n,
{
    if n >= 16 {
        lemma_hex_is_plain(n / 16);
    }
}

/// A number below `16^k` has at most `k` hexadecimal digits.
pub proof fn lemma_hex_digits(n: nat, k: nat)
    requires
        k >= 1,
        n < vstd::arithmetic::power::pow(16, k),
    ensures
        hex_text(n).len() <= k,
    decreases k,
{
    reveal(vstd::arithmetic::power::pow);
    if n >= 16 {
        if k == 1 {
            assert(vstd::arithmetic::power::pow(16, 0) == 1);
        } else {
            lemma_hex_digits(n / 16, (k - 1) as nat);
        }
    }
}

/// An offset takes eight columns while eight digits are enough, and has no line ends.
proof fn lemma_offset_takes(offset: nat)
    ensures
        plain(offset_text(offset)),
        line_ends(offset_text(offset)) == 0,
        offset < 0x1_0000_0000 ==> takes(offset_text(offset), 8),
{
    lemma_hex_is_plain(offset);
    let text = offset_text(offset);
    let digits = hex_text(offset);
    if digits.len() < 8 {
        let zeros = repeated('0', (8 - digits.len()) as nat);
        assert forall|i: int| 0 <= i < text.len() implies text[i] != '\x1b' && text[i] != '\n' by {
            if i < zeros.len() {
                assert(text[i] == zeros[i]);
            } else {
                assert(text[i] == digits[i - zeros.len()]);
            }
        }
    }
    lemma_plain(text);
    if offset < 0x1_0000_0000 {
        assert(vstd::arithmetic::power::pow(16, 8) == 0x1_0000_0000) by {
            reveal(vstd::arithmetic::power::pow);
            reveal_with_fuel(vstd::arithmetic::power::pow, 9);
        }
        lemma_hex_digits(offset, 8);
    }
}

/// Plain text in the colour of a byte takes its length.
proof fn lemma_colored(b: u8, shown: Seq<char>)
    requires
        plain(shown),
    ensures
        takes(color_text(b) + shown + reset_text(), shown.len()),
        line_ends(color_text(b) + shown + reset_text()) == 0,
        occurs(shown, color_text(b) + shown + reset_text()),
{
    lemma_color_takes_nothing(b);
    lemma_plain(shown);
    lemma_takes_concat(color_text(b), 0, shown, shown.len());
    lemma_takes_concat(color_text(b) + shown, shown.len(), reset_text(), 0);
    lemma_line_ends_concat(color_text(b), shown);
    lemma_line_ends_concat(color_text(b) + shown, reset_text());
    lemma_occurs_in_itself(shown);
    lemma_occurs_within(shown, color_text(b), shown, reset_text());
}

/// A coloured cell takes what it shows.
proof fn lemma_cells_take(b: u8)
    ensures
        takes(hex_cell(b), 2),
        line_ends(hex_cell(b)) == 0,
        takes(ascii_cell(b), 1),
        line_ends(ascii_cell(b)) == 0,
        occurs(byte_text(b), hex_cell(b)),
{
    assert(plain(byte_text(b)));
    lemma_colored(b, byte_text(b));
    assert(plain(seq![ascii_char(b)]));
    lemma_colored(b, seq![ascii_char(b)]);
}

/// The space in front of a cell takes the columns that it has characters.
proof fn lemma_gap_takes(index: int)
    ensures
        gap(index).len() == if index % 8 == 0 {
            2nat
        } else {
            1
        },
        takes(gap(index), gap(index).len()),
        line_ends(gap(index)) == 0,
{
    reveal_strlit("  ");
    reveal_strlit(" ");
    lemma_plain(gap(index));
}

/// A blank cell takes two columns.
proof fn lemma_blank_takes()
    ensures
        takes("  "@, 2),
        line_ends("  "@) == 0,
{
    reveal_strlit("  ");
    lemma_plain("  "@);
}

/// `slots` cells take three columns each, and one more for each group of eight.
proof fn lemma_hex_column_takes(bytes: Seq<u8>, slots: nat)
    ensures
        takes(hex_column(bytes, slots), 3 * slots + (slots + 7) / 8),
        line_ends(hex_column(bytes, slots)) == 0,
    decreases slots,
{
    if slots > 0 {
        let index = slots - 1;
        lemma_hex_column_takes(bytes, index as nat);
        let before = hex_column(bytes, index as nat);
        let cell = if index < bytes.len() {
            hex_cell(bytes[index])
        } else {
            "  "@
        };
        lemma_gap_takes(index);
        lemma_blank_takes();
        if index < bytes.len() {
            lemma_cells_take(bytes[index]);
        }
        let taken = 3 * index as nat + (index + 7) as nat / 8;
        lemma_takes_concat(before, taken, gap(index), gap(index).len());
        lemma_takes_concat(before + gap(index), taken + gap(index).len(), cell, 2);
        lemma_line_ends_concat(before, gap(index));
        lemma_line_ends_concat(before + gap(index), cell);
        assert(hex_column(bytes, slots) == before + gap(index) + cell);
        assert(taken + gap(index).len() + 2 == 3 * slots + (slots + 7) / 8);
    }
}

/// Each byte takes one column as a character.
proof fn lemma_ascii_column_takes(bytes: Seq<u8>)
    ensures
        takes(ascii_column(bytes), bytes.len()),
        line_ends(ascii_column(bytes)) == 0,
    decreases bytes.len(),
{
    if bytes.len() > 0 {
        lemma_ascii_column_takes(bytes.drop_last());
        lemma_cells_take(bytes.last());
        lemma_takes_concat(
            ascii_column(bytes.drop_last()),
            (bytes.len() - 1) as nat,
            ascii_cell(bytes.last()),
            1,
        );
        lemma_line_ends_concat(ascii_column(bytes.drop_last()), ascii_cell(bytes.last()));
    }
}

/// A line end takes no columns.
pub proof fn lemma_line_end()
    ensures
        takes("\n"@, 0),
        line_ends("\n"@) == 1,
{
    reveal_strlit("\n");
    let nothing = "\n"@.drop_last();
    assert(columns(nothing) == 0 && !escape_is_open(nothing) && line_ends(nothing) == 0);
}

/// What a line takes.
pub proof fn lemma_line_parts(bytes_per_line: nat, offset: nat, bytes: Seq<u8>)
    ensures
        line_ends(line_text(bytes_per_line, offset, bytes)) == 1,
        offset < 0x1_0000_0000 ==> ({
            let slots = larger(bytes_per_line, bytes.len());
            columns(line_text(bytes_per_line, offset, bytes)) == 10 + 3 * slots + (slots + 7) / 8
                + bytes.len()
        }),
{
    let slots = larger(bytes_per_line, bytes.len());
    let front = offset_text(offset);
    let hex = hex_column(bytes, slots);
    let chars = ascii_column(bytes);
    lemma_offset_takes(offset);
    lemma_hex_column_takes(bytes, slots);
    lemma_ascii_column_takes(bytes);
    reveal_strlit("  ");
    reveal_strlit("\n");
    lemma_plain("  "@);
    lemma_line_ends_concat(front, hex);
    lemma_line_ends_concat(front + hex, "  "@);
    lemma_line_ends_concat(front + hex + "  "@, chars);
    lemma_line_ends_concat(front + hex + "  "@ + chars, "\n"@);
    lemma_line_end();
    if offset < 0x1_0000_0000 {
        let w = 3 * slots + (slots + 7) / 8;
        lemma_takes_concat(front, 8, hex, w);
        lemma_takes_concat(front + hex, 8 + w, "  "@, 2);
        lemma_takes_concat(front + hex + "  "@, 10 + w, chars, bytes.len());
        lemma_takes_concat(front + hex + "  "@ + chars, 10 + w + bytes.len(), "\n"@, 0);
    }
}

/// A full line takes exactly the width that the number of bytes per line was chosen by; a line
/// with fewer bytes takes one column less for each. This holds while the offset has no more than
/// eight digits.
pub proof fn law_lines_fill_their_width(bytes_per_line: nat, offset: nat, bytes: Seq<u8>)
    requires
        valid_bytes_per_line(bytes_per_line),
        offset < 0x1_0000_0000,
        bytes.len() <= bytes_per_line,
    ensures
        columns(line_text(bytes_per_line, offset, bytes)) + (bytes_per_line - bytes.len())
            == line_width(bytes_per_line),
{
    lemma_line_parts(bytes_per_line, offset, bytes);
}

/// The bars are as wide as full lines.
pub proof fn law_bars_are_as_wide_as_lines(bytes_per_line: nat)
    ensures
        columns(bar_text(bytes_per_line / 8)) == line_width(bytes_per_line),
        line_ends(bar_text(bytes_per_line / 8)) == 1,
{
    let bar = repeated('─', columns_for(bytes_per_line / 8));
    lemma_plain(bar);
    assert(bar_text(bytes_per_line / 8).drop_last() =~= bar);
}

/// The first lines of a block are that many lines.
pub proof fn lemma_first_lines_count(bytes_per_line: nat, offset: nat, data: Seq<u8>, count: nat)
    ensures
        line_ends(first_lines(bytes_per_line, offset, data, count)) == count,
    decreases count,
{
    if count > 0 {
        let i = count - 1;
        lemma_first_lines_count(bytes_per_line, offset, data, i as nat);
        lemma_line_parts(
            bytes_per_line,
            (offset + i * bytes_per_line) as nat,
            line_bytes(data, bytes_per_line, i),
        );
        lemma_line_ends_concat(
            first_lines(bytes_per_line, offset, data, i as nat),
            block_line(bytes_per_line, offset, data, i),
        );
    }
}

/// A dump has one line for every `bytes_per_line` bytes and one for what is left of them, a bar
/// above and a bar below them, and the lines of its title.
pub proof fn law_lines_of_a_dump(bytes_per_line: nat, title: Seq<char>, data: Seq<u8>)
    requires
        valid_bytes_per_line(bytes_per_line),
    ensures
        line_ends(dump_text(bytes_per_line, title, data)) == line_ends(title_line(title)) + 2
            + line_count(data.len(), bytes_per_line),
        title.len() > 0 ==> line_ends(title_line(title)) == line_ends(title) + 1,
        title.len() == 0 ==> line_ends(title_line(title)) == 0,
{
    law_bars_are_as_wide_as_lines(bytes_per_line);
    let bar = bar_text(bytes_per_line / 8);
    let lines = body_text(bytes_per_line, data);
    lemma_first_lines_count(bytes_per_line, 0, data, line_count(data.len(), bytes_per_line));
    reveal_strlit("");
    assert(title_line(""@) =~= Seq::<char>::empty());
    lemma_line_ends_concat(title_line(title), bar);
    lemma_line_ends_concat(bar, title_line(""@));
    lemma_line_ends_concat(header_text(bytes_per_line, title), lines);
    lemma_line_ends_concat(
        header_text(bytes_per_line, title) + lines,
        footer_text(bytes_per_line),
    );
    if title.len() > 0 {
        assert(title_line(title).drop_last() =~= title);
    }
}

/// The title of a dump stands in it.
pub proof fn law_title_is_shown(bytes_per_line: nat, title: Seq<char>, data: Seq<u8>)
    ensures
        occurs(title, dump_text(bytes_per_line, title, data)),
{
    let bar = bar_text(bytes_per_line / 8);
    let rest = bar + body_text(bytes_per_line, data) + footer_text(bytes_per_line);
    let dumped = dump_text(bytes_per_line, title, data);
    lemma_occurs_in_itself(title);
    if title.len() == 0 {
        assert(dumped.subrange(0, 0) =~= title);
        assert(occurs(title, dumped)) by {
            assert(dumped.subrange(0, 0int + title.len()) == title);
        }
    } else {
        lemma_occurs_within(title, Seq::empty(), title, seq!['\n'] + rest);
        assert(Seq::<char>::empty() + title + (seq!['\n'] + rest) =~= dumped);
    }
}

/// A byte in a hexadecimal column stands there as two digits.
proof fn lemma_byte_in_column(bytes: Seq<u8>, slots: nat, index: int)
    requires
        0 <= index < bytes.len(),
        index < slots,
    ensures
        occurs(byte_text(bytes[index]), hex_column(bytes, slots)),
    decreases slots,
{
    let last = slots - 1;
    let before = hex_column(bytes, last as nat);
    let digits = byte_text(bytes[index]);
    if index == last {
        let cell = hex_cell(bytes[index]);
        lemma_cells_take(bytes[index]);
        lemma_occurs_within(digits, before + gap(last), cell, Seq::empty());
        assert(before + gap(last) + cell + Seq::<char>::empty() =~= hex_column(bytes, slots));
    } else {
        let cell = if last < bytes.len() {
            hex_cell(bytes[last])
        } else {
            "  "@
        };
        lemma_byte_in_column(bytes, last as nat, index);
        lemma_occurs_within(digits, Seq::empty(), before, gap(last) + cell);
        assert(Seq::<char>::empty() + before + (gap(last) + cell) =~= hex_column(bytes, slots));
    }
}

/// A line of a block stands in the block.
proof fn lemma_line_in_block(
    bytes_per_line: nat,
    offset: nat,
    data: Seq<u8>,
    count: nat,
    index: int,
    part: Seq<char>,
)
    requires
        0 <= index < count,
        occurs(part, block_line(bytes_per_line, offset, data, index)),
    ensures
        occurs(part, first_lines(bytes_per_line, offset, data, count)),
    decreases count,
{
    let last = count - 1;
    let before = first_lines(bytes_per_line, offset, data, last as nat);
    let line = block_line(bytes_per_line, offset, data, last);
    if index == last {
        lemma_occurs_within(part, before, line, Seq::empty());
        assert(before + line + Seq::<char>::empty() =~= before + line);
    } else {
        lemma_line_in_block(bytes_per_line, offset, data, last as nat, index, part);
        lemma_occurs_within(part, Seq::empty(), before, line);
        assert(Seq::<char>::empty() + before + line =~= before + line);
    }
}

/// Every byte of the data stands in the dump, as two hexadecimal digits.
pub proof fn law_bytes_are_shown(bytes_per_line: nat, title: Seq<char>, data: Seq<u8>, index: int)
    requires
        valid_bytes_per_line(bytes_per_line),
        0 <= index < data.len(),
    ensures
        occurs(byte_text(data[index]), dump_text(bytes_per_line, title, data)),
{
    let b = bytes_per_line as int;
    let line = index / b;
    let place = index % b;
    vstd::arithmetic::div_mod::lemma_fundamental_div_mod(index, b);
    vstd::arithmetic::mul::lemma_mul_is_commutative(b, line);
    vstd::arithmetic::div_mod::lemma_div_pos_is_pos(index, b);
    assert((line + 1) * b == line * b + b) by (nonlinear_arith);
    let count = line_count(data.len(), bytes_per_line);
    assert(line < count) by {
        vstd::arithmetic::div_mod::lemma_hoist_over_denominator(index, 1, bytes_per_line);
        vstd::arithmetic::div_mod::lemma_div_is_ordered(index + b, data.len() + b - 1, b);
    }
    crate::blocks::lemma_line_begins(data.len(), bytes_per_line, line);
    let bytes = line_bytes(data, bytes_per_line, line);
    let digits = byte_text(data[index]);
    assert(bytes[place] == data[index]);
    let slots = larger(bytes_per_line, bytes.len());
    lemma_byte_in_column(bytes, slots, place);
    let offset = (0 + line * bytes_per_line) as nat;
    let front = offset_text(offset);
    let hex = hex_column(bytes, slots);
    let rest = "  "@ + ascii_column(bytes) + "\n"@;
    lemma_occurs_within(digits, front, hex, rest);
    assert(front + hex + rest =~= line_text(bytes_per_line, offset, bytes));
    lemma_line_in_block(bytes_per_line, 0, data, count, line, digits);
    lemma_occurs_within(
        digits,
        header_text(bytes_per_line, title),
        lines_text(bytes_per_line, 0, data),
        footer_text(bytes_per_line),
    );
}

/// A demonstration shows every byte value.
pub proof fn law_demo_shows_every_value(bytes_per_line: nat, b: u8)
    requires
        valid_bytes_per_line(bytes_per_line),
    ensures
        occurs(byte_text(b), dump_text(bytes_per_line, DEMO_TITLE@, every_byte())),
{
    assert(every_byte()[b as int] == b);
    law_bytes_are_shown(bytes_per_line, DEMO_TITLE@, every_byte(), b as int);
}

} // verus!
