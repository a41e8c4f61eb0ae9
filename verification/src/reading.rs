//! Reading a dump: what a terminal shows of it, and what a reader can tell from that.
//!
//! The functions here take text apart. They know escape sequences, line ends and digits, and
//! nothing of how dumps are written.

use vstd::arithmetic::div_mod::{
    lemma_div_pos_is_pos, lemma_fundamental_div_mod, lemma_mod_bound,
};
use vstd::arithmetic::mul::{lemma_mul_inequality, lemma_mul_is_commutative};
use vstd::prelude::*;
use vstd::utf8::{
    decode_utf8, encode_utf8, encode_utf8_decode_utf8, encode_utf8_valid_utf8, valid_utf8,
};

use crate::ascii_renderer::{ascii_cell, ascii_char, ascii_column, write_ascii_column};
use crate::blocks::{
    block_line, first_lines, lemma_line_begins, line_bytes, line_count, lines_text,
};
use crate::border_writer::{bar_text, border_text, columns_for, title_line, Border};
use crate::buffer_writer::BufferWriter;
use crate::byte_to_color::{color_text, kind_color, kind_of, reset_text, ByteKind};
use crate::dump::{body_text, demo, dump, dump_text, every_byte, DEMO_TITLE};
use crate::error::Result;
use crate::hex_formatter::{
    byte_text, gap, hex_cell, hex_column, offset_text, write_hex_column, write_offset,
};
use crate::line_writer::{larger, line_text, LineWriter};
use crate::shown::{
    escape_is_open, lemma_hex_digits, lemma_line_end, lemma_line_ends_concat, lemma_line_parts,
    line_ends,
};
use crate::text::{decimal_text, digit_char, hex_text, number_text, repeated, zero_padded};

verus! {

/// A character on the screen, and the escape sequence that set its colour: an empty one where it has
/// the terminal's own colour.
pub type Glyph = (char, Seq<char>);

/// The escape sequence that sets the colour of what follows `text`; none where the last one was a
/// reset.
pub open spec fn color_after(text: Seq<char>) -> Seq<char>
    decreases text.len(),
{
    if text.len() == 0 {
        Seq::empty()
    } else if escape_is_open(text.drop_last()) {
        let escape = color_after(text.drop_last()).push(text.last());
        if escape == seq!['\x1b', '[', '0', 'm'] {
            Seq::empty()
        } else {
            escape
        }
    } else if text.last() == '\x1b' {
        seq!['\x1b']
    } else {
        color_after(text.drop_last())
    }
}

/// What a terminal shows of `text`.
pub open spec fn painted(text: Seq<char>) -> Seq<Glyph>
    decreases text.len(),
{
    if text.len() == 0 {
        Seq::empty()
    } else if escape_is_open(text.drop_last()) || text.last() == '\x1b' {
        painted(text.drop_last())
    } else {
        painted(text.drop_last()).push(
            (text.last(), color_after(text.drop_last())),
        )
    }
}

/// The characters of `glyphs`.
pub open spec fn symbols(glyphs: Seq<Glyph>) -> Seq<char> {
    Seq::new(glyphs.len(), |i: int| glyphs[i].0)
}

/// What `text` shows in one colour.
pub open spec fn in_color(text: Seq<char>, color: Seq<char>) -> Seq<Glyph> {
    Seq::new(text.len(), |i: int| (text[i], color))
}

/// Whether `glyph` is a space in the terminal's own colour.
pub open spec fn is_blank(glyph: Glyph) -> bool {
    glyph.0 == ' ' && glyph.1.len() == 0
}

/// The lines of `text` that are ended, without their ends.
pub open spec fn rows(text: Seq<char>) -> Seq<Seq<char>>
    decreases text.len(),
{
    if text.len() == 0 {
        Seq::empty()
    } else if text.last() == '\n' {
        rows(text.drop_last()).push(unended(text.drop_last()))
    } else {
        rows(text.drop_last())
    }
}

/// What stands behind the last line end of `text`.
pub open spec fn unended(text: Seq<char>) -> Seq<char>
    decreases text.len(),
{
    if text.len() == 0 || text.last() == '\n' {
        Seq::empty()
    } else {
        unended(text.drop_last()).push(text.last())
    }
}

/// The value of a lower-case digit, and -1 for other characters.
pub open spec fn digit_value(c: char) -> int {
    if '0' <= c && c <= '9' {
        c as int - '0' as int
    } else if 'a' <= c && c <= 'f' {
        c as int - 'a' as int + 10
    } else {
        -1
    }
}

/// Whether `text` is made of digits below `base`.
pub open spec fn all_digits(text: Seq<char>, base: int) -> bool {
    forall|i: int| 0 <= i < text.len() ==> 0 <= #[trigger] digit_value(text[i]) < base
}

/// The number that `text` denotes in base `base`.
pub open spec fn value(text: Seq<char>, base: int) -> int
    decreases text.len(),
{
    if text.len() == 0 {
        0
    } else {
        base * value(text.drop_last(), base) + digit_value(text.last())
    }
}

/// Whether `text` is the usual notation of `n` in base `base`: digits that denote it, the first of
/// which is not a zero unless it is the only one.
pub open spec fn denotes(text: Seq<char>, base: int, n: nat) -> bool {
    &&& text.len() >= 1
    &&& all_digits(text, base)
    &&& value(text, base) == n
    &&& text.len() > 1 ==> text[0] != '0'
}

/// Whether the cell with the number `index` in a column of cells shows what it should. Cells are
/// two columns wide and stand one column apart, groups of eight two columns. A cell shows the byte
/// with its number as two digits in the colour of the byte; without such a byte it is blank.
pub open spec fn cell_shows(column: Seq<Glyph>, bytes: Seq<u8>, index: int) -> bool {
    let at = 2 + 3 * index + index / 8;
    &&& is_blank(column[at - 1])
    &&& index % 8 == 0 ==> is_blank(column[at - 2])
    &&& if index < bytes.len() {
        &&& 0 <= digit_value(column[at].0) < 16
        &&& 0 <= digit_value(column[at + 1].0) < 16
        &&& 16 * digit_value(column[at].0) + digit_value(column[at + 1].0) == bytes[index]
        &&& column[at].1 == color_text(bytes[index])
        &&& column[at + 1].1 == color_text(bytes[index])
    } else {
        &&& is_blank(column[at])
        &&& is_blank(column[at + 1])
    }
}

/// Whether `column` is a column of `slots` cells that show `bytes`, each byte in its place.
pub open spec fn column_shows(column: Seq<Glyph>, slots: nat, bytes: Seq<u8>) -> bool {
    &&& column.len() == 3 * slots + (slots + 7) / 8
    &&& forall|i: int| 0 <= i < slots ==> #[trigger] cell_shows(column, bytes, i)
}

/// Whether `glyph` shows `b` as a character: as itself where it is a visible ASCII character or a
/// space, as a dot otherwise, and in its colour.
pub open spec fn char_shows(glyph: Glyph, b: u8) -> bool {
    &&& glyph.0 == if 32 <= b <= 126 {
        b as char
    } else {
        '.'
    }
    &&& glyph.1 == color_text(b)
}

/// Whether `column` shows `bytes` as characters, each byte in its place.
pub open spec fn chars_show(column: Seq<Glyph>, bytes: Seq<u8>) -> bool {
    &&& column.len() == bytes.len()
    &&& forall|i: int| 0 <= i < bytes.len() ==> char_shows(#[trigger] column[i], bytes[i])
}

/// Whether no glyph of `glyphs` is coloured.
pub open spec fn uncolored(glyphs: Seq<Glyph>) -> bool {
    forall|k: int| 0 <= k < glyphs.len() ==> (#[trigger] glyphs[k]).1.len() == 0
}

/// Whether `row` shows `bytes` on a line for `bytes_per_line` bytes, the first of them at `offset`:
/// from left to right the offset in at least eight hexadecimal digits, the cells, two spaces, and
/// the characters.
pub open spec fn row_shows(
    row: Seq<Glyph>,
    bytes_per_line: nat,
    offset: nat,
    bytes: Seq<u8>,
) -> bool {
    let slots = if bytes_per_line < bytes.len() {
        bytes.len()
    } else {
        bytes_per_line
    };
    let width = 3 * slots + (slots + 7) / 8;
    let digits = row.len() - width - 2 - bytes.len();
    &&& digits >= 8
    &&& offset < 0x1_0000_0000 ==> digits == 8
    &&& digits > 8 ==> row[0].0 != '0'
    &&& all_digits(symbols(row.take(digits)), 16)
    &&& value(symbols(row.take(digits)), 16) == offset
    &&& uncolored(row.take(digits))
    &&& column_shows(row.subrange(digits, digits + width), slots, bytes)
    &&& is_blank(row[digits + width])
    &&& is_blank(row[digits + width + 1])
    &&& chars_show(row.skip(digits + width + 2), bytes)
}

/// The bytes on the line with the number `line`, where each line takes `bytes_per_line` bytes and
/// the last one what is left.
pub open spec fn bytes_on_line(data: Seq<u8>, bytes_per_line: nat, line: int) -> Seq<u8> {
    let rest = data.skip(line * bytes_per_line);
    if rest.len() < bytes_per_line {
        rest
    } else {
        rest.take(bytes_per_line as int)
    }
}

/// Whether `lines` show `data`, the first byte of which stands at `offset`: each line shows its own
/// bytes, and there are as many lines as that takes.
pub open spec fn lines_show(
    lines: Seq<Seq<char>>,
    bytes_per_line: nat,
    offset: nat,
    data: Seq<u8>,
) -> bool {
    &&& data.len() <= lines.len() * bytes_per_line < data.len() + bytes_per_line
    &&& forall|j: int|
        0 <= j < lines.len() ==> row_shows(
            painted(#[trigger] lines[j]),
            bytes_per_line,
            (offset + j * bytes_per_line) as nat,
            bytes_on_line(data, bytes_per_line, j),
        )
}

/// Whether `text` is a bar of `width` columns.
pub open spec fn is_bar(text: Seq<char>, width: nat) -> bool {
    &&& text.len() == width
    &&& forall|i: int| 0 <= i < width ==> #[trigger] text[i] == '─'
}

/// Whether no escape sequence and no colour of `text` reaches beyond it.
spec fn settled(text: Seq<char>) -> bool {
    !escape_is_open(text) && color_after(text).len() == 0
}

/// Behind settled text, text shows what it shows by itself.
proof fn lemma_painted_concat(a: Seq<char>, b: Seq<char>)
    requires
        settled(a),
    ensures
        escape_is_open(a + b) == escape_is_open(b),
        color_after(a + b) == color_after(b),
        painted(a + b) == painted(a) + painted(b),
    decreases b.len(),
{
    if b.len() == 0 {
        assert(a + b =~= a);
        assert(color_after(a) =~= Seq::<char>::empty());
        assert(painted(a) + painted(b) =~= painted(a));
    } else {
        lemma_painted_concat(a, b.drop_last());
        assert((a + b).drop_last() =~= a + b.drop_last());
        assert((a + b).last() == b.last());
        if !(escape_is_open(b.drop_last()) || b.last() == '\x1b') {
            let glyph = (b.last(), color_after(b.drop_last()));
            assert((painted(a) + painted(b.drop_last())).push(glyph) =~= painted(a) + painted(
                b.drop_last(),
            ).push(glyph));
        }
    }
}

/// Text without escape sequences keeps the colour and shows itself in it.
proof fn lemma_painted_plain(a: Seq<char>, text: Seq<char>)
    requires
        !escape_is_open(a),
        forall|i: int| 0 <= i < text.len() ==> text[i] != '\x1b',
    ensures
        !escape_is_open(a + text),
        color_after(a + text) == color_after(a),
        painted(a + text) == painted(a) + in_color(text, color_after(a)),
    decreases text.len(),
{
    if text.len() == 0 {
        assert(a + text =~= a);
        assert(painted(a) + in_color(text, color_after(a)) =~= painted(a));
    } else {
        let front = text.drop_last();
        assert forall|i: int| 0 <= i < front.len() implies front[i] != '\x1b' by {
            assert(front[i] == text[i]);
        }
        lemma_painted_plain(a, front);
        assert((a + text).drop_last() =~= a + front);
        assert((a + text).last() == text.last());
        assert(text[text.len() - 1] != '\x1b');
        let glyph = (text.last(), color_after(a));
        assert((painted(a) + in_color(front, color_after(a))).push(glyph) =~= painted(a) + in_color(
            text,
            color_after(a),
        ));
    }
}

/// Text without escape sequences, by itself.
proof fn lemma_painted_alone(text: Seq<char>)
    requires
        forall|i: int| 0 <= i < text.len() ==> text[i] != '\x1b',
    ensures
        settled(text),
        painted(text) == in_color(text, Seq::empty()),
{
    let nothing = Seq::<char>::empty();
    lemma_painted_plain(nothing, text);
    assert(nothing + text =~= text);
    assert(painted(nothing) + in_color(text, nothing) =~= in_color(text, nothing));
}

/// An escape sequence up to its character `k` is open, and shows nothing.
proof fn lemma_escape_part(a: Seq<char>, e: Seq<char>, k: int)
    requires
        !escape_is_open(a),
        1 <= k < e.len(),
        e[0] == '\x1b',
        forall|i: int| 1 <= i < e.len() - 1 ==> e[i] != 'm',
    ensures
        escape_is_open(a + e.take(k)),
        color_after(a + e.take(k)) == e.take(k),
        painted(a + e.take(k)) == painted(a),
    decreases k,
{
    let part = e.take(k);
    if k == 1 {
        assert((a + part).drop_last() =~= a);
        assert(part =~= seq!['\x1b']);
        assert((a + part).last() == '\x1b');
    } else {
        lemma_escape_part(a, e, k - 1);
        assert((a + part).drop_last() =~= a + e.take(k - 1));
        assert((a + part).last() == e[k - 1]);
        assert(e.take(k - 1).push(e[k - 1]) =~= part);
        assert(part[k - 1] != 'm');
        assert(part != seq!['\x1b', '[', '0', 'm']) by {
            if part == seq!['\x1b', '[', '0', 'm'] {
                assert(part[3] == 'm');
            }
        }
    }
}

/// An escape sequence shows nothing, and sets the colour or resets it.
proof fn lemma_escape_paints(a: Seq<char>, e: Seq<char>)
    requires
        !escape_is_open(a),
        e.len() >= 2,
        e[0] == '\x1b',
        e.last() == 'm',
        forall|i: int| 1 <= i < e.len() - 1 ==> e[i] != 'm',
    ensures
        !escape_is_open(a + e),
        painted(a + e) == painted(a),
        color_after(a + e) == if e == seq!['\x1b', '[', '0', 'm'] {
            Seq::empty()
        } else {
            e
        },
{
    let k = e.len() - 1;
    lemma_escape_part(a, e, k);
    assert((a + e).drop_last() =~= a + e.take(k));
    assert((a + e).last() == 'm');
    assert(e.take(k).push('m') =~= e);
}

/// Text in the colour of a byte shows itself in that colour, and nothing of the colour behind it.
proof fn lemma_colored(b: u8, shown: Seq<char>)
    requires
        forall|i: int| 0 <= i < shown.len() ==> shown[i] != '\x1b',
    ensures
        settled(color_text(b) + shown + reset_text()),
        painted(color_text(b) + shown + reset_text()) == in_color(shown, color_text(b)),
{
    reveal_strlit("\x1b[90m");
    reveal_strlit("\x1b[32m");
    reveal_strlit("\x1b[36m");
    reveal_strlit("\x1b[35m");
    reveal_strlit("\x1b[33m");
    reveal_strlit("\x1b[0m");
    let nothing = Seq::<char>::empty();
    let color = color_text(b);
    assert(color.len() == 5);
    lemma_escape_paints(nothing, color);
    assert(nothing + color =~= color);
    lemma_painted_plain(color, shown);
    assert(painted(color) =~= Seq::<Glyph>::empty());
    assert(painted(color) + in_color(shown, color) =~= in_color(shown, color));
    assert(reset_text() =~= seq!['\x1b', '[', '0', 'm']);
    lemma_escape_paints(color + shown, reset_text());
}

/// Lines add up behind text that ends with a line end.
proof fn lemma_rows_concat(a: Seq<char>, b: Seq<char>)
    requires
        unended(a).len() == 0,
    ensures
        rows(a + b) == rows(a) + rows(b),
        unended(a + b) == unended(b),
    decreases b.len(),
{
    if b.len() == 0 {
        assert(a + b =~= a);
        assert(rows(a) + rows(b) =~= rows(a));
        assert(unended(a) =~= unended(b));
    } else {
        lemma_rows_concat(a, b.drop_last());
        assert((a + b).drop_last() =~= a + b.drop_last());
        assert((a + b).last() == b.last());
        if b.last() == '\n' {
            let line = unended(b.drop_last());
            assert((rows(a) + rows(b.drop_last())).push(line) =~= rows(a) + rows(
                b.drop_last(),
            ).push(line));
        }
    }
}

/// Text without line ends is not ended.
proof fn lemma_unended(text: Seq<char>)
    requires
        line_ends(text) == 0,
    ensures
        rows(text) == Seq::<Seq<char>>::empty(),
        unended(text) == text,
    decreases text.len(),
{
    if text.len() > 0 {
        lemma_unended(text.drop_last());
        assert(text.drop_last().push(text.last()) =~= text);
    }
}

/// A line end behind text without line ends makes it one line.
proof fn lemma_one_row(text: Seq<char>)
    requires
        line_ends(text) == 0,
    ensures
        rows(text.push('\n')) == seq![text],
        unended(text.push('\n')) == Seq::<char>::empty(),
{
    lemma_unended(text);
    assert(text.push('\n').drop_last() =~= text);
    assert(Seq::<Seq<char>>::empty().push(text) =~= seq![text]);
}

/// Digits have the values that they were written for.
proof fn lemma_digit(d: int)
    requires
        0 <= d < 16,
    ensures
        digit_value(digit_char(d)) == d,
        digit_char(d) != '\x1b',
        digit_char(d) != '\n',
        d != 0 ==> digit_char(d) != '0',
{
}

/// A written number can be read: its digits denote it, and none of them is superfluous. So two
/// numbers are never written the same.
pub proof fn law_numbers_read_back(n: nat, base: nat)
    requires
        2 <= base <= 16,
    ensures
        denotes(number_text(n, base), base as int, n),
    decreases n,
{
    let text = number_text(n, base);
    if n < base {
        lemma_digit(n as int);
        assert(text =~= seq![digit_char(n as int)]);
        assert(value(text.drop_last(), base as int) == 0);
        assert(base as int * 0 == 0) by (nonlinear_arith);
    } else {
        let high = n / base;
        let low = n % base;
        lemma_fundamental_div_mod(n as int, base as int);
        lemma_mod_bound(n as int, base as int);
        vstd::arithmetic::div_mod::lemma_div_decreases(n as int, base as int);
        vstd::arithmetic::div_mod::lemma_div_non_zero(n as int, base as int);
        lemma_digit(low as int);
        law_numbers_read_back(high, base);
        let front = number_text(high, base);
        assert(text == front.push(digit_char(low as int)));
        assert(text.drop_last() =~= front);
        assert forall|i: int| 0 <= i < text.len() implies 0 <= #[trigger] digit_value(text[i])
            < base by {
            if i < front.len() {
                assert(text[i] == front[i]);
            }
        }
        assert(text[0] == front[0]);
        if front.len() == 1 {
            assert(front.drop_last() =~= Seq::<char>::empty());
            assert(value(front.drop_last(), base as int) == 0);
            assert(base as int * 0 == 0) by (nonlinear_arith);
            assert(digit_value(front[0]) == high);
        }
    }
}

/// A number in decimal can be read.
pub proof fn law_decimals_read_back(n: nat)
    ensures
        denotes(decimal_text(n), 10, n),
{
    law_numbers_read_back(n, 10);
}

/// A number in hexadecimal can be read.
pub proof fn law_hex_reads_back(n: nat)
    ensures
        denotes(hex_text(n), 16, n),
{
    law_numbers_read_back(n, 16);
}

/// Zeros in front do not change what digits denote.
proof fn lemma_leading_zeros(count: nat, text: Seq<char>, base: int)
    requires
        base > 0,
    ensures
        value(repeated('0', count) + text, base) == value(text, base),
    decreases count + text.len(),
{
    let zeros = repeated('0', count);
    if text.len() > 0 {
        lemma_leading_zeros(count, text.drop_last(), base);
        assert((zeros + text).drop_last() =~= zeros + text.drop_last());
    } else if count > 0 {
        lemma_leading_zeros((count - 1) as nat, text, base);
        assert((zeros + text).drop_last() =~= repeated('0', (count - 1) as nat) + text);
        assert(base * 0 == 0) by (nonlinear_arith);
    } else {
        assert(zeros + text =~= text);
    }
}

/// A number with zeros in front up to a width denotes the same, has at least that width, and no
/// zero in front where it has more.
pub proof fn law_padding_keeps_the_number(n: nat, base: nat, width: nat)
    requires
        2 <= base <= 16,
    ensures
        ({
            let text = zero_padded(number_text(n, base), width);
            &&& text.len() >= width
            &&& all_digits(text, base as int)
            &&& value(text, base as int) == n
            &&& text.len() > width && text.len() > 1 ==> text[0] != '0'
        }),
{
    let digits = number_text(n, base);
    let text = zero_padded(digits, width);
    law_numbers_read_back(n, base);
    if digits.len() < width {
        let count = (width - digits.len()) as nat;
        lemma_leading_zeros(count, digits, base as int);
        assert forall|i: int| 0 <= i < text.len() implies 0 <= #[trigger] digit_value(text[i])
            < base by {
            if i < count {
                assert(text[i] == '0');
            } else {
                assert(text[i] == digits[i - count]);
            }
        }
    }
}

/// Copies of a character are that many, and all that character.
pub proof fn law_repeated_is_all_the_same(c: char, n: nat)
    ensures
        repeated(c, n).len() == n,
        forall|i: int| 0 <= i < n ==> #[trigger] repeated(c, n)[i] == c,
{
}

/// The digits in front of a line denote its offset, for every offset. There are at least eight, no
/// more where eight are enough, and none in vain where there are more. So two offsets are never
/// shown the same.
pub proof fn law_offsets_read_back(offset: nat)
    ensures
        offset_text(offset).len() >= 8,
        offset < 0x1_0000_0000 ==> offset_text(offset).len() == 8,
        offset_text(offset).len() > 8 ==> offset_text(offset)[0] != '0',
        all_digits(offset_text(offset), 16),
        value(offset_text(offset), 16) == offset,
{
    law_padding_keeps_the_number(offset, 16, 8);
    if offset < 0x1_0000_0000 {
        assert(vstd::arithmetic::power::pow(16, 8) == 0x1_0000_0000) by {
            reveal(vstd::arithmetic::power::pow);
            reveal_with_fuel(vstd::arithmetic::power::pow, 9);
        }
        lemma_hex_digits(offset, 8);
    }
}

/// Which bytes have which colour.
pub proof fn law_colors_of_bytes(b: u8)
    ensures
        b == 0 ==> color_text(b) == "\x1b[90m"@,
        9 <= b <= 13 || b == 32 ==> color_text(b) == "\x1b[32m"@,
        33 <= b <= 126 ==> color_text(b) == "\x1b[36m"@,
        1 <= b <= 8 || 14 <= b <= 31 || b == 127 ==> color_text(b) == "\x1b[35m"@,
        128 <= b ==> color_text(b) == "\x1b[33m"@,
        reset_text() == "\x1b[0m"@,
{
}

/// Which bytes belong to which group: the groups are the byte 0, what C calls white space, the visible
/// ASCII characters, the other ASCII values, and the values that are not ASCII.
pub proof fn law_groups_of_bytes(b: u8)
    ensures
        kind_of(b) is Null <==> b == 0,
        kind_of(b) is Whitespace <==> 9 <= b <= 13 || b == 32,
        kind_of(b) is Printable <==> 33 <= b <= 126,
        kind_of(b) is Control <==> 1 <= b <= 8 || 14 <= b <= 31 || b == 127,
        kind_of(b) is Extended <==> 128 <= b,
{
}

/// Groups of bytes can be told apart by their colours.
pub proof fn law_colors_differ(a: ByteKind, b: ByteKind)
    requires
        kind_color(a) == kind_color(b),
    ensures
        a == b,
{
    reveal_strlit("\x1b[90m");
    reveal_strlit("\x1b[32m");
    reveal_strlit("\x1b[36m");
    reveal_strlit("\x1b[35m");
    reveal_strlit("\x1b[33m");
    assert("\x1b[90m"@[2] == '9' && "\x1b[90m"@[3] == '0');
    assert("\x1b[32m"@[2] == '3' && "\x1b[32m"@[3] == '2');
    assert("\x1b[36m"@[2] == '3' && "\x1b[36m"@[3] == '6');
    assert("\x1b[35m"@[2] == '3' && "\x1b[35m"@[3] == '5');
    assert("\x1b[33m"@[2] == '3' && "\x1b[33m"@[3] == '3');
}

/// A cell shows its byte as two digits, and a character cell shows it as a character, both in the
/// colour of the byte and with the terminal's own colour behind them.
pub proof fn law_cells_show_their_byte(b: u8)
    ensures
        painted(hex_cell(b)).len() == 2,
        0 <= digit_value(painted(hex_cell(b))[0].0) < 16,
        0 <= digit_value(painted(hex_cell(b))[1].0) < 16,
        16 * digit_value(painted(hex_cell(b))[0].0) + digit_value(
            painted(hex_cell(b))[1].0,
        ) == b,
        painted(hex_cell(b))[0].1 == color_text(b),
        painted(hex_cell(b))[1].1 == color_text(b),
        !escape_is_open(hex_cell(b)),
        color_after(hex_cell(b)).len() == 0,
        painted(ascii_cell(b)).len() == 1,
        char_shows(painted(ascii_cell(b))[0], b),
        !escape_is_open(ascii_cell(b)),
        color_after(ascii_cell(b)).len() == 0,
{
    lemma_digit((b / 16) as int);
    lemma_digit((b % 16) as int);
    lemma_colored(b, byte_text(b));
    lemma_colored(b, seq![ascii_char(b)]);
}

/// In a column of cells, the cell with the number `i` shows the byte with the number `i`, for all
/// cells: the bytes can be read off from left to right.
pub proof fn law_bytes_stand_in_their_places(bytes: Seq<u8>, slots: nat)
    ensures
        column_shows(painted(hex_column(bytes, slots)), slots, bytes),
        !escape_is_open(hex_column(bytes, slots)),
        color_after(hex_column(bytes, slots)).len() == 0,
    decreases slots,
{
    let column = painted(hex_column(bytes, slots));
    if slots > 0 {
        let index = slots - 1;
        let before = hex_column(bytes, index as nat);
        let space = gap(index);
        let cell = if index < bytes.len() {
            hex_cell(bytes[index])
        } else {
            "  "@
        };
        law_bytes_stand_in_their_places(bytes, index as nat);
        reveal_strlit("  ");
        reveal_strlit(" ");
        lemma_painted_alone(space);
        lemma_painted_alone("  "@);
        lemma_painted_concat(before, space);
        if index < bytes.len() {
            law_cells_show_their_byte(bytes[index]);
        }
        lemma_painted_concat(before + space, cell);
        let front = painted(before);
        assert(column == front + painted(space) + painted(cell));
        assert forall|i: int| 0 <= i < slots implies #[trigger] cell_shows(column, bytes, i) by {
            let at = 2 + 3 * i + i / 8;
            if i < index {
                assert(cell_shows(front, bytes, i));
                assert(at + 1 < front.len());
                assert(column[at - 1] == front[at - 1]);
                assert(column[at] == front[at]);
                assert(column[at + 1] == front[at + 1]);
                if i % 8 == 0 {
                    assert(column[at - 2] == front[at - 2]);
                }
            } else {
                assert(at == front.len() + space.len());
                assert(column[at] == painted(cell)[0]);
                assert(column[at + 1] == painted(cell)[1]);
                assert(column[at - 1] == painted(space)[space.len() - 1]);
                if i % 8 == 0 {
                    assert(column[at - 2] == painted(space)[0]);
                }
            }
        }
    }
}

/// In the character column, the character with the number `i` shows the byte with the number `i`.
pub proof fn law_characters_stand_in_their_places(bytes: Seq<u8>)
    ensures
        chars_show(painted(ascii_column(bytes)), bytes),
        !escape_is_open(ascii_column(bytes)),
        color_after(ascii_column(bytes)).len() == 0,
    decreases bytes.len(),
{
    if bytes.len() > 0 {
        let front = bytes.drop_last();
        law_characters_stand_in_their_places(front);
        law_cells_show_their_byte(bytes.last());
        lemma_painted_concat(ascii_column(front), ascii_cell(bytes.last()));
        let shown = painted(ascii_column(bytes));
        assert forall|i: int| 0 <= i < bytes.len() implies char_shows(
            #[trigger] shown[i],
            bytes[i],
        ) by {
            if i < front.len() {
                assert(shown[i] == painted(ascii_column(front))[i]);
                assert(bytes[i] == front[i]);
            }
        }
    }
}

/// Parts that show the right things make a row that does.
proof fn lemma_row_of_parts(
    front: Seq<char>,
    cells: Seq<Glyph>,
    chars: Seq<Glyph>,
    bytes_per_line: nat,
    offset: nat,
    bytes: Seq<u8>,
)
    requires
        front.len() >= 8,
        offset < 0x1_0000_0000 ==> front.len() == 8,
        front.len() > 8 ==> front[0] != '0',
        all_digits(front, 16),
        value(front, 16) == offset,
        column_shows(cells, larger(bytes_per_line, bytes.len()), bytes),
        chars_show(chars, bytes),
    ensures
        ({
            let nothing = Seq::<char>::empty();
            let row = in_color(front, nothing) + cells + seq![(' ', nothing), (' ', nothing)]
                + chars;
            row_shows(row, bytes_per_line, offset, bytes)
        }),
{
    let nothing = Seq::<char>::empty();
    let digits = in_color(front, nothing);
    let space = seq![(' ', nothing), (' ', nothing)];
    let row = digits + cells + space + chars;
    let d = front.len() as int;
    let width = cells.len() as int;
    assert(row.take(d) =~= digits);
    assert(symbols(digits) =~= front);
    assert(row.subrange(d, d + width) =~= cells);
    assert(row.skip(d + width + 2) =~= chars);
    assert(row[d + width] == space[0]);
    assert(row[d + width + 1] == space[1]);
    assert(row[0] == digits[0]);
}

/// What a line shows, part by part.
proof fn lemma_painted_line(front: Seq<char>, hex: Seq<char>, chars: Seq<char>)
    requires
        all_digits(front, 16),
        settled(hex),
    ensures
        ({
            let nothing = Seq::<char>::empty();
            painted(front + hex + "  "@ + chars) == in_color(front, nothing) + painted(hex) + seq![
                (' ', nothing),
                (' ', nothing),
            ] + painted(chars)
        }),
{
    let nothing = Seq::<char>::empty();
    reveal_strlit("  ");
    assert forall|i: int| 0 <= i < front.len() implies front[i] != '\x1b' by {
        assert(0 <= digit_value(front[i]));
    }
    lemma_painted_alone(front);
    lemma_painted_alone("  "@);
    assert(in_color("  "@, nothing) =~= seq![(' ', nothing), (' ', nothing)]);
    lemma_painted_concat(front, hex);
    lemma_painted_concat(front + hex, "  "@);
    lemma_painted_concat(front + hex + "  "@, chars);
}

/// A line shows its offset and its bytes, each of them in its place, and ends with a line end.
pub proof fn law_lines_show_their_bytes(bytes_per_line: nat, offset: nat, bytes: Seq<u8>)
    ensures
        ({
            let line = line_text(bytes_per_line, offset, bytes);
            &&& line.len() > 0
            &&& line.last() == '\n'
            &&& line_ends(line.drop_last()) == 0
            &&& row_shows(painted(line.drop_last()), bytes_per_line, offset, bytes)
        }),
{
    let line = line_text(bytes_per_line, offset, bytes);
    let slots = larger(bytes_per_line, bytes.len());
    let front = offset_text(offset);
    let hex = hex_column(bytes, slots);
    let chars = ascii_column(bytes);
    let body = front + hex + "  "@ + chars;
    reveal_strlit("\n");
    assert(line.drop_last() =~= body);
    assert(line.last() == '\n');
    assert(line_ends(body) == 0) by {
        lemma_line_parts(bytes_per_line, offset, bytes);
        lemma_line_end();
        lemma_line_ends_concat(body, "\n"@);
    }
    law_offsets_read_back(offset);
    law_bytes_stand_in_their_places(bytes, slots);
    law_characters_stand_in_their_places(bytes);
    lemma_painted_line(front, hex, chars);
    lemma_row_of_parts(front, painted(hex), painted(chars), bytes_per_line, offset, bytes);
}

/// Where the bytes of a line stand on the screen: the two digits of the byte with the number `index`
/// in the columns `10 + 3 * index + index / 8` and behind, and its character behind all cells.
pub proof fn law_columns_of_a_byte(
    bytes_per_line: nat,
    offset: nat,
    bytes: Seq<u8>,
    index: int,
)
    requires
        offset < 0x1_0000_0000,
        bytes_per_line % 8 == 0,
        0 <= index < bytes.len() <= bytes_per_line,
    ensures
        ({
            let row = symbols(painted(line_text(bytes_per_line, offset, bytes).drop_last()));
            let at = 8 + 3 * index + index / 8 + 2;
            let behind = 8 + 3 * bytes_per_line + bytes_per_line / 8 + 2 + index;
            &&& row.len() == 8 + 3 * bytes_per_line + bytes_per_line / 8 + 2 + bytes.len()
            &&& value(row.take(8), 16) == offset
            &&& value(row.subrange(at, at + 2), 16) == bytes[index]
            &&& row[behind] == if 32 <= bytes[index] <= 126 {
                bytes[index] as char
            } else {
                '.'
            }
        }),
{
    law_lines_show_their_bytes(bytes_per_line, offset, bytes);
    let shown = painted(line_text(bytes_per_line, offset, bytes).drop_last());
    let row = symbols(shown);
    let b = bytes_per_line as int;
    let width = 3 * b + b / 8;
    let place = 2 + 3 * index + index / 8;
    let cells = shown.subrange(8, 8 + width);
    assert(cell_shows(cells, bytes, index));
    assert(cells[place] == shown[8 + place]);
    assert(cells[place + 1] == shown[8 + place + 1]);
    assert(shown.skip(8 + width + 2)[index] == shown[8 + width + 2 + index]);
    assert(char_shows(shown.skip(8 + width + 2)[index], bytes[index]));
    assert(row.take(8) =~= symbols(shown.take(8)));
    let cell = row.subrange(8 + place, 8 + place + 2);
    assert(cell.drop_last() =~= seq![cell[0]]);
    assert(cell.drop_last().drop_last() =~= Seq::<char>::empty());
    reveal_with_fuel(value, 3);
}

/// A line of a block holds the bytes that its number says.
proof fn lemma_bytes_on_line(data: Seq<u8>, bytes_per_line: nat, line: int)
    requires
        bytes_per_line > 0,
        0 <= line < line_count(data.len(), bytes_per_line),
    ensures
        line_bytes(data, bytes_per_line, line) == bytes_on_line(data, bytes_per_line, line),
{
    lemma_line_begins(data.len(), bytes_per_line, line);
    assert((line + 1) * bytes_per_line == line * bytes_per_line + bytes_per_line)
        by (nonlinear_arith);
    assert(line_bytes(data, bytes_per_line, line) =~= bytes_on_line(data, bytes_per_line, line));
}

/// The first lines of a block, one by one.
proof fn lemma_first_rows(bytes_per_line: nat, offset: nat, data: Seq<u8>, count: nat)
    requires
        bytes_per_line > 0,
        count <= line_count(data.len(), bytes_per_line),
    ensures
        ({
            let text = first_lines(bytes_per_line, offset, data, count);
            &&& unended(text).len() == 0
            &&& rows(text).len() == count
            &&& forall|j: int|
                0 <= j < count ==> row_shows(
                    painted(#[trigger] rows(text)[j]),
                    bytes_per_line,
                    (offset + j * bytes_per_line) as nat,
                    bytes_on_line(data, bytes_per_line, j),
                )
        }),
    decreases count,
{
    if count > 0 {
        let i = count - 1;
        let before = first_lines(bytes_per_line, offset, data, i as nat);
        let line = block_line(bytes_per_line, offset, data, i);
        let there = (offset + i * bytes_per_line) as nat;
        let bytes = line_bytes(data, bytes_per_line, i);
        lemma_first_rows(bytes_per_line, offset, data, i as nat);
        lemma_bytes_on_line(data, bytes_per_line, i);
        law_lines_show_their_bytes(bytes_per_line, there, bytes);
        let body = line.drop_last();
        lemma_one_row(body);
        assert(body.push('\n') =~= line);
        lemma_rows_concat(before, line);
        let all = rows(before + line);
        assert(all == rows(before) + seq![body]);
        assert forall|j: int| 0 <= j < count implies row_shows(
            painted(#[trigger] all[j]),
            bytes_per_line,
            (offset + j * bytes_per_line) as nat,
            bytes_on_line(data, bytes_per_line, j),
        ) by {
            if j < i {
                assert(all[j] == rows(before)[j]);
            } else {
                assert(all[j] == body);
            }
        }
    }
}

/// The lines of a block show its data: each line its own offset and its own bytes, and as many
/// lines as that takes.
pub proof fn law_blocks_show_their_data(bytes_per_line: nat, offset: nat, data: Seq<u8>)
    requires
        bytes_per_line > 0,
    ensures
        unended(lines_text(bytes_per_line, offset, data)).len() == 0,
        lines_show(rows(lines_text(bytes_per_line, offset, data)), bytes_per_line, offset, data),
{
    let b = bytes_per_line as int;
    let n = line_count(data.len(), bytes_per_line);
    let m = data.len() + b - 1;
    lemma_fundamental_div_mod(m, b);
    lemma_mod_bound(m, b);
    lemma_div_pos_is_pos(m, b);
    lemma_mul_is_commutative(n as int, b);
    lemma_first_rows(bytes_per_line, offset, data, n);
}

/// Whether `text` is a border with `title`: a header has the title on a line above the bar, a footer
/// on a line below it, whole, and an empty title takes no line. The bar is as wide as a line with
/// `groups` groups of eight bytes.
pub open spec fn border_shows(
    text: Seq<char>,
    groups: nat,
    border: Border,
    title: Seq<char>,
) -> bool {
    let width = 10 + 33 * groups;
    let taken: int = if title.len() == 0 {
        0
    } else {
        title.len() as int + 1
    };
    let title_at: int = if border == Border::Header {
        0
    } else {
        width as int + 1
    };
    let bar_at = if border == Border::Header {
        taken
    } else {
        0
    };
    &&& text.len() == taken + width + 1
    &&& text.subrange(title_at, title_at + title.len()) == title
    &&& title.len() > 0 ==> text[title_at + title.len()] == '\n'
    &&& is_bar(text.subrange(bar_at, bar_at + width), width as nat)
    &&& text[bar_at + width] == '\n'
}

/// A border shows its title and a bar.
pub proof fn law_borders_show_their_title(groups: nat, border: Border, title: Seq<char>)
    ensures
        border_shows(border_text(groups, border, title), groups, border, title),
{
    let text = border_text(groups, border, title);
    let width = columns_for(groups) as int;
    let bar = repeated('─', columns_for(groups));
    if border == Border::Header {
        let taken = title_line(title).len() as int;
        assert(text.subrange(0, 0 + title.len() as int) =~= title);
        assert(text.subrange(taken, taken + width) =~= bar);
    } else {
        assert(text.subrange(width + 1, width + 1 + title.len()) =~= title);
        assert(text.subrange(0, 0 + width) =~= bar);
    }
}

/// A bar is one line.
proof fn lemma_bar_row(groups: nat)
    ensures
        unended(bar_text(groups)).len() == 0,
        rows(bar_text(groups)).len() == 1,
        is_bar(rows(bar_text(groups))[0], columns_for(groups)),
{
    let bar = repeated('─', columns_for(groups));
    crate::shown::law_bars_are_as_wide_as_lines(groups * 8);
    assert(groups * 8 / 8 == groups);
    assert(bar_text(groups).drop_last() =~= bar);
    assert(line_ends(bar) == 0);
    lemma_one_row(bar);
    assert(bar_text(groups) == bar.push('\n'));
}

/// Whether `text` shows, from top to bottom, the whole `title` on a line of its own, a bar, `data` line
/// by line, and another bar, and nothing else.
pub open spec fn dump_shows(
    text: Seq<char>,
    bytes_per_line: nat,
    title: Seq<char>,
    data: Seq<u8>,
) -> bool {
    let taken: int = if title.len() == 0 {
        0
    } else {
        title.len() as int + 1
    };
    let lines = rows(text.skip(taken));
    let count = lines.len() - 2;
    &&& text.len() >= taken
    &&& text.take(title.len() as int) == title
    &&& title.len() > 0 ==> text[title.len() as int] == '\n'
    &&& unended(text.skip(taken)).len() == 0
    &&& count >= 0
    &&& is_bar(lines[0], 10 + 33 * (bytes_per_line / 8))
    &&& is_bar(lines[count + 1], 10 + 33 * (bytes_per_line / 8))
    &&& lines_show(lines.subrange(1, count + 1), bytes_per_line, 0, data)
}

/// A dump shows its title and its data, and nothing else.
pub proof fn law_dumps_show_their_data(bytes_per_line: nat, title: Seq<char>, data: Seq<u8>)
    requires
        bytes_per_line > 0,
    ensures
        dump_shows(dump_text(bytes_per_line, title, data), bytes_per_line, title, data),
{
    let text = dump_text(bytes_per_line, title, data);
    let front = title_line(title);
    let groups = bytes_per_line / 8;
    let bar = bar_text(groups);
    let body = body_text(bytes_per_line, data);
    let rest = bar + body + bar;
    reveal_strlit("");
    assert(title_line(""@) =~= Seq::<char>::empty());
    assert(bar + title_line(""@) =~= bar);
    assert(text =~= front + rest);
    assert(text.take(title.len() as int) =~= title);
    assert(text.skip(front.len() as int) =~= rest);
    lemma_bar_row(groups);
    law_blocks_show_their_data(bytes_per_line, 0, data);
    lemma_rows_concat(bar, body);
    lemma_rows_concat(bar + body, bar);
    let lines = rows(rest);
    assert(lines == rows(bar) + rows(body) + rows(bar));
    assert(lines.subrange(1, lines.len() - 1) =~= rows(body));
    assert(lines[0] == rows(bar)[0]);
    assert(lines[lines.len() - 1] == rows(bar)[0]);
}

/// Every byte of the data can be read off a dump at its place: on the line whose number is the
/// number of full lines in front of it, behind digits that denote the offset of that line, in the
/// cell that has its number on the line, and among the characters at the same number.
pub proof fn law_each_byte_can_be_read_off(
    bytes_per_line: nat,
    title: Seq<char>,
    data: Seq<u8>,
    index: int,
)
    requires
        bytes_per_line > 0,
        bytes_per_line % 8 == 0,
        0 <= index < data.len(),
    ensures
        ({
            let taken: int = if title.len() == 0 {
                0
            } else {
                title.len() as int + 1
            };
            let lines = rows(dump_text(bytes_per_line, title, data).skip(taken));
            let b = bytes_per_line as int;
            let line = index / b;
            let place = index % b;
            let row = painted(lines[1 + line]);
            let rest = data.len() - line * b;
            let shown = if rest < b {
                rest
            } else {
                b
            };
            let width = 3 * b + b / 8;
            let digits = row.len() - width - 2 - shown;
            let at = digits + 2 + 3 * place + place / 8;
            &&& digits >= 8
            &&& value(symbols(row.take(digits)), 16) == line * b
            &&& 16 * digit_value(row[at].0) + digit_value(row[at + 1].0) == data[index]
            &&& char_shows(row[digits + width + 2 + place], data[index])
        }),
{
    let taken: int = if title.len() == 0 {
        0
    } else {
        title.len() as int + 1
    };
    let all = rows(dump_text(bytes_per_line, title, data).skip(taken));
    let b = bytes_per_line as int;
    let line = index / b;
    let place = index % b;
    law_dumps_show_their_data(bytes_per_line, title, data);
    let lines = all.subrange(1, all.len() - 1);
    lemma_fundamental_div_mod(index, b);
    lemma_mod_bound(index, b);
    lemma_div_pos_is_pos(index, b);
    lemma_mul_is_commutative(b, line);
    assert(line < lines.len()) by {
        if line >= lines.len() {
            lemma_mul_inequality(lines.len() as int, line, b);
        }
    }
    assert(0 <= line * b) by (nonlinear_arith)
        requires
            line >= 0,
            b > 0,
    ;
    assert(lines[line] == all[1 + line]);
    let bytes = bytes_on_line(data, bytes_per_line, line);
    let row = painted(lines[line]);
    assert(row_shows(row, bytes_per_line, (0 + line * b) as nat, bytes));
    assert(bytes[place] == data[index]);
    let width = 3 * b + b / 8;
    let digits = row.len() - width - 2 - bytes.len();
    let column = row.subrange(digits, digits + width);
    assert(cell_shows(column, bytes, place));
    let at = 2 + 3 * place + place / 8;
    assert(column[at] == row[digits + at]);
    assert(column[at + 1] == row[digits + at + 1]);
    assert(row.skip(digits + width + 2)[place] == row[digits + width + 2 + place]);
}

/// A demonstration shows the byte `i` at the place `i`, for all byte values.
pub proof fn law_demo_is_in_order()
    ensures
        every_byte().len() == 256,
        forall|i: int| 0 <= i < 256 ==> #[trigger] every_byte()[i] == i,
{
}

/// Whether `after` is `before` with text behind it.
pub open spec fn appends(before: Seq<u8>, after: Seq<u8>) -> bool {
    &&& before.len() <= after.len()
    &&& after.take(before.len() as int) == before
    &&& valid_utf8(after.skip(before.len() as int))
}

/// The text that stands in `after` behind `before`.
pub open spec fn appended(before: Seq<u8>, after: Seq<u8>) -> Seq<char> {
    decode_utf8(after.skip(before.len() as int))
}

/// The text that is appended is the text that is encoded.
proof fn lemma_appended(before: Seq<u8>, after: Seq<u8>, text: Seq<char>)
    requires
        after == before + encode_utf8(text),
    ensures
        appends(before, after),
        appended(before, after) == text,
{
    encode_utf8_valid_utf8(text);
    encode_utf8_decode_utf8(text);
    assert(after.skip(before.len() as int) =~= encode_utf8(text));
    assert(after.take(before.len() as int) =~= before);
}

/// What [`write_offset`] writes behind what was there denotes the offset, for every offset.
pub proof fn law_written_offsets(out: &mut Vec<u8>, offset: usize)
    requires
        call_ensures(write_offset, (out, offset), ()),
    ensures
        appends(old(out)@, final(out)@),
        ({
            let text = appended(old(out)@, final(out)@);
            &&& text.len() >= 8
            &&& offset < 0x1_0000_0000 ==> text.len() == 8
            &&& text.len() > 8 ==> text[0] != '0'
            &&& all_digits(text, 16)
            &&& value(text, 16) == offset
        }),
{
    law_offsets_read_back(offset as nat);
    lemma_appended(old(out)@, final(out)@, offset_text(offset as nat));
}

/// What [`write_hex_column`] writes behind what was there shows every byte in its place.
pub proof fn law_written_columns(out: &mut Vec<u8>, bytes: &[u8], slots: usize)
    requires
        call_ensures(write_hex_column, (out, bytes, slots), ()),
    ensures
        appends(old(out)@, final(out)@),
        column_shows(painted(appended(old(out)@, final(out)@)), slots as nat, bytes@),
{
    law_bytes_stand_in_their_places(bytes@, slots as nat);
    lemma_appended(old(out)@, final(out)@, hex_column(bytes@, slots as nat));
}

/// What [`write_ascii_column`] writes behind what was there shows every byte in its place.
pub proof fn law_written_characters(out: &mut Vec<u8>, bytes: &[u8])
    requires
        call_ensures(write_ascii_column, (out, bytes), ()),
    ensures
        appends(old(out)@, final(out)@),
        chars_show(painted(appended(old(out)@, final(out)@)), bytes@),
{
    law_characters_stand_in_their_places(bytes@);
    lemma_appended(old(out)@, final(out)@, ascii_column(bytes@));
}

/// What [`LineWriter::write_line`] writes behind what was there is one line, which shows the offset
/// and the bytes.
pub proof fn law_written_lines(
    line_writer: &LineWriter,
    out: &mut Vec<u8>,
    offset: usize,
    bytes: &[u8],
)
    requires
        call_ensures(LineWriter::write_line, (line_writer, out, offset, bytes), ()),
    ensures
        appends(old(out)@, final(out)@),
        ({
            let lines = rows(appended(old(out)@, final(out)@));
            &&& unended(appended(old(out)@, final(out)@)).len() == 0
            &&& lines.len() == 1
            &&& row_shows(painted(lines[0]), line_writer@, offset as nat, bytes@)
        }),
{
    let line = line_text(line_writer@, offset as nat, bytes@);
    law_lines_show_their_bytes(line_writer@, offset as nat, bytes@);
    lemma_one_row(line.drop_last());
    assert(line.drop_last().push('\n') =~= line);
    lemma_appended(old(out)@, final(out)@, line);
}

/// What [`LineWriter::write_border`] writes behind what was there shows the title and a bar.
pub proof fn law_written_borders(
    line_writer: &LineWriter,
    out: &mut Vec<u8>,
    border: Border,
    title: &str,
    r: Result<()>,
)
    requires
        call_ensures(LineWriter::write_border, (line_writer, out, border, title), r),
    ensures
        r is Ok,
        appends(old(out)@, final(out)@),
        border_shows(appended(old(out)@, final(out)@), line_writer@ / 8, border, title@),
{
    let text = border_text(line_writer@ / 8, border, title@);
    law_borders_show_their_title(line_writer@ / 8, border, title@);
    lemma_appended(old(out)@, final(out)@, text);
}

/// What [`dump`] writes behind what was there shows the title and the data, and nothing else.
pub proof fn law_written_dumps(
    title: &str,
    data: &[u8],
    line_writer: &mut LineWriter,
    writer: &mut BufferWriter,
    r: Result<()>,
)
    requires
        old(line_writer)@ > 0,
        call_ensures(dump, (title, data, line_writer, writer), r),
    ensures
        r is Ok,
        appends(old(writer)@, final(writer)@),
        dump_shows(
            appended(old(writer)@, final(writer)@),
            old(line_writer)@,
            title@,
            data@,
        ),
{
    law_dumps_show_their_data(old(line_writer)@, title@, data@);
    lemma_appended(
        old(writer)@,
        final(writer)@,
        dump_text(old(line_writer)@, title@, data@),
    );
}

/// What [`demo`] writes behind what was there shows the byte `i` at the place `i`, for all byte values.
pub proof fn law_written_demos(
    line_writer: &mut LineWriter,
    writer: &mut BufferWriter,
    r: Result<()>,
)
    requires
        old(line_writer)@ > 0,
        call_ensures(demo, (line_writer, writer), r),
    ensures
        r is Ok,
        appends(old(writer)@, final(writer)@),
        dump_shows(
            appended(old(writer)@, final(writer)@),
            old(line_writer)@,
            "demo, 256 bytes, 0 to 255"@,
            Seq::new(256, |i: int| i as u8),
        ),
{
    let all = Seq::new(256, |i: int| i as u8);
    assert(every_byte() =~= all);
    law_dumps_show_their_data(old(line_writer)@, DEMO_TITLE@, all);
    lemma_appended(
        old(writer)@,
        final(writer)@,
        dump_text(old(line_writer)@, DEMO_TITLE@, all),
    );
}

} // verus!
