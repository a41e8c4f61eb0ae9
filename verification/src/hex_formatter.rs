//! The hexadecimal column of a line, and the offset in front of it.

use vstd::prelude::*;
use vstd::utf8::encode_utf8;

use crate::byte_to_color::{color, color_text, reset, reset_text};
use crate::text::{
    digit_char, hex_len, hex_text, push_hex, push_str, push_zeros, zero_padded,
};

verus! {

broadcast use crate::text::lemma_append_text;

/// The offset of a line: at least eight hexadecimal digits.
pub open spec fn offset_text(offset: nat) -> Seq<char> {
    zero_padded(hex_text(offset), 8)
}

/// `b` as two hexadecimal digits.
pub open spec fn byte_text(b: u8) -> Seq<char> {
    seq![digit_char((b / 16) as int), digit_char((b % 16) as int)]
}

/// `b` in its colour.
pub open spec fn hex_cell(b: u8) -> Seq<char> {
    color_text(b) + byte_text(b) + reset_text()
}

/// What stands between the cell at `index` and what is left of it: cells stand in groups of
/// eight, and each group is set off by one more space.
pub open spec fn gap(index: int) -> Seq<char> {
    if index % 8 == 0 {
        "  "@
    } else {
        " "@
    }
}

/// The first `slots` cells of a line that shows `bytes`. A cell without a byte is blank.
pub open spec fn hex_column(bytes: Seq<u8>, slots: nat) -> Seq<char>
    decreases slots,
{
    if slots == 0 {
        Seq::empty()
    } else {
        let index = slots - 1;
        hex_column(bytes, index as nat) + gap(index) + if index < bytes.len() {
            hex_cell(bytes[index])
        } else {
            "  "@
        }
    }
}

/// Appends [`offset_text`] to `out`.
pub fn write_offset(out: &mut Vec<u8>, offset: usize)
    ensures
        final(out)@ == old(out)@ + encode_utf8(offset_text(offset as nat)),
{
    let len = hex_len(offset);
    if len < 8 {
        push_zeros(out, 8 - len);
    }
    push_hex(out, offset);
}

/// Appends [`hex_cell`] to `out`.
pub fn write_hex_cell(out: &mut Vec<u8>, b: u8)
    ensures
        final(out)@ == old(out)@ + encode_utf8(hex_cell(b)),
{
    push_str(out, color(b));
    if b < 16 {
        push_zeros(out, 1);
    }
    push_hex(out, b as usize);
    push_str(out, reset());
    proof {
        let digits = zero_padded(hex_text(b as nat), 2);
        reveal_with_fuel(crate::text::number_text, 2);
        assert(digits =~= byte_text(b));
        let zero = crate::text::repeated('0', 1);
        if b < 16 {
            assert(color_text(b) + zero + hex_text(b as nat) =~= color_text(b) + byte_text(b));
        }
    }
}

/// Appends [`hex_column`] to `out`.
pub fn write_hex_column(out: &mut Vec<u8>, bytes: &[u8], slots: usize)
    ensures
        final(out)@ == old(out)@ + encode_utf8(hex_column(bytes@, slots as nat)),
{
    proof {
        crate::text::lemma_append_nothing(out@);
    }
    let mut i: usize = 0;
    while i < slots
        invariant
            i <= slots,
            out@ == old(out)@ + encode_utf8(hex_column(bytes@, i as nat)),
        decreases slots - i,
    {
        if i % 8 == 0 {
            push_str(out, "  ");
        } else {
            push_str(out, " ");
        }
        if i < bytes.len() {
            write_hex_cell(out, bytes[i]);
        } else {
            push_str(out, "  ");
        }
        i = i + 1;
    }
}

} // verus!
