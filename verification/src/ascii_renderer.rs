//! The character column of a line.

use vstd::prelude::*;
use vstd::utf8::encode_utf8;

use crate::byte_to_color::{byte_kind, color, color_text, kind_of, reset, reset_text, ByteKind};
use crate::text::{push_ascii, push_str};

verus! {

broadcast use crate::text::lemma_append_text;

/// The character that stands for `b`: itself where it is visible or a space, otherwise a dot.
pub open spec fn ascii_char(b: u8) -> char {
    if kind_of(b) == ByteKind::Printable || b == 32 {
        b as char
    } else {
        '.'
    }
}

/// The character for `b`, in the colour of `b`.
pub open spec fn ascii_cell(b: u8) -> Seq<char> {
    color_text(b) + seq![ascii_char(b)] + reset_text()
}

/// The characters for `bytes`, in order.
pub open spec fn ascii_column(bytes: Seq<u8>) -> Seq<char>
    decreases bytes.len(),
{
    if bytes.len() == 0 {
        Seq::empty()
    } else {
        ascii_column(bytes.drop_last()) + ascii_cell(bytes.last())
    }
}

/// Appends [`ascii_cell`] to `out`.
pub fn write_ascii_cell(out: &mut Vec<u8>, b: u8)
    ensures
        final(out)@ == old(out)@ + encode_utf8(ascii_cell(b)),
{
    push_str(out, color(b));
    let visible = match byte_kind(b) {
        ByteKind::Printable => true,
        _ => b == 32,
    };
    if visible {
        push_ascii(out, b);
    } else {
        push_ascii(out, 46);
    }
    push_str(out, reset());
}

/// Appends [`ascii_column`] to `out`.
pub fn write_ascii_column(out: &mut Vec<u8>, bytes: &[u8])
    ensures
        final(out)@ == old(out)@ + encode_utf8(ascii_column(bytes@)),
{
    proof {
        crate::text::lemma_append_nothing(out@);
        assert(bytes@.take(0) =~= Seq::<u8>::empty());
    }
    let mut i: usize = 0;
    while i < bytes.len()
        invariant
            i <= bytes.len(),
            out@ == old(out)@ + encode_utf8(ascii_column(bytes@.take(i as int))),
        decreases bytes.len() - i,
    {
        write_ascii_cell(out, bytes[i]);
        i = i + 1;
        proof {
            assert(bytes@.take(i as int).drop_last() =~= bytes@.take(i - 1));
        }
    }
    proof {
        assert(bytes@.take(i as int) =~= bytes@);
    }
}

} // verus!
