//! Lines of a dump, and how many bytes stand on each.

use vstd::prelude::*;
use vstd::utf8::encode_utf8;

use crate::ascii_renderer::{ascii_column, write_ascii_column};
use crate::border_writer::{
    border_text, columns_for, write_border_text, FIXED_COLUMNS, GROUP_COLUMNS,
};
use crate::error::{HexlerError, Result};
use crate::hex_formatter::{hex_column, offset_text, write_hex_column, write_offset};
use crate::text::push_str;

pub use crate::border_writer::Border;

verus! {

broadcast use crate::text::lemma_append_text;

/// Whether lines can hold `n` bytes: one or more groups of eight.
pub open spec fn valid_bytes_per_line(n: nat) -> bool {
    n >= 8 && n % 8 == 0
}

/// How many columns of the terminal a line with `bytes_per_line` bytes takes.
pub open spec fn line_width(bytes_per_line: nat) -> nat {
    columns_for(bytes_per_line / 8)
}

/// The largest valid number of bytes per line whose lines fit into `max_width` columns; one group
/// where none fits.
pub open spec fn bytes_for_width(max_width: nat) -> nat {
    if max_width < line_width(16) {
        8
    } else {
        (max_width - FIXED_COLUMNS) as nat / GROUP_COLUMNS as nat * 8
    }
}

/// The larger of two numbers.
pub open spec fn larger(a: nat, b: nat) -> nat {
    if a < b {
        b
    } else {
        a
    }
}

/// One line: the offset of its first byte, the bytes in hexadecimal, and the bytes as characters.
/// A line with fewer than `bytes_per_line` bytes has blank cells in their place.
pub open spec fn line_text(bytes_per_line: nat, offset: nat, bytes: Seq<u8>) -> Seq<char> {
    offset_text(offset) + hex_column(bytes, larger(bytes_per_line, bytes.len())) + "  "@
        + ascii_column(bytes) + "\n"@
}

/// Writes the lines and borders of a dump with a given number of bytes per line.
pub struct LineWriter {
    bytes_per_line: usize,
}

impl View for LineWriter {
    type V = nat;

    /// The number of bytes per line.
    closed spec fn view(&self) -> nat {
        self.bytes_per_line as nat
    }
}

impl LineWriter {
    /// Every line writer has a valid number of bytes per line.
    #[verifier::type_invariant]
    spec fn wf(self) -> bool {
        valid_bytes_per_line(self.bytes_per_line as nat)
    }

    /// A line writer with `bytes_per_line` bytes per line, which must be a multiple of 8 and at
    /// least 8.
    pub fn new_bytes(bytes_per_line: usize) -> (r: Result<LineWriter>)
        ensures
            match r {
                Ok(line_writer) => valid_bytes_per_line(bytes_per_line as nat) && line_writer@
                    == bytes_per_line,
                Err(HexlerError::InvalidBytesPerLine(n)) => !valid_bytes_per_line(
                    bytes_per_line as nat,
                ) && n == bytes_per_line,
                Err(_) => false,
            },
            r is Ok <==> bytes_per_line >= 8 && bytes_per_line % 8 == 0,
    {
        if bytes_per_line < 8 || bytes_per_line % 8 != 0 {
            return Err(HexlerError::InvalidBytesPerLine(bytes_per_line));
        }
        Ok(LineWriter { bytes_per_line })
    }

    /// A line writer whose lines make the best use of a terminal with `max_width` columns.
    pub fn new_max_width(max_width: usize) -> (r: Result<LineWriter>)
        ensures
            r matches Ok(line_writer) && line_writer@ == bytes_for_width(max_width as nat),
            r matches Ok(line_writer) && line_writer@ >= 8 && line_writer@ % 8 == 0 && (line_writer@
                == 8 || 10 + 33 * (line_writer@ / 8) <= max_width) && max_width < 10 + 33 * (
            line_writer@ / 8 + 1),
    {
        let groups: usize = if max_width < FIXED_COLUMNS + 2 * GROUP_COLUMNS {
            1
        } else {
            (max_width - FIXED_COLUMNS) / GROUP_COLUMNS
        };
        LineWriter::new_bytes(groups * 8)
    }

    /// The number of bytes per line.
    pub fn bytes_per_line(&self) -> (n: usize)
        ensures
            n == self@,
            valid_bytes_per_line(n as nat),
    {
        proof {
            use_type_invariant(self);
        }
        self.bytes_per_line
    }

    /// Appends a border to `out`. Writing to memory cannot fail.
    pub fn write_border(&self, out: &mut Vec<u8>, border: Border, title: &str) -> (r: Result<()>)
        ensures
            r is Ok,
            final(out)@ == old(out)@ + encode_utf8(border_text(self@ / 8, border, title@)),
    {
        write_border_text(out, self.bytes_per_line / 8, border, title);
        Ok(())
    }

    /// Appends the line that shows `bytes`, the first of which stands at `offset`, to `out`.
    pub fn write_line(&self, out: &mut Vec<u8>, offset: usize, bytes: &[u8])
        ensures
            final(out)@ == old(out)@ + encode_utf8(line_text(self@, offset as nat, bytes@)),
    {
        let slots: usize = if self.bytes_per_line < bytes.len() {
            bytes.len()
        } else {
            self.bytes_per_line
        };
        write_offset(out, offset);
        write_hex_column(out, bytes, slots);
        push_str(out, "  ");
        write_ascii_column(out, bytes);
        push_str(out, "\n");
    }
}

} // verus!
