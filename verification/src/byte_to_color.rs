//! The colour of each byte value, as an ANSI escape sequence.

use vstd::prelude::*;

verus! {

/// The groups of byte values that share a colour.
#[derive(Clone, Copy, PartialEq, Eq, Structural, Debug)]
pub enum ByteKind {
    /// The byte 0.
    Null,
    /// Tab, line feed, vertical tab, form feed, carriage return and space.
    Whitespace,
    /// The visible ASCII characters.
    Printable,
    /// Every other ASCII value.
    Control,
    /// Every value that is not ASCII.
    Extended,
}

/// The group that `b` belongs to.
pub open spec fn kind_of(b: u8) -> ByteKind {
    if b == 0 {
        ByteKind::Null
    } else if 9 <= b <= 13 || b == 32 {
        ByteKind::Whitespace
    } else if 33 <= b <= 126 {
        ByteKind::Printable
    } else if b < 128 {
        ByteKind::Control
    } else {
        ByteKind::Extended
    }
}

/// The escape sequence that switches to the colour of a group.
pub open spec fn kind_color(kind: ByteKind) -> Seq<char> {
    match kind {
        ByteKind::Null => "\x1b[90m"@,
        ByteKind::Whitespace => "\x1b[32m"@,
        ByteKind::Printable => "\x1b[36m"@,
        ByteKind::Control => "\x1b[35m"@,
        ByteKind::Extended => "\x1b[33m"@,
    }
}

/// The escape sequence that switches to the colour of `b`.
pub open spec fn color_text(b: u8) -> Seq<char> {
    kind_color(kind_of(b))
}

/// The escape sequence that switches back to the terminal's own colour.
pub open spec fn reset_text() -> Seq<char> {
    "\x1b[0m"@
}

/// Computes [`kind_of`].
pub fn byte_kind(b: u8) -> (kind: ByteKind)
    ensures
        kind == kind_of(b),
{
    if b == 0 {
        ByteKind::Null
    } else if (9 <= b && b <= 13) || b == 32 {
        ByteKind::Whitespace
    } else if 33 <= b && b <= 126 {
        ByteKind::Printable
    } else if b < 128 {
        ByteKind::Control
    } else {
        ByteKind::Extended
    }
}

/// Computes [`color_text`].
pub fn color(b: u8) -> (escape: &'static str)
    ensures
        escape@ == color_text(b),
{
    match byte_kind(b) {
        ByteKind::Null => "\x1b[90m",
        ByteKind::Whitespace => "\x1b[32m",
        ByteKind::Printable => "\x1b[36m",
        ByteKind::Control => "\x1b[35m",
        ByteKind::Extended => "\x1b[33m",
    }
}

/// Computes [`reset_text`].
pub fn reset() -> (escape: &'static str)
    ensures
        escape@ == reset_text(),
{
    "\x1b[0m"
}

} // verus!
