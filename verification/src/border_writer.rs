//! The borders above and below the lines of a dump.

use vstd::prelude::*;
use vstd::utf8::encode_utf8;

use crate::text::{push_str, repeated};

verus! {

broadcast use crate::text::lemma_append_text;

/// Which end of the dump a border stands at.
#[derive(Clone, Copy, PartialEq, Eq, Structural, Debug)]
pub enum Border {
    /// Above the first line.
    Header,
    /// Below the last line.
    Footer,
}

/// How many columns of a line do not depend on the number of bytes: eight for the offset, and two
/// for the gap in front of the characters.
pub const FIXED_COLUMNS: usize = 10;

/// How many columns a group of eight bytes takes: 25 for the hexadecimal cells with their gaps, and
/// one for each character.
pub const GROUP_COLUMNS: usize = 33;

/// How many columns a line with `groups` groups of eight bytes takes.
pub open spec fn columns_for(groups: nat) -> nat {
    FIXED_COLUMNS as nat + GROUP_COLUMNS as nat * groups
}

/// A horizontal bar, as wide as the lines.
pub open spec fn bar_text(groups: nat) -> Seq<char> {
    repeated('─', columns_for(groups)).push('\n')
}

/// The title on a line of its own. An empty title takes no line.
pub open spec fn title_line(title: Seq<char>) -> Seq<char> {
    if title.len() == 0 {
        Seq::empty()
    } else {
        title.push('\n')
    }
}

/// A border: the bar, and on the side away from the lines the title.
pub open spec fn border_text(groups: nat, border: Border, title: Seq<char>) -> Seq<char> {
    match border {
        Border::Header => title_line(title) + bar_text(groups),
        Border::Footer => bar_text(groups) + title_line(title),
    }
}

/// Appends `count` times the character of the bar to `out`.
fn push_bar(out: &mut Vec<u8>, count: usize)
    ensures
        final(out)@ == old(out)@ + encode_utf8(repeated('─', count as nat)),
{
    proof {
        crate::text::lemma_append_nothing(out@);
        assert(repeated('─', 0) =~= Seq::<char>::empty());
    }
    let mut i: usize = 0;
    while i < count
        invariant
            i <= count,
            out@ == old(out)@ + encode_utf8(repeated('─', i as nat)),
        decreases count - i,
    {
        push_str(out, "─");
        i = i + 1;
        proof {
            reveal_strlit("─");
            assert(repeated('─', (i - 1) as nat) + "─"@ =~= repeated('─', i as nat));
        }
    }
}

/// Appends [`bar_text`] to `out`.
pub fn write_bar(out: &mut Vec<u8>, groups: usize)
    ensures
        final(out)@ == old(out)@ + encode_utf8(bar_text(groups as nat)),
{
    push_bar(out, FIXED_COLUMNS);
    let mut i: usize = 0;
    while i < groups
        invariant
            i <= groups,
            out@ == old(out)@ + encode_utf8(repeated('─', columns_for(i as nat))),
        decreases groups - i,
    {
        push_bar(out, GROUP_COLUMNS);
        i = i + 1;
        proof {
            assert(repeated('─', columns_for((i - 1) as nat)) + repeated('─', GROUP_COLUMNS as nat)
                =~= repeated('─', columns_for(i as nat)));
        }
    }
    push_str(out, "\n");
    proof {
        reveal_strlit("\n");
        assert(repeated('─', columns_for(groups as nat)) + "\n"@ =~= bar_text(groups as nat));
    }
}

/// Appends [`title_line`] to `out`.
pub fn write_title(out: &mut Vec<u8>, title: &str)
    ensures
        final(out)@ == old(out)@ + encode_utf8(title_line(title@)),
{
    if title.is_empty() {
        proof {
            crate::text::lemma_append_nothing(out@);
        }
    } else {
        push_str(out, title);
        push_str(out, "\n");
        proof {
            reveal_strlit("\n");
            assert(title@ + "\n"@ =~= title_line(title@));
        }
    }
}

/// Appends [`border_text`] to `out`.
pub fn write_border_text(out: &mut Vec<u8>, groups: usize, border: Border, title: &str)
    ensures
        final(out)@ == old(out)@ + encode_utf8(border_text(groups as nat, border, title@)),
{
    match border {
        Border::Header => {
            write_title(out, title);
            write_bar(out, groups);
        },
        Border::Footer => {
            write_bar(out, groups);
            write_title(out, title);
        },
    }
}

} // verus!
