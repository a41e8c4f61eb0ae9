//! Blocks of data as lines, formatted in parallel.

use rayon::iter::{IndexedParallelIterator, IntoParallelRefMutIterator, ParallelIterator};
use rayon::slice::ParallelSlice;
use vstd::arithmetic::div_mod::{
    lemma_basic_div, lemma_div_decreases, lemma_fundamental_div_mod, lemma_hoist_over_denominator,
};
use vstd::arithmetic::mul::lemma_mul_is_commutative;
use vstd::prelude::*;
use vstd::utf8::encode_utf8;

use crate::line_writer::{larger, line_text, LineWriter};

verus! {

broadcast use crate::text::lemma_append_text;

/// How many lines `len` bytes take.
pub open spec fn line_count(len: nat, bytes_per_line: nat) -> nat {
    ((len + bytes_per_line - 1) / bytes_per_line as int) as nat
}

/// Where the line with the number `index` ends in `len` bytes.
pub open spec fn line_end(len: nat, bytes_per_line: nat, index: int) -> int {
    if (index + 1) * bytes_per_line < len {
        (index + 1) * bytes_per_line
    } else {
        len as int
    }
}

/// The bytes on the line with the number `index`: all lines but the last are full.
pub open spec fn line_bytes(data: Seq<u8>, bytes_per_line: nat, index: int) -> Seq<u8> {
    data.subrange(index * bytes_per_line, line_end(data.len(), bytes_per_line, index))
}

/// The line with the number `index` of a block whose first byte stands at `offset`.
pub open spec fn block_line(
    bytes_per_line: nat,
    offset: nat,
    data: Seq<u8>,
    index: int,
) -> Seq<char> {
    line_text(
        bytes_per_line,
        (offset + index * bytes_per_line) as nat,
        line_bytes(data, bytes_per_line, index),
    )
}

/// The first `count` lines of a block.
pub open spec fn first_lines(
    bytes_per_line: nat,
    offset: nat,
    data: Seq<u8>,
    count: nat,
) -> Seq<char>
    decreases count,
{
    if count == 0 {
        Seq::empty()
    } else {
        first_lines(bytes_per_line, offset, data, (count - 1) as nat) + block_line(
            bytes_per_line,
            offset,
            data,
            count - 1,
        )
    }
}

/// All lines of a block whose first byte stands at `offset`.
pub open spec fn lines_text(bytes_per_line: nat, offset: nat, data: Seq<u8>) -> Seq<char> {
    first_lines(bytes_per_line, offset, data, line_count(data.len(), bytes_per_line))
}

/// A line of a block begins inside the data.
pub proof fn lemma_line_begins(len: nat, bytes_per_line: nat, index: int)
    requires
        bytes_per_line > 0,
        0 <= index < line_count(len, bytes_per_line),
    ensures
        0 <= index * bytes_per_line < len,
        index * bytes_per_line < line_end(len, bytes_per_line, index) <= len,
        line_end(len, bytes_per_line, index) - index * bytes_per_line <= bytes_per_line,
{
    let b = bytes_per_line as int;
    let n = (len + b - 1) / b;
    lemma_fundamental_div_mod(len + b - 1, b);
    lemma_mul_is_commutative(n, b);
    assert((index + 1) * b <= n * b && 0 <= index * b && (index + 1) * b == index * b + b)
        by (nonlinear_arith)
        requires
            0 <= index < n,
            b > 0,
    ;
}

impl LineWriter {
    /// Replaces what is in `line` by the line with the number `index` of a block at `offset`.
    pub fn write_block_line(&self, line: &mut Vec<u8>, offset: usize, index: usize, bytes: &[u8])
        requires
            offset + index * self@ <= usize::MAX,
        ensures
            final(line)@ == encode_utf8(
                line_text(self@, (offset + index * self@) as nat, bytes@),
            ),
    {
        line.clear();
        let bytes_per_line = self.bytes_per_line();
        let ghost before = line@;
        assert(index * bytes_per_line >= 0) by (nonlinear_arith);
        self.write_line(line, offset + index * bytes_per_line, bytes);
        assert(before =~= Seq::<u8>::empty());
        assert(line@ =~= encode_utf8(
            line_text(self@, (offset + index * self@) as nat, bytes@),
        ));
    }
}

/// `rayon`'s `par_chunks(bytes_per_line)`, numbered by `enumerate`, paired by `zip` with
/// `par_iter_mut` over `lines`, and worked off by `for_each`. The chunks of `bytes_per_line` bytes,
/// the last of which may be shorter, are numbered in order. Each is given once to
/// [`LineWriter::write_block_line`], together with its number and the element of `lines` that has
/// the same number. Elements without a chunk are left as they are. `par_chunks` panics where
/// `bytes_per_line` is 0.
#[verifier::external_body]
fn write_lines_in_parallel(
    line_writer: &LineWriter,
    bytes_per_line: usize,
    data: &[u8],
    offset: usize,
    lines: &mut Vec<Vec<u8>>,
)
    requires
        bytes_per_line == line_writer@,
        bytes_per_line > 0,
        offset + data@.len() <= usize::MAX,
        line_count(data@.len(), line_writer@) <= old(lines)@.len(),
    ensures
        final(lines)@.len() == old(lines)@.len(),
        forall|i: int|
            #![trigger final(lines)@[i]]
            0 <= i < line_count(data@.len(), line_writer@) ==> final(lines)@[i]@ == encode_utf8(
                block_line(line_writer@, offset as nat, data@, i),
            ),
        forall|i: int|
            #![trigger final(lines)@[i]]
            line_count(data@.len(), line_writer@) <= i < old(lines)@.len() ==> final(lines)@[i]
                == old(lines)@[i],
{
    data.par_chunks(bytes_per_line).enumerate().zip(lines.par_iter_mut()).for_each(
        |((index, chunk), line)| line_writer.write_block_line(line, offset, index, chunk),
    );
}

/// How many lines `len` bytes take.
pub fn count_lines(len: usize, bytes_per_line: usize) -> (count: usize)
    requires
        bytes_per_line > 0,
    ensures
        count == line_count(len as nat, bytes_per_line as nat),
{
    let full = len / bytes_per_line;
    let left = len % bytes_per_line;
    proof {
        let b = bytes_per_line as int;
        lemma_fundamental_div_mod(len as int, b);
        lemma_mul_is_commutative(b, full as int);
        lemma_hoist_over_denominator(left + b - 1, full as int, b as nat);
        if left == 0 {
            lemma_basic_div(b - 1, b);
        } else {
            lemma_hoist_over_denominator(left - 1, 1, b as nat);
            lemma_basic_div(left - 1, b);
            lemma_div_decreases(len as int, b);
        }
    }
    if left == 0 {
        full
    } else {
        full + 1
    }
}

/// Appends the lines of a block whose first byte stands at `offset` to `out`. The buffers in
/// `lines` are used again from block to block: they hold the lines of this block afterwards,
/// whatever they held before, and there are more of them only where the block has more lines.
pub fn write_block(
    line_writer: &LineWriter,
    data: &[u8],
    offset: usize,
    lines: &mut Vec<Vec<u8>>,
    out: &mut Vec<u8>,
)
    requires
        offset + data@.len() <= usize::MAX,
    ensures
        final(out)@ == old(out)@ + encode_utf8(lines_text(line_writer@, offset as nat, data@)),
        final(lines)@.len() == larger(old(lines)@.len(), line_count(data@.len(), line_writer@)),
        forall|i: int|
            #![trigger final(lines)@[i]]
            0 <= i < line_count(data@.len(), line_writer@) ==> final(lines)@[i]@ == encode_utf8(
                block_line(line_writer@, offset as nat, data@, i),
            ),
        forall|i: int|
            #![trigger final(lines)@[i]]
            line_count(data@.len(), line_writer@) <= i < old(lines)@.len() ==> final(lines)@[i]
                == old(lines)@[i],
{
    let bytes_per_line = line_writer.bytes_per_line();
    let count = count_lines(data.len(), bytes_per_line);
    while lines.len() < count
        invariant
            old(lines)@.len() <= lines@.len() <= larger(old(lines)@.len(), count as nat),
            forall|i: int|
                #![trigger lines@[i]]
                0 <= i < old(lines)@.len() ==> lines@[i] == old(lines)@[i],
        decreases count - lines.len(),
    {
        lines.push(Vec::new());
    }
    write_lines_in_parallel(line_writer, bytes_per_line, data, offset, lines);
    proof {
        crate::text::lemma_append_nothing(out@);
    }
    let mut i: usize = 0;
    while i < count
        invariant
            i <= count <= lines@.len(),
            count == line_count(data@.len(), line_writer@),
            forall|j: int|
                #![trigger lines@[j]]
                0 <= j < count ==> lines@[j]@ == encode_utf8(
                    block_line(line_writer@, offset as nat, data@, j),
                ),
            out@ == old(out)@ + encode_utf8(
                first_lines(line_writer@, offset as nat, data@, i as nat),
            ),
        decreases count - i,
    {
        let ghost written = first_lines(line_writer@, offset as nat, data@, i as nat);
        let ghost line = block_line(line_writer@, offset as nat, data@, i as int);
        out.extend_from_slice(lines[i].as_slice());
        assert(lines@[i as int]@ == encode_utf8(line));
        assert(out@ == (old(out)@ + encode_utf8(written)) + encode_utf8(line));
        proof {
            crate::text::lemma_append_text(old(out)@, written, line);
        }
        i = i + 1;
        assert(first_lines(line_writer@, offset as nat, data@, i as nat) == written + line);
    }
}

} // verus!
