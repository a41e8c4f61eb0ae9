//! Numbers as text, and text as UTF-8 bytes.
//!
//! Contracts speak of text as a sequence of characters. What is written is its UTF-8
//! encoding, so a function that appends text to a byte buffer promises
//! `old bytes + encode_utf8(text)`.

use vstd::prelude::*;
use vstd::utf8::encode_utf8;

verus! {

/// The lower-case digit with the value `d`, for `d` below 16.
pub open spec fn digit_char(d: int) -> char {
    if d < 10 {
        (48 + d) as char
    } else {
        (87 + d) as char
    }
}

/// `n` written in base `base`, with no leading zeros.
pub open spec fn number_text(n: nat, base: nat) -> Seq<char>
    decreases n,
{
    if base < 2 || n < base {
        seq![digit_char(n as int)]
    } else {
        proof {
            assert(n / base < n) by (nonlinear_arith)
                requires
                    2 <= base <= n,
            ;
        }
        number_text(n / base, base).push(digit_char((n % base) as int))
    }
}

/// `n` in decimal.
pub open spec fn decimal_text(n: nat) -> Seq<char> {
    number_text(n, 10)
}

/// `n` in lower-case hexadecimal.
pub open spec fn hex_text(n: nat) -> Seq<char> {
    number_text(n, 16)
}

/// `n` copies of `c`.
pub open spec fn repeated(c: char, n: nat) -> Seq<char> {
    Seq::new(n, |i: int| c)
}

/// `digits` with zeros in front, up to `width` characters.
pub open spec fn zero_padded(digits: Seq<char>, width: nat) -> Seq<char> {
    if digits.len() < width {
        repeated('0', (width - digits.len()) as nat) + digits
    } else {
        digits
    }
}

/// The encoding of two texts one after the other is one encoding after the other.
pub proof fn lemma_encode_concat(a: Seq<char>, b: Seq<char>)
    ensures
        encode_utf8(a + b) == encode_utf8(a) + encode_utf8(b),
    decreases a.len(),
{
    if a.len() == 0 {
        assert(a + b =~= b);
    } else {
        lemma_encode_concat(a.drop_first(), b);
        assert((a + b).drop_first() =~= a.drop_first() + b);
    }
}

/// Appending the encoding of `piece` behind that of `text` appends `piece` to the text.
pub broadcast proof fn lemma_append_text(before: Seq<u8>, text: Seq<char>, piece: Seq<char>)
    ensures
        #[trigger] ((before + encode_utf8(text)) + encode_utf8(piece)) == before + encode_utf8(
            text + piece,
        ),
{
    lemma_encode_concat(text, piece);
}

/// Empty text adds no bytes.
pub proof fn lemma_append_nothing(before: Seq<u8>)
    ensures
        before + encode_utf8(Seq::<char>::empty()) == before,
{
}

/// A character below 128 is encoded as the one byte of its value.
pub proof fn lemma_encode_ascii(b: u8)
    requires
        b < 128,
    ensures
        encode_utf8(seq![b as char]) == seq![b],
{
    let text = seq![b as char];
    assert(vstd::utf8::is_ascii_chars(text));
    vstd::utf8::is_ascii_chars_encode_utf8(text);
    assert(text[0] as u8 == b);
    assert(encode_utf8(text) =~= seq![b]);
}

/// Appends the UTF-8 bytes of `text` to `out`.
pub fn push_str(out: &mut Vec<u8>, text: &str)
    ensures
        final(out)@ == old(out)@ + encode_utf8(text@),
{
    out.extend_from_slice(text.as_bytes());
}

/// Appends the ASCII character with the value `b` to `out`.
pub fn push_ascii(out: &mut Vec<u8>, b: u8)
    requires
        b < 128,
    ensures
        final(out)@ == old(out)@ + encode_utf8(seq![b as char]),
{
    proof {
        lemma_encode_ascii(b);
    }
    out.push(b);
}

/// Appends `count` zeros to `out`.
pub fn push_zeros(out: &mut Vec<u8>, count: usize)
    ensures
        final(out)@ == old(out)@ + encode_utf8(repeated('0', count as nat)),
{
    proof {
        lemma_append_nothing(out@);
        assert(repeated('0', 0) =~= Seq::<char>::empty());
    }
    let mut i: usize = 0;
    while i < count
        invariant
            i <= count,
            out@ == old(out)@ + encode_utf8(repeated('0', i as nat)),
        decreases count - i,
    {
        push_ascii(out, 48);
        i = i + 1;
        proof {
            lemma_append_text(old(out)@, repeated('0', (i - 1) as nat), seq![48u8 as char]);
            assert(repeated('0', (i - 1) as nat) + seq![48u8 as char] =~= repeated('0', i as nat));
        }
    }
}

/// Appends the digit with the value `d` to `out`.
fn push_digit(out: &mut Vec<u8>, d: usize)
    requires
        d < 16,
    ensures
        final(out)@ == old(out)@ + encode_utf8(seq![digit_char(d as int)]),
{
    if d < 10 {
        push_ascii(out, 48 + d as u8);
    } else {
        push_ascii(out, 87 + d as u8);
    }
}

/// Appends `n` in hexadecimal to `out`.
pub fn push_hex(out: &mut Vec<u8>, n: usize)
    ensures
        final(out)@ == old(out)@ + encode_utf8(hex_text(n as nat)),
    decreases n,
{
    broadcast use lemma_append_text;

    if n < 16 {
        push_digit(out, n);
    } else {
        push_hex(out, n / 16);
        push_digit(out, n % 16);
        proof {
            let high = hex_text((n / 16) as nat);
            let low = digit_char((n % 16) as int);
            assert(high + seq![low] =~= high.push(low));
        }
    }
}

/// How many hexadecimal digits `n` has.
pub fn hex_len(n: usize) -> (len: usize)
    ensures
        len == hex_text(n as nat).len(),
        1 <= len <= n + 1,
    decreases n,
{
    if n < 16 {
        1
    } else {
        1 + hex_len(n / 16)
    }
}

/// The digit `d` as a string.
fn digit_str(d: usize) -> (s: &'static str)
    requires
        d < 10,
    ensures
        s@ == seq![digit_char(d as int)],
{
    proof {
        reveal_strlit("0");
        reveal_strlit("1");
        reveal_strlit("2");
        reveal_strlit("3");
        reveal_strlit("4");
        reveal_strlit("5");
        reveal_strlit("6");
        reveal_strlit("7");
        reveal_strlit("8");
        reveal_strlit("9");
    }
    let s = match d {
        0 => "0",
        1 => "1",
        2 => "2",
        3 => "3",
        4 => "4",
        5 => "5",
        6 => "6",
        7 => "7",
        8 => "8",
        _ => "9",
    };
    assert(s@ =~= seq![digit_char(d as int)]);
    s
}

/// `n` in decimal, as a string.
pub fn decimal(n: usize) -> (s: String)
    ensures
        s@ == decimal_text(n as nat),
    decreases n,
{
    if n < 10 {
        digit_str(n).to_owned()
    } else {
        let mut s = decimal(n / 10);
        s.append(digit_str(n % 10));
        assert(s@ =~= decimal_text(n as nat));
        s
    }
}

} // verus!
