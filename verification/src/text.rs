//! Sequences as text: splitting at a separator, the bytes of split text, and
//! decimal numerals.

use vstd::prelude::*;
use vstd::utf8::{
    char_is_scalar, char_u32_cast, encode_scalar, encode_utf8, has_width_1_encoding, is_scalar,
};

verus! {

/// The number of items of `s` that stand before its first `sep`; the whole
/// length where `s` holds no `sep`.
pub open spec fn piece_len<T>(s: Seq<T>, sep: T) -> int
    decreases s.len(),
{
    if s.len() == 0 || s[0] == sep {
        0
    } else {
        1 + piece_len(s.drop_first(), sep)
    }
}

/// The pieces of `s` between its occurrences of `sep`, in order. A sequence
/// with k separators has k + 1 pieces, some of them possibly empty.
pub open spec fn split<T>(s: Seq<T>, sep: T) -> Seq<Seq<T>>
    decreases s.len(),
{
    let k = piece_len(s, sep);
    if 0 <= k < s.len() {
        seq![s.take(k)] + split(s.skip(k + 1), sep)
    } else {
        seq![s]
    }
}

/// `piece_len` is the place of the first separator: none stands before it,
/// and it is the end of the sequence or a separator.
pub proof fn lemma_piece_len<T>(s: Seq<T>, sep: T)
    ensures
        0 <= piece_len(s, sep) <= s.len(),
        forall|j: int| 0 <= j < piece_len(s, sep) ==> s[j] != sep,
        piece_len(s, sep) < s.len() ==> s[piece_len(s, sep)] == sep,
    decreases s.len(),
{
    if s.len() == 0 || s[0] == sep {
    } else {
        let t = s.drop_first();
        lemma_piece_len(t, sep);
        assert forall|j: int| 0 <= j < piece_len(s, sep) implies s[j] != sep by {
            if j > 0 {
                assert(s[j] == t[j - 1]);
            }
        }
        if piece_len(s, sep) < s.len() {
            assert(s[piece_len(s, sep)] == t[piece_len(t, sep)]);
        }
    }
}

/// A place that is the end of the sequence or holds a separator, and before
/// which no separator stands, is `piece_len`.
pub proof fn lemma_piece_len_unique<T>(s: Seq<T>, sep: T, k: int)
    requires
        0 <= k <= s.len(),
        forall|j: int| 0 <= j < k ==> s[j] != sep,
        k < s.len() ==> s[k] == sep,
    ensures
        piece_len(s, sep) == k,
{
    lemma_piece_len(s, sep);
    let t = piece_len(s, sep);
    if t < k {
        assert(s[t] == sep);
    } else if k < t {
        assert(s[k] == sep);
    }
}

/// A sequence has one piece more than it has separators: one piece at
/// least, and one only where it holds no separator.
pub proof fn lemma_split_len<T>(s: Seq<T>, sep: T)
    ensures
        split(s, sep).len() >= 1,
        split(s, sep).len() == 1 <==> piece_len(s, sep) == s.len(),
    decreases s.len(),
{
    lemma_piece_len(s, sep);
    let k = piece_len(s, sep);
    if k < s.len() {
        lemma_split_len(s.skip(k + 1), sep);
    }
}

/// Before a piece that holds no separator, the first separator of what
/// follows is the first of the whole.
pub proof fn lemma_piece_len_concat<T>(a: Seq<T>, b: Seq<T>, sep: T)
    requires
        forall|i: int| 0 <= i < a.len() ==> a[i] != sep,
    ensures
        piece_len(a + b, sep) == a.len() + piece_len(b, sep),
{
    lemma_piece_len(b, sep);
    let k = a.len() + piece_len(b, sep);
    assert forall|j: int| 0 <= j < k implies (a + b)[j] != sep by {
        if j >= a.len() {
            assert((a + b)[j] == b[j - a.len()]);
        }
    }
    if k < (a + b).len() {
        assert((a + b)[k] == b[k - a.len()]);
    }
    lemma_piece_len_unique(a + b, sep, k);
}

/// A piece without a separator, ended by a separator, is the first piece of
/// whatever it stands before; the pieces of the rest follow it.
pub proof fn lemma_split_first<T>(a: Seq<T>, rest: Seq<T>, sep: T)
    requires
        forall|i: int| 0 <= i < a.len() ==> a[i] != sep,
    ensures
        split(a.push(sep) + rest, sep) == seq![a] + split(rest, sep),
{
    let tail = seq![sep] + rest;
    let whole = a.push(sep) + rest;
    assert(whole =~= a + tail);
    lemma_piece_len_concat(a, tail, sep);
    assert(piece_len(tail, sep) == 0);
    let k = a.len() as int;
    assert(whole.take(k) =~= a);
    assert(whole.skip(k + 1) =~= rest);
}

/// The bytes that encode one character: an ASCII character is its own single
/// byte, and no byte of any other character is an ASCII byte.
pub proof fn lemma_encode_scalar_bytes(v: u32)
    requires
        is_scalar(v),
    ensures
        1 <= encode_scalar(v).len() <= 4,
        v <= 0x7f ==> encode_scalar(v) == seq![v as u8],
        v > 0x7f ==> forall|i: int|
            0 <= i < encode_scalar(v).len() ==> #[trigger] encode_scalar(v)[i] >= 0x80,
{
    if has_width_1_encoding(v) {
        assert((v & 0x7F) as u8 == v as u8) by (bit_vector)
            requires
                v <= 0x7f,
        ;
    } else {
        assert(0xC0u8 | ((v >> 6) & 0x1F) as u8 >= 0x80) by (bit_vector);
        assert(0xE0u8 | ((v >> 12) & 0x0F) as u8 >= 0x80) by (bit_vector);
        assert(0xF0u8 | ((v >> 18) & 0x7) as u8 >= 0x80) by (bit_vector);
        assert(0x80u8 | (v & 0x3F) as u8 >= 0x80) by (bit_vector);
        assert(0x80u8 | ((v >> 6) & 0x3F) as u8 >= 0x80) by (bit_vector);
        assert(0x80u8 | ((v >> 12) & 0x3F) as u8 >= 0x80) by (bit_vector);
    }
}

/// Splitting text at an ASCII character is splitting its bytes at that
/// character's byte: the UTF-8 encoding of a text has as many pieces as the
/// text, and each piece of bytes is the encoding of the piece of text in the
/// same place.
pub proof fn lemma_split_encoded(chars: Seq<char>, sep: char)
    requires
        sep as u32 <= 0x7f,
    ensures
        split(encode_utf8(chars), sep as u8).len() == split(chars, sep).len(),
        forall|i: int|
            0 <= i < split(chars, sep).len() ==> #[trigger] split(encode_utf8(chars), sep as u8)[i]
                == encode_utf8(split(chars, sep)[i]),
    decreases chars.len(),
{
    let sb = sep as u8;
    let bytes = encode_utf8(chars);
    if chars.len() == 0 {
        assert(split(bytes, sb) =~= seq![bytes]);
        assert(split(chars, sep) =~= seq![chars]);
    } else {
        let c = chars[0];
        let rest = chars.drop_first();
        let e = encode_scalar(c as u32);
        let r = encode_utf8(rest);
        assert(bytes == e + r);
        char_is_scalar(c);
        lemma_encode_scalar_bytes(c as u32);
        lemma_split_encoded(rest, sep);
        lemma_piece_len(r, sb);
        lemma_piece_len(rest, sep);
        if c == sep {
            assert(bytes[0] == sb);
            assert(bytes.take(0) =~= encode_utf8(chars.take(0)));
            assert(bytes.skip(1) =~= r);
            assert(chars.skip(1) =~= rest);
            assert(split(bytes, sb) == seq![bytes.take(0)] + split(r, sb));
            assert(split(chars, sep) == seq![chars.take(0)] + split(rest, sep));
        } else {
            assert(c as u32 != sep as u32) by {
                char_u32_cast(c, c as u32);
                char_u32_cast(sep, sep as u32);
            }
            assert forall|i: int| 0 <= i < e.len() implies e[i] != sb by {
                if c as u32 <= 0x7f {
                    assert(e[i] == (c as u32) as u8);
                } else {
                    assert(e[i] >= 0x80);
                }
            }
            lemma_piece_len_concat(e, r, sb);
            let k1 = piece_len(r, sb);
            let j1 = piece_len(rest, sep);
            let k = e.len() + k1;
            let j = 1 + j1;
            assert(piece_len(bytes, sb) == k);
            assert(piece_len(chars, sep) == j);
            if k1 < r.len() {
                assert(split(r, sb) == seq![r.take(k1)] + split(r.skip(k1 + 1), sb));
                assert(split(r, sb).len() >= 2);
                assert(j1 < rest.len());
                assert(split(rest, sep) == seq![rest.take(j1)] + split(rest.skip(j1 + 1), sep));
                assert(split(r, sb)[0] == encode_utf8(split(rest, sep)[0]));
                assert(r.take(k1) == encode_utf8(rest.take(j1)));
                assert(chars.take(j).drop_first() =~= rest.take(j1));
                assert(bytes.take(k) =~= e + r.take(k1));
                assert(bytes.take(k) == encode_utf8(chars.take(j)));
                assert(bytes.skip(k + 1) =~= r.skip(k1 + 1));
                assert(chars.skip(j + 1) =~= rest.skip(j1 + 1));
                assert(split(bytes, sb) == seq![bytes.take(k)] + split(r.skip(k1 + 1), sb));
                assert(split(chars, sep) == seq![chars.take(j)] + split(
                    rest.skip(j1 + 1),
                    sep,
                ));
                assert forall|i: int| 0 <= i < split(chars, sep).len() implies #[trigger] split(
                    bytes,
                    sb,
                )[i] == encode_utf8(split(chars, sep)[i]) by {
                    if i > 0 {
                        assert(split(bytes, sb)[i] == split(r, sb)[i]);
                        assert(split(chars, sep)[i] == split(rest, sep)[i]);
                    }
                }
            } else {
                assert(split(r, sb) =~= seq![r]);
                if j1 < rest.len() {
                    lemma_split_len(rest.skip(j1 + 1), sep);
                }
                assert(split(bytes, sb) =~= seq![bytes]);
                assert(split(chars, sep) =~= seq![chars]);
            }
        }
    }
}

/// The place of the first `sep` of `buf` at or after `start`, or the length
/// of `buf` where none follows.
pub fn find_byte(buf: &[u8], start: usize, sep: u8) -> (end: usize)
    requires
        start <= buf.len(),
    ensures
        start <= end <= buf.len(),
        end - start == piece_len(buf@.skip(start as int), sep),
{
    let mut i: usize = start;
    while i < buf.len() && buf[i] != sep
        invariant
            start <= i <= buf.len(),
            forall|j: int| start <= j < i ==> buf@[j] != sep,
        decreases buf.len() - i,
    {
        i += 1;
    }
    proof {
        let rest = buf@.skip(start as int);
        assert forall|j: int| 0 <= j < i - start implies rest[j] != sep by {
            assert(rest[j] == buf@[start + j]);
        }
        lemma_piece_len_unique(rest, sep, i - start);
    }
    i
}

/// The byte of the decimal digit `d`.
pub open spec fn digit(d: nat) -> u8
    recommends
        d < 10,
{
    (0x30 + d) as u8
}

/// Whether `b` is the byte of a decimal digit.
pub open spec fn is_digit(b: u8) -> bool {
    0x30 <= b <= 0x39
}

/// The decimal numeral of `n`, without sign or leading zero.
pub open spec fn decimal(n: nat) -> Seq<u8>
    decreases n,
{
    if n < 10 {
        seq![digit(n)]
    } else {
        decimal(n / 10).push(digit(n % 10))
    }
}

/// The number that a sequence of decimal digits denotes.
pub open spec fn decimal_value(s: Seq<u8>) -> nat
    decreases s.len(),
{
    if s.len() == 0 {
        0
    } else {
        decimal_value(s.drop_last()) * 10 + (s.last() - 0x30) as nat
    }
}

/// A numeral is not empty, holds digits only, and starts with a zero only
/// where it is the numeral of zero.
pub proof fn lemma_decimal_shape(n: nat)
    ensures
        decimal(n).len() >= 1,
        forall|i: int| 0 <= i < decimal(n).len() ==> is_digit(#[trigger] decimal(n)[i]),
        decimal(n)[0] == digit(0) <==> n == 0,
    decreases n,
{
    if n >= 10 {
        lemma_decimal_shape(n / 10);
    }
}

/// Reading a numeral back gives the number it was written from.
pub proof fn lemma_decimal_round_trip(n: nat)
    ensures
        decimal_value(decimal(n)) == n,
    decreases n,
{
    if n < 10 {
        let s = decimal(n);
        assert(s.drop_last().len() == 0);
        assert(decimal_value(s.drop_last()) == 0);
    } else {
        lemma_decimal_round_trip(n / 10);
        let s = decimal(n);
        assert(s.drop_last() =~= decimal(n / 10));
        assert(s.last() == digit(n % 10));
    }
}

/// Appends the decimal numeral of `n` to `out`.
pub fn push_decimal(out: &mut Vec<u8>, n: u64)
    ensures
        final(out)@ == old(out)@ + decimal(n as nat),
    decreases n,
{
    if n >= 10 {
        push_decimal(out, n / 10);
    }
    let d: u8 = (n % 10) as u8;
    out.push(0x30 + d);
    assert(out@ =~= old(out)@ + decimal(n as nat));
}

} // verus!
