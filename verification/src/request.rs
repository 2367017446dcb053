//! Classification of a request by the path token of its first line.

use vstd::prelude::*;
use vstd::string::StringSliceAdditionalSpecFns;
use vstd::utf8::{
    decode_utf8, decode_utf8_encode_utf8, encode_utf8, encode_utf8_decode_utf8, valid_utf8,
};
use crate::text::{
    find_byte, lemma_piece_len, lemma_split_encoded, lemma_split_len, piece_len, split,
};

verus! {

/// The byte of the space that separates the tokens of a request line.
pub const SPACE: u8 = 0x20;

/// The category of a request, decided by its path token alone.
#[derive(Clone, Copy, Debug, PartialEq, Eq, Structural)]
pub enum RequestType {
    Echo,
    Status,
    Other,
}

/// The bytes of a request are not text in UTF-8.
#[derive(Clone, Copy, Debug, PartialEq, Eq, Structural)]
pub struct InvalidText;

/// The tokens of a request: the pieces of its text between single spaces,
/// in order. Two spaces in a row enclose an empty token.
pub open spec fn tokens(text: Seq<char>) -> Seq<Seq<char>> {
    split(text, ' ')
}

/// The path of a request: its second token, where it has one.
pub open spec fn path_of(text: Seq<char>) -> Option<Seq<char>> {
    if tokens(text).len() >= 2 {
        Some(tokens(text)[1])
    } else {
        None
    }
}

/// The category that belongs to a path: the two known paths have their own,
/// every other path is `Other`.
pub open spec fn category_of(path: Seq<char>) -> RequestType {
    if path == "/echo"@ {
        RequestType::Echo
    } else if path == "/status"@ {
        RequestType::Status
    } else {
        RequestType::Other
    }
}

/// The category of a text, where it has a path.
pub open spec fn classify_text(text: Seq<char>) -> Option<RequestType> {
    match path_of(text) {
        Some(path) => Some(category_of(path)),
        None => None,
    }
}

/// What classification yields on the bytes `s`: a failure where they are
/// not UTF-8, else the category of the text that they encode.
pub open spec fn classify(s: Seq<u8>) -> Result<Option<RequestType>, InvalidText> {
    if valid_utf8(s) {
        Ok(classify_text(decode_utf8(s)))
    } else {
        Err(InvalidText)
    }
}

/// Classification is a function of the bytes: two buffers that hold the
/// same bytes are classified alike.
pub proof fn lemma_classify_deterministic(a: Seq<u8>, b: Seq<u8>)
    requires
        a.len() == b.len(),
        forall|i: int| 0 <= i < a.len() ==> a[i] == b[i],
    ensures
        classify(a) == classify(b),
{
    assert(a =~= b);
}

/// Classification never fails on text: every sequence of bytes that is
/// valid UTF-8 has a category or is found to have no path.
pub proof fn lemma_classify_total(s: Seq<u8>)
    requires
        valid_utf8(s),
    ensures
        classify(s) is Ok,
{
}

/// Classification looks at the path alone: two texts with the same second
/// token, or both without one, are classified alike, whatever else they
/// hold.
pub proof fn lemma_classify_by_path(a: Seq<u8>, b: Seq<u8>)
    requires
        valid_utf8(a),
        valid_utf8(b),
        path_of(decode_utf8(a)) == path_of(decode_utf8(b)),
    ensures
        classify(a) == classify(b),
{
}

/// Calls `core::str::from_utf8` and reports whether it accepted the bytes.
/// The standard library accepts exactly the well-formed UTF-8 sequences,
/// which is what `valid_utf8` describes.
#[verifier::external_body]
fn is_utf8(bytes: &[u8]) -> (ok: bool)
    ensures
        ok == valid_utf8(bytes@),
{
    match core::str::from_utf8(bytes) {
        Ok(_) => true,
        Err(_) => false,
    }
}

/// Whether the bytes of `buf` from `start` up to `end` are those of `word`.
fn piece_is(buf: &[u8], start: usize, end: usize, word: &str) -> (yes: bool)
    requires
        start <= end <= buf.len(),
    ensures
        yes == (buf@.subrange(start as int, end as int) == word.spec_bytes()),
{
    let wanted = word.as_bytes();
    let ghost piece = buf@.subrange(start as int, end as int);
    if end - start != wanted.len() {
        return false;
    }
    let mut i: usize = 0;
    while i < wanted.len()
        invariant
            0 <= i <= wanted.len(),
            start <= end <= buf.len(),
            end - start == wanted.len(),
            wanted@ == word.spec_bytes(),
            piece == buf@.subrange(start as int, end as int),
            forall|j: int| 0 <= j < i ==> piece[j] == wanted@[j],
        decreases wanted.len() - i,
    {
        if buf[start + i] != wanted[i] {
            assert(piece[i as int] != wanted@[i as int]);
            return false;
        }
        i += 1;
    }
    assert(piece =~= wanted@);
    true
}

/// Classifies the bytes of a request.
///
/// The bytes must be text in UTF-8, else the request is refused. The text is
/// split at each single space; the second piece is the path. A request with
/// fewer than two pieces has no category. The path `/echo` gives `Echo`,
/// `/status` gives `Status`, and every other path, the empty one too, gives
/// `Other`. No other piece of the request is looked at.
pub fn parse_request(buf: &[u8]) -> (r: Result<Option<RequestType>, InvalidText>)
    ensures
        r == classify(buf@),
{
    if !is_utf8(buf) {
        return Err(InvalidText);
    }
    let ghost text = decode_utf8(buf@);
    let first = find_byte(buf, 0, SPACE);
    proof {
        decode_utf8_encode_utf8(buf@);
        lemma_split_encoded(text, ' ');
        lemma_split_len(buf@, SPACE);
        assert(buf@.skip(0) =~= buf@);
    }
    if first == buf.len() {
        return Ok(None);
    }
    let start = first + 1;
    let end = find_byte(buf, start, SPACE);
    let ghost piece = buf@.subrange(start as int, end as int);
    proof {
        let rest = buf@.skip(start as int);
        let k = piece_len(rest, SPACE);
        lemma_piece_len(rest, SPACE);
        lemma_split_len(rest, SPACE);
        let second = if k < rest.len() {
            seq![rest.take(k)] + split(rest.skip(k + 1), SPACE)
        } else {
            seq![rest]
        };
        assert(split(rest, SPACE) == second);
        assert(split(buf@, SPACE) == seq![buf@.take(first as int)] + split(rest, SPACE));
        assert(split(buf@, SPACE)[1] == split(rest, SPACE)[0]);
        assert(rest.take(k) =~= piece);
        assert(piece == encode_utf8(tokens(text)[1]));
        encode_utf8_decode_utf8(tokens(text)[1]);
        encode_utf8_decode_utf8("/echo"@);
        encode_utf8_decode_utf8("/status"@);
    }
    if piece_is(buf, start, end, "/echo") {
        Ok(Some(RequestType::Echo))
    } else if piece_is(buf, start, end, "/status") {
        Ok(Some(RequestType::Status))
    } else {
        Ok(Some(RequestType::Other))
    }
}

} // verus!
