//! Replies and their exact bytes on the wire.

use vstd::prelude::*;
use vstd::string::StringSliceAdditionalSpecFns;
use vstd::utf8::is_ascii_chars_encode_utf8;
use crate::text::{
    decimal, decimal_value, is_digit, lemma_decimal_round_trip, lemma_decimal_shape,
    lemma_split_first, push_decimal, split,
};

verus! {

/// The byte that ends each header line.
pub const NEWLINE: u8 = 0x0a;

/// A reply: a status code and the text of the body.
#[derive(Clone, Copy, Debug, PartialEq, Eq)]
pub struct Response {
    pub status_code: u32,
    pub body: &'static str,
}

/// The first line of a reply with the given status code.
pub open spec fn status_line(status_code: u32) -> Seq<u8> {
    "HTTP/1.1 ".spec_bytes() + decimal(status_code as nat)
}

/// The header that names the server.
pub open spec fn server_line() -> Seq<u8> {
    "Server: Linux Kernel".spec_bytes()
}

/// The header that announces a body of `len` bytes.
pub open spec fn content_length_line(len: nat) -> Seq<u8> {
    "Content-Length: ".spec_bytes() + decimal(len)
}

/// The header that gives the body's type.
pub open spec fn content_type_line() -> Seq<u8> {
    "Content-Type: text/plain".spec_bytes()
}

/// The header that announces the end of the connection.
pub open spec fn connection_line() -> Seq<u8> {
    "Connection: Closed".spec_bytes()
}

/// All that stands before the body: the status line, the four headers and
/// the blank line, each ended by a newline.
pub open spec fn response_head(status_code: u32, body_len: nat) -> Seq<u8> {
    status_line(status_code).push(NEWLINE) + server_line().push(NEWLINE) + content_length_line(
        body_len,
    ).push(NEWLINE) + content_type_line().push(NEWLINE) + connection_line().push(NEWLINE)
        + seq![NEWLINE]
}

/// The bytes of a reply on the wire: the head, then the body as it is.
pub open spec fn response_bytes(status_code: u32, body: Seq<u8>) -> Seq<u8> {
    response_head(status_code, body.len()) + body
}

/// The lines of a reply: the pieces of its bytes between newlines.
pub open spec fn lines(response: Seq<u8>) -> Seq<Seq<u8>> {
    split(response, NEWLINE)
}

/// The length that a reply announces: the number that its third line holds
/// behind `Content-Length: `.
pub open spec fn announced_length(response: Seq<u8>) -> nat {
    decimal_value(lines(response)[2].skip("Content-Length: ".spec_bytes().len() as int))
}

/// Whether no byte of `line` is a newline.
pub open spec fn is_one_line(line: Seq<u8>) -> bool {
    forall|i: int| 0 <= i < line.len() ==> line[i] != NEWLINE
}

/// No header line holds a newline, so each of them is one line of the reply.
proof fn lemma_header_lines(status_code: u32, len: nat)
    ensures
        is_one_line(status_line(status_code)),
        is_one_line(server_line()),
        is_one_line(content_length_line(len)),
        is_one_line(content_type_line()),
        is_one_line(connection_line()),
        "Content-Length: ".spec_bytes().len() == 16,
{
    reveal_strlit("HTTP/1.1 ");
    reveal_strlit("Server: Linux Kernel");
    reveal_strlit("Content-Length: ");
    reveal_strlit("Content-Type: text/plain");
    reveal_strlit("Connection: Closed");
    is_ascii_chars_encode_utf8("HTTP/1.1 "@);
    is_ascii_chars_encode_utf8("Server: Linux Kernel"@);
    is_ascii_chars_encode_utf8("Content-Length: "@);
    is_ascii_chars_encode_utf8("Content-Type: text/plain"@);
    is_ascii_chars_encode_utf8("Connection: Closed"@);
    lemma_decimal_shape(status_code as nat);
    lemma_decimal_shape(len);
    let status = status_line(status_code);
    assert forall|i: int| 0 <= i < status.len() implies status[i] != NEWLINE by {
        let start = "HTTP/1.1 ".spec_bytes();
        if i < start.len() {
            assert(start[i] == "HTTP/1.1 "@[i] as u8);
        } else {
            assert(is_digit(decimal(status_code as nat)[i - start.len()]));
        }
    }
    let server = server_line();
    assert forall|i: int| 0 <= i < server.len() implies server[i] != NEWLINE by {
        assert(server[i] == "Server: Linux Kernel"@[i] as u8);
    }
    let length = content_length_line(len);
    assert forall|i: int| 0 <= i < length.len() implies length[i] != NEWLINE by {
        let start = "Content-Length: ".spec_bytes();
        if i < start.len() {
            assert(start[i] == "Content-Length: "@[i] as u8);
        } else {
            assert(is_digit(decimal(len)[i - start.len()]));
        }
    }
    let kind = content_type_line();
    assert forall|i: int| 0 <= i < kind.len() implies kind[i] != NEWLINE by {
        assert(kind[i] == "Content-Type: text/plain"@[i] as u8);
    }
    let connection = connection_line();
    assert forall|i: int| 0 <= i < connection.len() implies connection[i] != NEWLINE by {
        assert(connection[i] == "Connection: Closed"@[i] as u8);
    }
}

/// The lines of a reply are the status line, the four headers in their
/// order, an empty line, and then the lines of the body.
pub proof fn lemma_response_lines(status_code: u32, body: Seq<u8>)
    ensures
        lines(response_bytes(status_code, body)) == seq![
            status_line(status_code),
            server_line(),
            content_length_line(body.len()),
            content_type_line(),
            connection_line(),
            Seq::<u8>::empty(),
        ] + lines(body),
{
    let len = body.len();
    lemma_header_lines(status_code, len);
    let r5 = seq![NEWLINE] + body;
    let r4 = connection_line().push(NEWLINE) + r5;
    let r3 = content_type_line().push(NEWLINE) + r4;
    let r2 = content_length_line(len).push(NEWLINE) + r3;
    let r1 = server_line().push(NEWLINE) + r2;
    let r0 = status_line(status_code).push(NEWLINE) + r1;
    assert(r0 =~= response_bytes(status_code, body));
    assert(r5 =~= Seq::<u8>::empty().push(NEWLINE) + body);
    lemma_split_first(Seq::<u8>::empty(), body, NEWLINE);
    lemma_split_first(connection_line(), r5, NEWLINE);
    lemma_split_first(content_type_line(), r4, NEWLINE);
    lemma_split_first(content_length_line(len), r3, NEWLINE);
    lemma_split_first(server_line(), r2, NEWLINE);
    lemma_split_first(status_line(status_code), r1, NEWLINE);
    assert(lines(response_bytes(status_code, body)) =~= seq![
        status_line(status_code),
        server_line(),
        content_length_line(body.len()),
        content_type_line(),
        connection_line(),
        Seq::<u8>::empty(),
    ] + lines(body));
}

/// The length that a reply announces is the number of bytes of its body,
/// whatever the body holds, the empty body too.
pub proof fn lemma_content_length_round_trip(status_code: u32, body: Seq<u8>)
    ensures
        announced_length(response_bytes(status_code, body)) == body.len(),
{
    lemma_response_lines(status_code, body);
    lemma_header_lines(status_code, body.len());
    lemma_decimal_round_trip(body.len());
    let line = content_length_line(body.len());
    assert(lines(response_bytes(status_code, body))[2] == line);
    assert(line.skip(16) =~= decimal(body.len()));
}

/// Appends the bytes of `src` to `out`.
fn append_bytes(out: &mut Vec<u8>, src: &[u8])
    ensures
        final(out)@ == old(out)@ + src@,
{
    let mut i: usize = 0;
    while i < src.len()
        invariant
            0 <= i <= src.len(),
            out@ == old(out)@ + src@.take(i as int),
        decreases src.len() - i,
    {
        out.push(src[i]);
        i += 1;
        assert(out@ =~= old(out)@ + src@.take(i as int));
    }
    assert(src@.take(i as int) =~= src@);
}

/// Builds the bytes of a reply with the given status code and body text.
///
/// The length announced in the `Content-Length` header is the number of
/// bytes of `text`, whatever characters it holds.
pub fn format_response(status_code: u32, text: &str) -> (out: Vec<u8>)
    ensures
        out@ == response_bytes(status_code, text.spec_bytes()),
{
    let body = text.as_bytes();
    let mut out: Vec<u8> = Vec::new();
    append_bytes(&mut out, "HTTP/1.1 ".as_bytes());
    push_decimal(&mut out, status_code as u64);
    out.push(NEWLINE);
    append_bytes(&mut out, "Server: Linux Kernel".as_bytes());
    out.push(NEWLINE);
    append_bytes(&mut out, "Content-Length: ".as_bytes());
    push_decimal(&mut out, body.len() as u64);
    out.push(NEWLINE);
    append_bytes(&mut out, "Content-Type: text/plain".as_bytes());
    out.push(NEWLINE);
    append_bytes(&mut out, "Connection: Closed".as_bytes());
    out.push(NEWLINE);
    out.push(NEWLINE);
    append_bytes(&mut out, body);
    assert(out@ =~= response_bytes(status_code, text.spec_bytes()));
    out
}

impl Response {
    /// The bytes of this reply on the wire.
    pub open spec fn wire(&self) -> Seq<u8> {
        response_bytes(self.status_code, self.body.spec_bytes())
    }

    /// Builds the bytes of this reply.
    pub fn to_bytes(&self) -> (out: Vec<u8>)
        ensures
            out@ == self.wire(),
    {
        format_response(self.status_code, self.body)
    }
}

} // verus!
