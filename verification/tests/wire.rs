use http_responder::response::{format_response, Response, NEWLINE};
use http_responder::text::{find_byte, push_decimal};

fn wire(status: &str, length: &str, body: &str) -> Vec<u8> {
    format!(
        "HTTP/1.1 {}\nServer: Linux Kernel\nContent-Length: {}\nContent-Type: text/plain\nConnection: Closed\n\n{}",
        status, length, body
    )
    .into_bytes()
}

#[test]
fn reply_with_empty_body() {
    assert_eq!(format_response(404, ""), wire("404", "0", ""));
}

#[test]
fn replies_of_the_server() {
    assert_eq!(format_response(403, "not implemented"), wire("403", "15", "not implemented"));
    assert_eq!(format_response(200, "alive"), wire("200", "5", "alive"));
    assert_eq!(format_response(400, "Request to big"), wire("400", "14", "Request to big"));
    assert_eq!(format_response(400, "Request too small"), wire("400", "17", "Request too small"));
}

#[test]
fn content_length_counts_bytes_not_characters() {
    let body = "h\u{e9}llo \u{4e16}\u{754c} \u{1f600}";
    assert_eq!(body.chars().count(), 10);
    assert_eq!(body.len(), 18);
    assert_eq!(format_response(200, body), wire("200", "18", body));
}

#[test]
fn content_length_of_a_long_body() {
    let body = "x".repeat(1000);
    assert_eq!(format_response(200, &body), wire("200", "1000", &body));
}

#[test]
fn body_with_newlines_is_written_as_it_is() {
    let body = "a\n\nb\r\n";
    assert_eq!(format_response(200, body), wire("200", "6", body));
}

#[test]
fn status_code_is_written_in_decimal() {
    assert_eq!(format_response(0, "x"), wire("0", "1", "x"));
    assert_eq!(format_response(7, "x"), wire("7", "1", "x"));
    assert_eq!(format_response(u32::MAX, "x"), wire("4294967295", "1", "x"));
}

#[test]
fn announced_length_reads_back() {
    for body in ["", "alive", "twelve bytes", "\u{20ac}\u{20ac}"] {
        let out = format_response(200, body);
        let lines: Vec<&[u8]> = out.split(|b| *b == NEWLINE).collect();
        assert!(lines.len() >= 7);
        assert_eq!(lines[0], b"HTTP/1.1 200");
        assert_eq!(lines[1], b"Server: Linux Kernel");
        assert_eq!(lines[3], b"Content-Type: text/plain");
        assert_eq!(lines[4], b"Connection: Closed");
        assert_eq!(lines[5], b"");
        let line = std::str::from_utf8(lines[2]).unwrap();
        let number = line.strip_prefix("Content-Length: ").unwrap();
        assert_eq!(number.parse::<usize>().unwrap(), body.len());
        assert!(out.ends_with(body.as_bytes()));
    }
}

#[test]
fn response_to_bytes_is_format_response() {
    let r = Response { status_code: 403, body: "not implemented" };
    assert_eq!(r.to_bytes(), format_response(403, "not implemented"));
    assert_eq!(r.to_bytes(), wire("403", "15", "not implemented"));
}

#[test]
fn decimal_numerals() {
    let cases: [(u64, &str); 8] = [
        (0, "0"),
        (7, "7"),
        (9, "9"),
        (10, "10"),
        (99, "99"),
        (100, "100"),
        (1024, "1024"),
        (u64::MAX, "18446744073709551615"),
    ];
    for (n, text) in cases {
        let mut out = Vec::new();
        push_decimal(&mut out, n);
        assert_eq!(out, text.as_bytes().to_vec());
    }
}

#[test]
fn decimal_is_appended() {
    let mut out = b"n=".to_vec();
    push_decimal(&mut out, 305);
    push_decimal(&mut out, 0);
    assert_eq!(out, b"n=3050".to_vec());
}

#[test]
fn find_byte_gives_the_first_place() {
    let buf = b"ab cd  e";
    assert_eq!(find_byte(buf, 0, b' '), 2);
    assert_eq!(find_byte(buf, 2, b' '), 2);
    assert_eq!(find_byte(buf, 3, b' '), 5);
    assert_eq!(find_byte(buf, 6, b' '), 6);
    assert_eq!(find_byte(buf, 7, b' '), 8);
    assert_eq!(find_byte(buf, 8, b' '), 8);
    assert_eq!(find_byte(buf, 0, b'z'), 8);
    assert_eq!(find_byte(b"", 0, b' '), 0);
}
