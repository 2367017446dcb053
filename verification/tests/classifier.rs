use http_responder::request::{parse_request, InvalidText, RequestType};

#[test]
fn path_is_the_second_token() {
    assert_eq!(parse_request(b"GET /echo"), Ok(Some(RequestType::Echo)));
    assert_eq!(parse_request(b"POST /status now"), Ok(Some(RequestType::Status)));
    assert_eq!(parse_request(b"/echo /status /echo"), Ok(Some(RequestType::Status)));
}

#[test]
fn other_tokens_do_not_matter() {
    let a = parse_request(b"GET /status HTTP/1.1");
    let b = parse_request(b"anything-at-all /status x y z /echo");
    assert_eq!(a, b);
    assert_eq!(a, Ok(Some(RequestType::Status)));
}

#[test]
fn same_bytes_same_category() {
    let input = b"GET /echo HTTP/1.1\r\nHost: example\r\n\r\n";
    assert_eq!(parse_request(input), parse_request(input));
    assert_eq!(parse_request(input), Ok(Some(RequestType::Echo)));
}

#[test]
fn fewer_than_two_tokens_is_absent() {
    assert_eq!(parse_request(b""), Ok(None));
    assert_eq!(parse_request(b"/echo"), Ok(None));
    assert_eq!(parse_request(b"GET\r\n/status"), Ok(None));
}

#[test]
fn empty_path_is_other() {
    assert_eq!(parse_request(b"GET "), Ok(Some(RequestType::Other)));
    assert_eq!(parse_request(b"GET  /echo"), Ok(Some(RequestType::Other)));
    assert_eq!(parse_request(b" "), Ok(Some(RequestType::Other)));
}

#[test]
fn empty_first_token_still_counts() {
    assert_eq!(parse_request(b" /status"), Ok(Some(RequestType::Status)));
    assert_eq!(parse_request(b" /echo rest"), Ok(Some(RequestType::Echo)));
}

#[test]
fn path_must_match_exactly() {
    assert_eq!(parse_request(b"GET /ECHO x"), Ok(Some(RequestType::Other)));
    assert_eq!(parse_request(b"GET /echo/ x"), Ok(Some(RequestType::Other)));
    assert_eq!(parse_request(b"GET /echo?a=1 x"), Ok(Some(RequestType::Other)));
    assert_eq!(parse_request(b"GET /statu x"), Ok(Some(RequestType::Other)));
    assert_eq!(parse_request(b"GET /status\r\n"), Ok(Some(RequestType::Other)));
    assert_eq!(parse_request(b"GET echo x"), Ok(Some(RequestType::Other)));
}

#[test]
fn only_the_space_separates() {
    assert_eq!(parse_request(b"GET\t/echo\tx"), Ok(None));
    assert_eq!(parse_request(b"GET\n/echo x"), Ok(Some(RequestType::Other)));
}

#[test]
fn text_beyond_ascii_is_accepted() {
    assert_eq!(parse_request("gr\u{fc}\u{df} /echo".as_bytes()), Ok(Some(RequestType::Echo)));
    assert_eq!(parse_request("GET /\u{e9}cho x".as_bytes()), Ok(Some(RequestType::Other)));
    assert_eq!(parse_request("\u{1f600} /status \u{4e16}".as_bytes()), Ok(Some(RequestType::Status)));
    assert_eq!(parse_request("\u{1f600}".as_bytes()), Ok(None));
}

#[test]
fn bytes_that_are_no_text_are_refused() {
    assert_eq!(parse_request(&[0x47, 0x20, 0xff]), Err(InvalidText));
    assert_eq!(parse_request(&[0xc0, 0x80]), Err(InvalidText));
    assert_eq!(parse_request(&[0xed, 0xa0, 0x80]), Err(InvalidText));
    assert_eq!(parse_request(&[0xe2, 0x82]), Err(InvalidText));
    assert_eq!(parse_request(&[0xf4, 0x90, 0x80, 0x80]), Err(InvalidText));
    assert_eq!(parse_request(&[0x80]), Err(InvalidText));
}

#[test]
fn invalid_bytes_after_the_path_still_refuse() {
    let mut input = b"GET /echo ".to_vec();
    input.push(0xfe);
    assert_eq!(parse_request(&input), Err(InvalidText));
}

#[test]
fn zero_bytes_are_text() {
    assert_eq!(parse_request(b"\0 /echo \0"), Ok(Some(RequestType::Echo)));
    assert_eq!(parse_request(b"hi\r\n\0"), Ok(None));
}
