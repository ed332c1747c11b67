use http_parser::method::Method;
use http_parser::request::{get_next_word, ParseError, Request};

#[test]
fn get_next_word_test() {
    let test_str = "GET /search?name=abc&sort=1 HTTP/1.1 ";

    let (mut word, mut remaining) = get_next_word(test_str).unwrap();
    assert_eq!(word, "GET");
    assert_eq!(remaining, "/search?name=abc&sort=1 HTTP/1.1 ");

    (word, remaining) = get_next_word(remaining).unwrap();
    assert_eq!(word, "/search?name=abc&sort=1");
    assert_eq!(remaining, "HTTP/1.1 ");

    (word, remaining) = get_next_word(remaining).unwrap();
    assert_eq!(word, "HTTP/1.1");
    assert_eq!(remaining, "");

    assert_eq!(get_next_word(remaining), None);
}

#[test]
fn parse_valid_request_with_query() {
    let req = Request::try_from(b"GET /search?name=abc&sort=1 HTTP/1.1\r\nHost: x".as_slice())
        .unwrap();
    assert_eq!(req.method(), Method::GET);
    assert_eq!(req.path(), "/search");
    assert_eq!(req.query_string().as_deref(), Some("name=abc&sort=1"));
}

#[test]
fn parse_valid_request_without_query() {
    let req = Request::try_from(b"POST /submit HTTP/1.1\r\n".as_slice()).unwrap();
    assert_eq!(req.method(), Method::POST);
    assert_eq!(req.path(), "/submit");
    assert_eq!(*req.query_string(), None);
}

#[test]
fn parse_recovers_every_method() {
    let cases = vec![
        ("GET", Method::GET),
        ("DELETE", Method::DELETE),
        ("POST", Method::POST),
        ("PUT", Method::PUT),
        ("HEAD", Method::HEAD),
        ("CONNECT", Method::CONNECT),
        ("OPTIONS", Method::OPTIONS),
        ("TRACE", Method::TRACE),
        ("PATCH", Method::PATCH),
    ];
    for (name, method) in cases {
        let line = format!("{} /some/path HTTP/1.1\r\n", name);
        let req = Request::try_from(line.as_bytes()).unwrap();
        assert_eq!(req.method(), method);
        assert_eq!(req.path(), "/some/path");
        assert_eq!(*req.query_string(), None);
    }
}

#[test]
fn unknown_method_is_invalid_method() {
    let r = Request::try_from(b"FOO / HTTP/1.1\r\n".as_slice());
    assert_eq!(r.unwrap_err(), ParseError::InvalidMethod);
}

#[test]
fn lowercase_method_is_invalid_method() {
    let r = Request::try_from(b"get / HTTP/1.1\r\n".as_slice());
    assert_eq!(r.unwrap_err(), ParseError::InvalidMethod);
}

#[test]
fn wrong_protocol_is_invalid_protocol() {
    let r = Request::try_from(b"GET / HTTP/1.0\r\n".as_slice());
    assert_eq!(r.unwrap_err(), ParseError::InvalidProtocol);
}

#[test]
fn protocol_checked_before_method() {
    let r = Request::try_from(b"FOO / HTTP/1.0\r\n".as_slice());
    assert_eq!(r.unwrap_err(), ParseError::InvalidProtocol);
}

#[test]
fn one_token_is_invalid_request() {
    let r = Request::try_from(b"GET\r\n".as_slice());
    assert_eq!(r.unwrap_err(), ParseError::InvalidRequest);
}

#[test]
fn no_token_is_invalid_request() {
    let r = Request::try_from(b"GET".as_slice());
    assert_eq!(r.unwrap_err(), ParseError::InvalidRequest);
    let r = Request::try_from(b"".as_slice());
    assert_eq!(r.unwrap_err(), ParseError::InvalidRequest);
}

#[test]
fn two_tokens_are_invalid_request() {
    let r = Request::try_from(b"GET /\r\n".as_slice());
    assert_eq!(r.unwrap_err(), ParseError::InvalidRequest);
}

#[test]
fn non_utf8_is_invalid_encoding() {
    let buf: Vec<u8> = vec![0xff, 0xfe, 0x20, 0x20];
    let r = Request::try_from(buf.as_slice());
    assert_eq!(r.unwrap_err(), ParseError::InvalidEncoding);
}

#[test]
fn multibyte_path_is_decoded() {
    let line = "GET /caf\u{e9} HTTP/1.1\r\n";
    let req = Request::try_from(line.as_bytes()).unwrap();
    assert_eq!(req.path(), "/caf\u{e9}");
}

#[test]
fn path_keeps_everything_before_question_mark() {
    let req = Request::try_from(b"GET /a/long/path?q=1 HTTP/1.1\r\n".as_slice()).unwrap();
    assert_eq!(req.path(), "/a/long/path");
    assert_eq!(req.query_string().as_deref(), Some("q=1"));
}

#[test]
fn query_splits_at_first_question_mark_only() {
    let req = Request::try_from(b"GET /p?a=1?b=2 HTTP/1.1\r\n".as_slice()).unwrap();
    assert_eq!(req.path(), "/p");
    assert_eq!(req.query_string().as_deref(), Some("a=1?b=2"));
}

#[test]
fn reparse_request_is_equal() {
    let buf = b"GET /search?name=abc&sort=1 HTTP/1.1\r\nHost: x".as_slice();
    let r1 = Request::try_from(buf);
    let r2 = Request::try_from(buf);
    assert_eq!(r1, r2);

    let bad = b"FOO / HTTP/1.1\r\n".as_slice();
    let e1 = Request::try_from(bad);
    let e2 = Request::try_from(bad);
    assert_eq!(e1, e2);
}

#[test]
fn error_messages() {
    assert_eq!(ParseError::InvalidRequest.message(), "InvalidRequest");
    assert_eq!(ParseError::InvalidEncoding.message(), "InvalidEncoding");
    assert_eq!(ParseError::InvalidProtocol.message(), "InvalidProtocol");
    assert_eq!(ParseError::InvalidMethod.message(), "InvalidMethod");
}

#[test]
fn method_from_name() {
    assert_eq!(Method::from_name("GET"), Some(Method::GET));
    assert_eq!(Method::from_name("PATCH"), Some(Method::PATCH));
    assert_eq!(Method::from_name("GETX"), None);
    assert_eq!(Method::from_name("GE"), None);
    assert_eq!(Method::from_name(""), None);
}
