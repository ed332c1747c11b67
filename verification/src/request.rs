//! Request-line parsing: a raw byte buffer is decoded to text, split
//! into method, path and protocol tokens, and validated against the
//! protocol literal and the method vocabulary.

use vstd::prelude::*;
use vstd::string::StrSliceExecFns;
use vstd::string::StringExecFns;
use vstd::utf8::decode_utf8;
use vstd::utf8::valid_utf8;
use crate::method::Method;
use crate::method::spec_method;
use crate::strings::first_index_of_either;
use crate::strings::lemma_first_index_of_either_is;
use crate::strings::str_eq;

verus! {

/// Why a request buffer was rejected.
#[derive(Clone, Copy, Debug, PartialEq, Eq, Structural)]
pub enum ParseError {
    InvalidRequest,
    InvalidEncoding,
    InvalidProtocol,
    InvalidMethod,
}

impl ParseError {
    /// The failure's name, for the surrounding layers to report.
    pub fn message(&self) -> (r: &str)
        ensures
            *self == ParseError::InvalidRequest ==> r@ == "InvalidRequest"@,
            *self == ParseError::InvalidEncoding ==> r@ == "InvalidEncoding"@,
            *self == ParseError::InvalidProtocol ==> r@ == "InvalidProtocol"@,
            *self == ParseError::InvalidMethod ==> r@ == "InvalidMethod"@,
    {
        match self {
            ParseError::InvalidRequest => "InvalidRequest",
            ParseError::InvalidEncoding => "InvalidEncoding",
            ParseError::InvalidProtocol => "InvalidProtocol",
            ParseError::InvalidMethod => "InvalidMethod",
        }
    }
}

/// A parsed request line: the path, the query string that followed a
/// `?` in the path token if there was one, and the method.
#[derive(Debug, PartialEq)]
pub struct Request {
    path: String,
    query_string: Option<String>,
    method: Method,
}

/// The mathematical content of a `Request`.
pub struct RequestView {
    pub path: Seq<char>,
    pub query_string: Option<Seq<char>>,
    pub method: Method,
}

/// The character content of an optional owned string.
pub open spec fn opt_str_view(o: &Option<String>) -> Option<Seq<char>> {
    match o {
        Some(q) => Some(q@),
        None => None,
    }
}

impl View for Request {
    type V = RequestView;

    closed spec fn view(&self) -> RequestView {
        RequestView {
            path: self.path@,
            query_string: opt_str_view(&self.query_string),
            method: self.method,
        }
    }
}

/// Split at the first space or carriage return: the token before the
/// delimiter and the remainder just past it, or nothing if no
/// delimiter occurs.
pub open spec fn word_split(s: Seq<char>) -> Option<(Seq<char>, Seq<char>)> {
    let n = first_index_of_either(s, ' ', '\r') as int;
    if n < s.len() {
        Some((s.subrange(0, n), s.subrange(n + 1, s.len() as int)))
    } else {
        None
    }
}

/// The path portion of a path token: everything before the first `?`,
/// or the whole token if it has none.
pub open spec fn spec_path_of(p: Seq<char>) -> Seq<char> {
    let q = first_index_of_either(p, '?', '?') as int;
    if q < p.len() {
        p.subrange(0, q)
    } else {
        p
    }
}

/// The query-string portion of a path token: everything after the
/// first `?`, present only if the token has one.
pub open spec fn spec_query_of(p: Seq<char>) -> Option<Seq<char>> {
    let q = first_index_of_either(p, '?', '?') as int;
    if q < p.len() {
        Some(p.subrange(q + 1, p.len() as int))
    } else {
        None
    }
}

/// The meaning of a decoded request line: three tokens are split off,
/// the protocol token must equal the supported literal, the method
/// token must belong to the vocabulary, and the path token is split
/// at its first `?`.
pub open spec fn spec_parse_request(s: Seq<char>) -> Result<RequestView, ParseError> {
    match word_split(s) {
        None => Err(ParseError::InvalidRequest),
        Some((method_tok, rest1)) => match word_split(rest1) {
            None => Err(ParseError::InvalidRequest),
            Some((path_tok, rest2)) => match word_split(rest2) {
                None => Err(ParseError::InvalidRequest),
                Some((protocol, _)) => if protocol != "HTTP/1.1"@ {
                    Err(ParseError::InvalidProtocol)
                } else {
                    match spec_method(method_tok) {
                        None => Err(ParseError::InvalidMethod),
                        Some(m) => Ok(
                            RequestView {
                                path: spec_path_of(path_tok),
                                query_string: spec_query_of(path_tok),
                                method: m,
                            },
                        ),
                    }
                },
            },
        },
    }
}

/// What parsing a raw buffer yields: the encoding failure off bytes
/// that are not valid UTF-8, else the decoded line's meaning.
pub open spec fn spec_parse_bytes(buf: Seq<u8>) -> Result<RequestView, ParseError> {
    if !valid_utf8(buf) {
        Err(ParseError::InvalidEncoding)
    } else {
        spec_parse_request(decode_utf8(buf))
    }
}

/// The mathematical content of a parse result.
pub open spec fn result_view(r: &Result<Request, ParseError>) -> Result<RequestView, ParseError> {
    match r {
        Ok(req) => Ok(req@),
        Err(e) => Err(*e),
    }
}

/// Relies on str::from_utf8: it succeeds exactly on valid UTF-8, and
/// the resulting slice holds the characters the bytes decode to.
#[verifier::external_body]
fn decode_text(buf: &[u8]) -> (r: Option<&str>)
    ensures
        r is Some <==> valid_utf8(buf@),
        r matches Some(s) ==> s@ == decode_utf8(buf@),
{
    core::str::from_utf8(buf).ok()
}

/// The token before the first space or carriage return, and the
/// remainder just past that delimiter; nothing if no delimiter occurs.
pub fn get_next_word<'a>(request: &'a str) -> (r: Option<(&'a str, &'a str)>)
    ensures
        r is Some <==> word_split(request@) is Some,
        r matches Some(p) ==> word_split(request@) == Some((p.0@, p.1@)),
{
    let len = request.unicode_len();
    let mut i: usize = 0;
    while i < len
        invariant
            0 <= i <= len,
            len == request@.len(),
            forall|j: int| 0 <= j < i ==> request@[j] != ' ' && request@[j] != '\r',
        decreases len - i,
    {
        let c = request.get_char(i);
        if c == ' ' || c == '\r' {
            proof {
                lemma_first_index_of_either_is(request@, ' ', '\r', i as int);
            }
            let word = request.substring_char(0, i);
            let remaining = request.substring_char(i + 1, len);
            return Some((word, remaining));
        }
        i = i + 1;
    }
    proof {
        lemma_first_index_of_either_is(request@, ' ', '\r', len as int);
    }
    None
}

/// Split a path token at its first `?`: the owned path before it and,
/// if a `?` occurred, the owned query string after it.
pub fn split_query(p: &str) -> (r: (String, Option<String>))
    ensures
        r.0@ == spec_path_of(p@),
        opt_str_view(&r.1) == spec_query_of(p@),
{
    let len = p.unicode_len();
    let mut i: usize = 0;
    while i < len
        invariant
            0 <= i <= len,
            len == p@.len(),
            forall|j: int| 0 <= j < i ==> p@[j] != '?',
        decreases len - i,
    {
        let c = p.get_char(i);
        if c == '?' {
            proof {
                lemma_first_index_of_either_is(p@, '?', '?', i as int);
            }
            let path = String::from_str(p.substring_char(0, i));
            let query = String::from_str(p.substring_char(i + 1, len));
            return (path, Some(query));
        }
        i = i + 1;
    }
    proof {
        lemma_first_index_of_either_is(p@, '?', '?', len as int);
    }
    (String::from_str(p), None)
}

impl Request {
    /// The parsed method.
    pub fn method(&self) -> (r: Method)
        ensures
            r == self@.method,
    {
        self.method
    }

    /// The parsed path: everything of the path token before its first `?`.
    pub fn path(&self) -> (r: &str)
        ensures
            r@ == self@.path,
    {
        self.path.as_str()
    }

    /// The query string, present only if the path token held a `?`.
    pub fn query_string(&self) -> (r: &Option<String>)
        ensures
            opt_str_view(r) == self@.query_string,
    {
        &self.query_string
    }

    /// Parse a raw buffer into a request, classifying any failure.
    pub fn try_from(buf: &[u8]) -> (r: Result<Request, ParseError>)
        ensures
            result_view(&r) == spec_parse_bytes(buf@),
    {
        let text = match decode_text(buf) {
            Some(t) => t,
            None => {
                return Err(ParseError::InvalidEncoding);
            },
        };
        let (method_tok, rest1) = match get_next_word(text) {
            Some(p) => p,
            None => {
                return Err(ParseError::InvalidRequest);
            },
        };
        let (path_tok, rest2) = match get_next_word(rest1) {
            Some(p) => p,
            None => {
                return Err(ParseError::InvalidRequest);
            },
        };
        let (protocol, _rest3) = match get_next_word(rest2) {
            Some(p) => p,
            None => {
                return Err(ParseError::InvalidRequest);
            },
        };
        if !str_eq(protocol, "HTTP/1.1") {
            return Err(ParseError::InvalidProtocol);
        }
        let method = match Method::from_name(method_tok) {
            Some(m) => m,
            None => {
                return Err(ParseError::InvalidMethod);
            },
        };
        let (path, query_string) = split_query(path_tok);
        Ok(Request { path, query_string, method })
    }
}

/// A well-formed request line parses successfully and recovers its
/// method and path exactly: for a method token of the vocabulary and
/// a path token free of delimiters and of `?`, the line made of the
/// two tokens, the protocol literal and a trailing carriage return
/// yields that method and that path, with no query string.
pub proof fn lemma_valid_request_line_parses(m: Seq<char>, p: Seq<char>, tail: Seq<char>)
    requires
        spec_method(m) is Some,
        forall|i: int| 0 <= i < p.len() ==> p[i] != ' ' && p[i] != '\r' && p[i] != '?',
    ensures
        ({
            let s = m + seq![' '] + p + seq![' '] + "HTTP/1.1"@ + seq!['\r'] + tail;
            &&& spec_parse_request(s) is Ok
            &&& spec_parse_request(s)->Ok_0.path == p
            &&& spec_parse_request(s)->Ok_0.query_string is None
            &&& Some(spec_parse_request(s)->Ok_0.method) == spec_method(m)
        }),
{
    reveal_strlit("HTTP/1.1");
    let proto = "HTTP/1.1"@;
    assert(proto.len() == 8);
    let s = m + seq![' '] + p + seq![' '] + proto + seq!['\r'] + tail;
    let n1 = m.len() as int;
    crate::method::lemma_method_token_clean(m);
    assert forall|i: int| 0 <= i < n1 implies s[i] != ' ' && s[i] != '\r' by {
        assert(s[i] == m[i]);
    }
    assert(s[n1] == ' ');
    lemma_first_index_of_either_is(s, ' ', '\r', n1);
    let rest1 = s.subrange(n1 + 1, s.len() as int);
    assert(s.subrange(0, n1) =~= m);
    assert(rest1 =~= p + seq![' '] + proto + seq!['\r'] + tail);
    let n2 = p.len() as int;
    assert forall|i: int| 0 <= i < n2 implies rest1[i] != ' ' && rest1[i] != '\r' by {
        assert(rest1[i] == p[i]);
    }
    assert(rest1[n2] == ' ');
    lemma_first_index_of_either_is(rest1, ' ', '\r', n2);
    let rest2 = rest1.subrange(n2 + 1, rest1.len() as int);
    assert(rest1.subrange(0, n2) =~= p);
    assert(rest2 =~= proto + seq!['\r'] + tail);
    assert forall|i: int| 0 <= i < 8 implies rest2[i] != ' ' && rest2[i] != '\r' by {
        assert(rest2[i] == proto[i]);
        if i == 0 {
        } else if i == 1 {
        } else if i == 2 {
        } else if i == 3 {
        } else if i == 4 {
        } else if i == 5 {
        } else if i == 6 {
        } else {
            assert(i == 7);
        }
    }
    assert(rest2[8] == '\r');
    lemma_first_index_of_either_is(rest2, ' ', '\r', 8);
    assert(rest2.subrange(0, 8) =~= proto);
    lemma_first_index_of_either_is(p, '?', '?', p.len() as int);
}

/// Parsing is a pure function of the buffer: two parses of the same
/// bytes yield the same result.
pub proof fn lemma_parse_deterministic(
    buf: Seq<u8>,
    r1: Result<RequestView, ParseError>,
    r2: Result<RequestView, ParseError>,
)
    requires
        r1 == spec_parse_bytes(buf),
        r2 == spec_parse_bytes(buf),
    ensures
        r1 == r2,
{
}

} // verus!
