//! The closed vocabulary of request methods and its case-sensitive,
//! exact-match parser.

use vstd::prelude::*;
use crate::strings::str_eq;

verus! {

/// A request method. Only these nine tokens are accepted; any other
/// token is a parse failure.
#[derive(Clone, Copy, Debug, PartialEq, Eq, Structural)]
pub enum Method {
    GET,
    DELETE,
    POST,
    PUT,
    HEAD,
    CONNECT,
    OPTIONS,
    TRACE,
    PATCH,
}

/// The method a token names, if any: an exact, case-sensitive match
/// against the closed vocabulary.
pub open spec fn spec_method(s: Seq<char>) -> Option<Method> {
    if s == "GET"@ {
        Some(Method::GET)
    } else if s == "DELETE"@ {
        Some(Method::DELETE)
    } else if s == "POST"@ {
        Some(Method::POST)
    } else if s == "PUT"@ {
        Some(Method::PUT)
    } else if s == "HEAD"@ {
        Some(Method::HEAD)
    } else if s == "CONNECT"@ {
        Some(Method::CONNECT)
    } else if s == "OPTIONS"@ {
        Some(Method::OPTIONS)
    } else if s == "TRACE"@ {
        Some(Method::TRACE)
    } else if s == "PATCH"@ {
        Some(Method::PATCH)
    } else {
        None
    }
}

impl Method {
    /// Parse a method token against the closed vocabulary.
    pub fn from_name(s: &str) -> (r: Option<Method>)
        ensures
            r == spec_method(s@),
    {
        if str_eq(s, "GET") {
            Some(Method::GET)
        } else if str_eq(s, "DELETE") {
            Some(Method::DELETE)
        } else if str_eq(s, "POST") {
            Some(Method::POST)
        } else if str_eq(s, "PUT") {
            Some(Method::PUT)
        } else if str_eq(s, "HEAD") {
            Some(Method::HEAD)
        } else if str_eq(s, "CONNECT") {
            Some(Method::CONNECT)
        } else if str_eq(s, "OPTIONS") {
            Some(Method::OPTIONS)
        } else if str_eq(s, "TRACE") {
            Some(Method::TRACE)
        } else if str_eq(s, "PATCH") {
            Some(Method::PATCH)
        } else {
            None
        }
    }
}

/// Every token of the vocabulary is non-empty and contains neither a
/// space nor a carriage return, so it survives request-line
/// tokenization intact.
pub proof fn lemma_method_token_clean(m: Seq<char>)
    requires
        spec_method(m) is Some,
    ensures
        m.len() > 0,
        forall|i: int| 0 <= i < m.len() ==> m[i] != ' ' && m[i] != '\r',
{
    reveal_strlit("GET");
    reveal_strlit("DELETE");
    reveal_strlit("POST");
    reveal_strlit("PUT");
    reveal_strlit("HEAD");
    reveal_strlit("CONNECT");
    reveal_strlit("OPTIONS");
    reveal_strlit("TRACE");
    reveal_strlit("PATCH");
    assert forall|i: int| 0 <= i < m.len() implies m[i] != ' ' && m[i] != '\r' by {
        if i == 0 {
        } else if i == 1 {
        } else if i == 2 {
        } else if i == 3 {
        } else if i == 4 {
        } else if i == 5 {
        } else {
            assert(i == 6);
        }
    }
}

} // verus!
