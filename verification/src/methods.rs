//! The closed set of HTTP verbs the server understands, together with
//! their wire tokens.

use vstd::prelude::*;

verus! {

#[derive(Clone, Copy, Debug, PartialEq, Eq, Structural)]
pub enum HttpMethod {
    GET,
    POST,
    PUT,
    DELETE,
    OPTIONS,
    PATCH,
}

/// The uppercase wire token of a method, as it appears in a request line.
pub open spec fn spec_method_token(m: HttpMethod) -> Seq<char> {
    match m {
        HttpMethod::GET => "GET"@,
        HttpMethod::POST => "POST"@,
        HttpMethod::PUT => "PUT"@,
        HttpMethod::DELETE => "DELETE"@,
        HttpMethod::OPTIONS => "OPTIONS"@,
        HttpMethod::PATCH => "PATCH"@,
    }
}

/// The method a wire token denotes, or `None` for a token outside the
/// closed set.
pub open spec fn spec_method_of(s: Seq<char>) -> Option<HttpMethod> {
    if s == "GET"@ {
        Some(HttpMethod::GET)
    } else if s == "POST"@ {
        Some(HttpMethod::POST)
    } else if s == "PUT"@ {
        Some(HttpMethod::PUT)
    } else if s == "DELETE"@ {
        Some(HttpMethod::DELETE)
    } else if s == "OPTIONS"@ {
        Some(HttpMethod::OPTIONS)
    } else if s == "PATCH"@ {
        Some(HttpMethod::PATCH)
    } else {
        None
    }
}

/// Reading back the token of a method always yields that method.
pub proof fn lemma_method_token_of(m: HttpMethod)
    ensures
        spec_method_of(spec_method_token(m)) == Some(m),
{
    reveal_strlit("GET");
    reveal_strlit("POST");
    reveal_strlit("PUT");
    reveal_strlit("DELETE");
    reveal_strlit("OPTIONS");
    reveal_strlit("PATCH");
    assert("GET"@.len() == 3);
    assert("POST"@.len() == 4);
    assert("PUT"@.len() == 3);
    assert("DELETE"@.len() == 6);
    assert("OPTIONS"@.len() == 7);
    assert("PATCH"@.len() == 5);
    assert("GET"@[0] == 'G' && "PUT"@[0] == 'P' && "PATCH"@[1] == 'A' && "POST"@[1] == 'O');
    assert("DELETE"@[0] == 'D');
}

/// The wire tokens hold neither spaces nor line breaks.
pub proof fn lemma_method_token_clean(m: HttpMethod)
    ensures
        spec_method_token(m).len() > 0,
        forall|j: int|
            0 <= j < spec_method_token(m).len() ==> spec_method_token(m)[j] != ' '
                && spec_method_token(m)[j] != '\r' && spec_method_token(m)[j] != '\n',
{
    reveal_strlit("GET");
    reveal_strlit("POST");
    reveal_strlit("PUT");
    reveal_strlit("DELETE");
    reveal_strlit("OPTIONS");
    reveal_strlit("PATCH");
}

impl HttpMethod {
    /// Parses a wire token from the closed method set; tokens outside the
    /// set are rejected with `None`.
    pub fn parse(method: &str) -> (r: Option<HttpMethod>)
        ensures
            r == spec_method_of(method@),
    {
        if crate::text::str_eq(method, "GET") {
            Some(HttpMethod::GET)
        } else if crate::text::str_eq(method, "POST") {
            Some(HttpMethod::POST)
        } else if crate::text::str_eq(method, "PUT") {
            Some(HttpMethod::PUT)
        } else if crate::text::str_eq(method, "DELETE") {
            Some(HttpMethod::DELETE)
        } else if crate::text::str_eq(method, "OPTIONS") {
            Some(HttpMethod::OPTIONS)
        } else if crate::text::str_eq(method, "PATCH") {
            Some(HttpMethod::PATCH)
        } else {
            None
        }
    }

    /// Looks a wire token up in the closed method set; the caller must
    /// already know the token is valid.
    pub fn from_str(method: &str) -> (r: HttpMethod)
        requires
            spec_method_of(method@) is Some,
        ensures
            Some(r) == spec_method_of(method@),
    {
        match HttpMethod::parse(method) {
            Some(m) => m,
            None => HttpMethod::GET,
        }
    }

    /// The uppercase wire token of this method.
    pub fn as_str(&self) -> (r: &'static str)
        ensures
            r@ == spec_method_token(*self),
    {
        match self {
            HttpMethod::GET => "GET",
            HttpMethod::POST => "POST",
            HttpMethod::PUT => "PUT",
            HttpMethod::DELETE => "DELETE",
            HttpMethod::OPTIONS => "OPTIONS",
            HttpMethod::PATCH => "PATCH",
        }
    }
}

} // verus!
