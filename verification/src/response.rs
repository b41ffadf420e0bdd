//! The response a handler fills in and the renderer that turns it into
//! wire bytes: `VERSION SP STATUS-LINE CRLF (Header: Value CRLF)* CRLF
//! [BODY]`.

use vstd::prelude::*;
use vstd::utf8::encode_utf8;
use crate::dict::{Dict, spec_dict_insert};
use crate::status::{HttpStatus, spec_status_text};

verus! {

/// The mathematical content of a `Response`.
pub struct ResponseView {
    pub version: Seq<char>,
    pub status: HttpStatus,
    pub headers: Seq<(Seq<char>, Seq<char>)>,
    pub body: Option<Seq<u8>>,
}

/// The state a response starts in before any handler runs; it doubles as
/// the "route not found" result.
pub open spec fn spec_default_response() -> ResponseView {
    ResponseView {
        version: "HTTP/1.1"@,
        status: HttpStatus::NotFound,
        headers: Seq::empty(),
        body: Some(Seq::empty()),
    }
}

/// The fresh response handed to a matched handler: the default state with
/// status 200.
pub open spec fn spec_ok_response() -> ResponseView {
    ResponseView { status: HttpStatus::Okay, ..spec_default_response() }
}

/// The response a connection sends back when parsing failed: the default
/// state with status 400.
pub open spec fn spec_bad_request_response() -> ResponseView {
    ResponseView { status: HttpStatus::BadRequest, ..spec_default_response() }
}

/// What `send` leaves behind: a text/plain content type and the body's
/// UTF-8 bytes.
pub open spec fn spec_send(r: ResponseView, body: Seq<char>) -> ResponseView {
    ResponseView {
        headers: spec_dict_insert(r.headers, "Content-Type"@, "text/plain"@),
        body: Some(encode_utf8(body)),
        ..r
    }
}

/// What `json` leaves behind: an application/json content type and the
/// body's UTF-8 bytes.
pub open spec fn spec_json(r: ResponseView, body: Seq<char>) -> ResponseView {
    ResponseView {
        headers: spec_dict_insert(r.headers, "Content-Type"@, "application/json"@),
        body: Some(encode_utf8(body)),
        ..r
    }
}

/// The header block's wire text: each pair as `Name: Value` followed by
/// CRLF, in the order stored.
pub open spec fn spec_render_headers(hs: Seq<(Seq<char>, Seq<char>)>) -> Seq<char>
    decreases hs.len(),
{
    if hs.len() == 0 {
        Seq::empty()
    } else {
        hs[0].0 + ": "@ + hs[0].1 + "\r\n"@ + spec_render_headers(hs.skip(1))
    }
}

/// The full wire form of a response: the head rendered as UTF-8 bytes,
/// then the body bytes verbatim.
pub open spec fn spec_render(r: ResponseView) -> Seq<u8> {
    encode_utf8(
        r.version + " "@ + spec_status_text(r.status) + "\r\n"@ + spec_render_headers(r.headers)
            + "\r\n"@,
    ) + (match r.body {
        Some(b) => b,
        None => Seq::empty(),
    })
}

/// The response a handler accumulates status, headers, and body in.
pub struct Response {
    version: String,
    status: HttpStatus,
    headers: Dict,
    response_body: Option<Vec<u8>>,
}

impl View for Response {
    type V = ResponseView;

    closed spec fn view(&self) -> ResponseView {
        ResponseView {
            version: self.version@,
            status: self.status,
            headers: self.headers@,
            body: match self.response_body {
                Some(b) => Some(b@),
                None => None,
            },
        }
    }
}

impl Response {
    /// A response in its default state: status 404, no headers, an empty
    /// body.
    pub fn empty() -> (r: Response)
        ensures
            r@ == spec_default_response(),
    {
        let r = Response {
            version: String::from_str("HTTP/1.1"),
            status: HttpStatus::NotFound,
            headers: Dict::new(),
            response_body: Some(Vec::new()),
        };
        proof {
            assert(r@.body == Some(Seq::<u8>::empty()));
        }
        r
    }

    /// A response assembled from already-chosen parts.
    pub fn new(&mut self, status_code: HttpStatus, headers: Dict, body: Vec<u8>) -> (r: Response)
        ensures
            *final(self) == *old(self),
            r@ == (ResponseView {
                version: "HTTP/1.1"@,
                status: status_code,
                headers: headers@,
                body: Some(body@),
            }),
    {
        Response {
            version: String::from_str("HTTP/1.1"),
            status: status_code,
            headers,
            response_body: Some(body),
        }
    }

    pub fn get_version(&self) -> (r: &str)
        ensures
            r@ == self@.version,
    {
        self.version.as_str()
    }

    pub fn get_status(&self) -> (r: &HttpStatus)
        ensures
            *r == self@.status,
    {
        &self.status
    }

    pub fn get_body(&self) -> (r: Option<&Vec<u8>>)
        ensures
            match self@.body {
                Some(b) => r matches Some(v) && v@ == b,
                None => r is None,
            },
    {
        self.response_body.as_ref()
    }

    pub fn set_status(&mut self, status: HttpStatus)
        ensures
            final(self)@ == (ResponseView { status: status, ..old(self)@ }),
    {
        self.status = status;
    }

    pub fn set_body(&mut self, body: Vec<u8>)
        ensures
            final(self)@ == (ResponseView { body: Some(body@), ..old(self)@ }),
    {
        self.response_body = Some(body);
    }

    /// Binds a header name to a value, replacing any value it had.
    pub fn set_header_field(&mut self, key: &str, value: &str)
        ensures
            final(self)@ == (ResponseView {
                headers: spec_dict_insert(old(self)@.headers, key@, value@),
                ..old(self)@
            }),
    {
        self.headers.insert(key, value);
    }

    /// The value bound to a header name, if any.
    pub fn get_header_field(&self, key: &str) -> (r: Option<&String>)
        ensures
            match crate::dict::spec_dict_get(self@.headers, key@) {
                Some(v) => r matches Some(s) && s@ == v,
                None => r is None,
            },
    {
        self.headers.get(key)
    }

    /// Stores `body` as plain text: sets the content type and replaces
    /// the body with the text's UTF-8 bytes.
    pub fn send(&mut self, body: &str)
        ensures
            final(self)@ == spec_send(old(self)@, body@),
    {
        self.headers.insert("Content-Type", "text/plain");
        self.response_body = Some(body.as_bytes_vec());
    }

    /// Stores `body` as JSON: sets the content type and replaces the body
    /// with the text's UTF-8 bytes.
    pub fn json(&mut self, body: &str)
        ensures
            final(self)@ == spec_json(old(self)@, body@),
    {
        self.headers.insert("Content-Type", "application/json");
        self.response_body = Some(body.as_bytes_vec());
    }

    /// Renders the canonical wire text of this response.
    pub fn render(&self) -> (r: Vec<u8>)
        ensures
            r@ == spec_render(self@),
    {
        let mut head = String::new();
        head.append(self.version.as_str());
        head.append(" ");
        head.append(self.status.as_str());
        head.append("\r\n");
        let entries = self.headers.entries();
        let n = entries.len();
        let ghost pre = head@;
        let ghost hs = self@.headers;
        let mut i: usize = 0;
        proof {
            assert(hs.skip(0) =~= hs);
        }
        while i < n
            invariant
                n == entries.len(),
                n == hs.len(),
                entries.deep_view() == hs,
                pre == self@.version + " "@ + spec_status_text(self@.status) + "\r\n"@,
                i <= n,
                head@ + spec_render_headers(hs.skip(i as int)) == pre + spec_render_headers(hs),
            decreases n - i,
        {
            let ghost rem = hs.skip(i as int);
            proof {
                assert(rem.len() > 0);
                assert(rem[0] == hs[i as int]);
                assert(rem.skip(1) =~= hs.skip(i + 1));
                assert(entries.deep_view()[i as int] == entries@[i as int].deep_view());
            }
            head.append(entries[i].0.as_str());
            head.append(": ");
            head.append(entries[i].1.as_str());
            head.append("\r\n");
            proof {
                assert(head@ + spec_render_headers(hs.skip(i + 1)) =~= pre + spec_render_headers(
                    hs,
                ));
            }
            i = i + 1;
        }
        proof {
            assert(hs.skip(n as int) =~= Seq::<(Seq<char>, Seq<char>)>::empty());
            assert(spec_render_headers(hs.skip(n as int)) =~= Seq::<char>::empty());
            assert(head@ =~= head@ + spec_render_headers(hs.skip(n as int)));
        }
        head.append("\r\n");
        proof {
            assert(head@ =~= self@.version + " "@ + spec_status_text(self@.status) + "\r\n"@
                + spec_render_headers(self@.headers) + "\r\n"@);
        }
        let mut out = head.as_str().as_bytes_vec();
        match self.response_body.as_ref() {
            Some(b) => {
                out.extend_from_slice(b.as_slice());
            },
            None => {
                proof {
                    assert(out@ + Seq::<u8>::empty() =~= out@);
                }
            },
        }
        out
    }
}

} // verus!
