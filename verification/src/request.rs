//! The structured request a connection hands to the router: version,
//! method, target, headers, body, and the route parameters bound during
//! resolution.

use vstd::prelude::*;
use crate::dict::{Dict, spec_dict_get, spec_dict_insert};
use crate::methods::HttpMethod;

verus! {

/// The mathematical content of a `Request`.
pub struct RequestView {
    pub version: Seq<char>,
    pub uri: Seq<char>,
    pub method: HttpMethod,
    pub headers: Seq<(Seq<char>, Seq<char>)>,
    pub body: Option<Seq<u8>>,
    pub params: Seq<(Seq<char>, Seq<char>)>,
}

/// A parsed HTTP request.
#[derive(Debug)]
pub struct Request {
    version: String,
    uri: String,
    method: HttpMethod,
    body_data: Option<Vec<u8>>,
    headers: Dict,
    params: Dict,
}

impl View for Request {
    type V = RequestView;

    closed spec fn view(&self) -> RequestView {
        RequestView {
            version: self.version@,
            uri: self.uri@,
            method: self.method,
            headers: self.headers@,
            body: match self.body_data {
                Some(b) => Some(b@),
                None => None,
            },
            params: self.params@,
        }
    }
}

/// The view every freshly constructed request starts from: HTTP/1.1, an
/// empty target, method GET, and nothing else.
pub open spec fn spec_empty_request() -> RequestView {
    RequestView {
        version: "HTTP/1.1"@,
        uri: Seq::empty(),
        method: HttpMethod::GET,
        headers: Seq::empty(),
        body: None,
        params: Seq::empty(),
    }
}

impl Request {
    /// Parses the raw request text into a fresh request.
    pub fn new(request: &str) -> (r: Result<Request, crate::parsers::InvalidRequest>)
        ensures
            match crate::parsers::spec_parse(request@) {
                Some(rv) => r matches Ok(req) && req@ == rv,
                None => r matches Err(e) && e.reason@ == crate::parsers::spec_parse_error(
                    request@,
                ),
            },
    {
        let mut req = Request::empty();
        match crate::parsers::parse_request(request.to_owned(), &mut req) {
            Ok(()) => Ok(req),
            Err(e) => Err(e),
        }
    }

    /// A fresh request holding only defaults.
    pub fn empty() -> (r: Request)
        ensures
            r@ == spec_empty_request(),
    {
        let r = Request {
            version: String::from_str("HTTP/1.1"),
            uri: String::new(),
            method: HttpMethod::GET,
            body_data: None,
            headers: Dict::new(),
            params: Dict::new(),
        };
        proof {
            assert(r@.uri =~= Seq::<char>::empty());
        }
        r
    }

    /// A request assembled from already-parsed parts.
    pub fn create(uri: &str, method: HttpMethod, data: Vec<u8>, headers: Dict) -> (r: Request)
        ensures
            r@ == (RequestView {
                version: "HTTP/1.1"@,
                uri: uri@,
                method: method,
                headers: headers@,
                body: Some(data@),
                params: Seq::empty(),
            }),
    {
        Request {
            version: String::from_str("HTTP/1.1"),
            uri: uri.to_owned(),
            method,
            body_data: Some(data),
            headers,
            params: Dict::new(),
        }
    }

    pub fn set_version(&mut self, version: &str)
        ensures
            final(self)@ == (RequestView { version: version@, ..old(self)@ }),
    {
        self.version = version.to_owned();
    }

    pub fn get_uri(&self) -> (r: &str)
        ensures
            r@ == self@.uri,
    {
        self.uri.as_str()
    }

    pub fn get_method(&self) -> (r: &HttpMethod)
        ensures
            *r == self@.method,
    {
        &self.method
    }

    /// The value stored for a header name; the empty name is never bound.
    pub fn get_header_field(&self, key: &str) -> (r: Option<&String>)
        ensures
            key@.len() == 0 ==> r is None,
            key@.len() > 0 ==> match spec_dict_get(self@.headers, key@) {
                Some(v) => r matches Some(s) && s@ == v,
                None => r is None,
            },
    {
        if key.is_empty() {
            return None;
        }
        self.headers.get(key)
    }

    pub fn get_body(&self) -> (r: Option<&Vec<u8>>)
        ensures
            match self@.body {
                Some(b) => r matches Some(v) && v@ == b,
                None => r is None,
            },
    {
        self.body_data.as_ref()
    }

    pub fn set_body(&mut self, data: Vec<u8>)
        ensures
            final(self)@ == (RequestView { body: Some(data@), ..old(self)@ }),
    {
        self.body_data = Some(data);
    }

    pub fn set_headers(&mut self, headers: Dict)
        ensures
            final(self)@ == (RequestView { headers: headers@, ..old(self)@ }),
    {
        self.headers = headers;
    }

    pub fn set_method(&mut self, method: HttpMethod)
        ensures
            final(self)@ == (RequestView { method: method, ..old(self)@ }),
    {
        self.method = method;
    }

    pub fn set_uri(&mut self, uri: &str)
        ensures
            final(self)@ == (RequestView { uri: uri@, ..old(self)@ }),
    {
        self.uri = uri.to_owned();
    }

    pub fn set_header_field(&mut self, key: &str, value: &str)
        ensures
            final(self)@ == (RequestView {
                headers: spec_dict_insert(old(self)@.headers, key@, value@),
                ..old(self)@
            }),
    {
        self.headers.insert(key, value);
    }

    /// The value bound to a route parameter during resolution, if any.
    pub fn get_param(&self, name: &str) -> (r: Option<&String>)
        ensures
            match spec_dict_get(self@.params, name@) {
                Some(v) => r matches Some(s) && s@ == v,
                None => r is None,
            },
    {
        self.params.get(name)
    }

    /// An identical copy of this request.
    pub fn duplicate(&self) -> (r: Request)
        ensures
            r@ == self@,
    {
        let body = match &self.body_data {
            Some(b) => {
                let copy = b.clone();
                proof {
                    assert(copy@ =~= b@);
                }
                Some(copy)
            },
            None => None,
        };
        Request {
            version: self.version.clone(),
            uri: self.uri.clone(),
            method: self.method,
            body_data: body,
            headers: self.headers.duplicate(),
            params: self.params.duplicate(),
        }
    }

    /// Binds a route parameter to a captured path segment.
    pub fn set_param(&mut self, name: &str, value: &str)
        ensures
            final(self)@ == (RequestView {
                params: spec_dict_insert(old(self)@.params, name@, value@),
                ..old(self)@
            }),
    {
        self.params.insert(name, value);
    }
}

} // verus!
