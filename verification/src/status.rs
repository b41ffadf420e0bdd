//! The closed set of HTTP status codes the server produces, each with its
//! fixed status line.

use vstd::prelude::*;

verus! {

#[derive(Clone, Copy, Debug, PartialEq, Eq, Structural)]
pub enum HttpStatus {
    Okay,
    BadRequest,
    NotFound,
    InternalServerError,
}

/// The fixed "<code> <reason phrase>" wire text of a status.
pub open spec fn spec_status_text(s: HttpStatus) -> Seq<char> {
    match s {
        HttpStatus::Okay => "200 OK"@,
        HttpStatus::BadRequest => "400 Bad Request"@,
        HttpStatus::NotFound => "404 Not Found"@,
        HttpStatus::InternalServerError => "500 Internal Server Error"@,
    }
}

impl HttpStatus {
    /// The "<code> <reason phrase>" wire text of this status.
    pub fn as_str(&self) -> (r: &'static str)
        ensures
            r@ == spec_status_text(*self),
    {
        match self {
            HttpStatus::Okay => "200 OK",
            HttpStatus::BadRequest => "400 Bad Request",
            HttpStatus::NotFound => "404 Not Found",
            HttpStatus::InternalServerError => "500 Internal Server Error",
        }
    }
}

} // verus!
