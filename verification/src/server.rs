//! The whole per-connection computation between one read and one write:
//! decode the buffer, parse it, resolve it against the routers consulted
//! in order, and render the answer. Transport reads and writes stay with
//! the caller; this module is bytes in, bytes out.

use vstd::prelude::*;
use vstd::utf8::{decode_utf8, valid_utf8};
use crate::handler::RouteHandler;
use crate::parsers::spec_parse;
use crate::request::{Request, RequestView};
use crate::response::{Response, ResponseView, spec_bad_request_response, spec_default_response,
    spec_render};
use crate::router::{Router, spec_resolve};
use crate::status::HttpStatus;

verus! {

/// Resolves a request against routers consulted in order: the first
/// response whose status is not the 404 default answers; with none, the
/// default 404 response itself.
pub open spec fn spec_resolve_any<H: RouteHandler>(
    routers: Seq<Router<H>>,
    q: RequestView,
) -> ResponseView
    decreases routers.len(),
{
    if routers.len() == 0 {
        spec_default_response()
    } else {
        let r0 = spec_resolve(routers[0], q);
        if r0.status != HttpStatus::NotFound {
            r0
        } else {
            spec_resolve_any(routers.skip(1), q)
        }
    }
}

/// What a raw buffer is answered with: the rendered 400 response when
/// the bytes are not UTF-8 text or do not parse, else the rendered
/// outcome of resolving the parsed request.
pub open spec fn spec_handle<H: RouteHandler>(routers: Seq<Router<H>>, raw: Seq<u8>) -> Seq<u8> {
    if !valid_utf8(raw) {
        spec_render(spec_bad_request_response())
    } else {
        match spec_parse(decode_utf8(raw)) {
            None => spec_render(spec_bad_request_response()),
            Some(rv) => spec_render(spec_resolve_any(routers, rv)),
        }
    }
}

/// Relies on str::from_utf8: it succeeds exactly on the valid UTF-8
/// byte sequences and returns the text those bytes encode.
#[verifier::external_body]
fn decode_text(v: &[u8]) -> (r: Option<String>)
    ensures
        r is Some <==> valid_utf8(v@),
        r matches Some(s) ==> s@ == decode_utf8(v@),
{
    match core::str::from_utf8(v) {
        Ok(s) => Some(s.to_string()),
        Err(_) => None,
    }
}

/// Resolves a request against routers consulted in order.
pub fn resolve_any<H: RouteHandler>(routers: &Vec<Router<H>>, req: &Request) -> (res: Response)
    ensures
        res@ == spec_resolve_any(routers@, req@),
{
    let n = routers.len();
    let mut i: usize = 0;
    proof {
        assert(routers@.skip(0) =~= routers@);
    }
    while i < n
        invariant
            n == routers.len(),
            i <= n,
            spec_resolve_any(routers@, req@) == spec_resolve_any(routers@.skip(i as int), req@),
        decreases n - i,
    {
        proof {
            assert(routers@.skip(i as int).len() > 0);
            assert(routers@.skip(i as int)[0] == routers@[i as int]);
            assert(routers@.skip(i as int).skip(1) =~= routers@.skip(i + 1));
        }
        let res = routers[i].resolve(req);
        let not_found = *res.get_status() == HttpStatus::NotFound;
        if !not_found {
            return res;
        }
        i = i + 1;
    }
    proof {
        assert(routers@.skip(n as int) =~= Seq::<Router<H>>::empty());
    }
    Response::empty()
}

/// The whole one-request computation: decodes the buffer, parses it,
/// resolves it, and renders the answer; a buffer that is not text or
/// does not parse is answered with the rendered 400 response.
pub fn handle_request<H: RouteHandler>(routers: &Vec<Router<H>>, raw: &[u8]) -> (out: Vec<u8>)
    ensures
        out@ == spec_handle(routers@, raw@),
{
    match decode_text(raw) {
        None => {
            let mut res = Response::empty();
            res.set_status(HttpStatus::BadRequest);
            proof {
                assert(res@ == spec_bad_request_response());
            }
            res.render()
        },
        Some(text) => {
            match Request::new(text.as_str()) {
                Ok(req) => {
                    let res = resolve_any(routers, &req);
                    res.render()
                },
                Err(_) => {
                    let mut res = Response::empty();
                    res.set_status(HttpStatus::BadRequest);
                    proof {
                        assert(res@ == spec_bad_request_response());
                    }
                    res.render()
                },
            }
        },
    }
}

/// Law: with several routers consulted in order, the first one whose
/// resolution is not the 404 default is the one whose answer comes
/// back; routers after it never override it.
pub proof fn lemma_first_router_wins<H: RouteHandler>(
    routers: Seq<Router<H>>,
    q: RequestView,
    i: int,
)
    requires
        0 <= i < routers.len(),
        forall|j: int|
            0 <= j < i ==> spec_resolve(#[trigger] routers[j], q).status == HttpStatus::NotFound,
        spec_resolve(routers[i], q).status != HttpStatus::NotFound,
    ensures
        spec_resolve_any(routers, q) == spec_resolve(routers[i], q),
    decreases i,
{
    if i == 0 {
    } else {
        assert(spec_resolve(routers[0], q).status == HttpStatus::NotFound);
        assert forall|j: int|
            0 <= j < i - 1 implies spec_resolve(
            #[trigger] routers.skip(1)[j],
            q,
        ).status == HttpStatus::NotFound by {
            assert(routers.skip(1)[j] == routers[j + 1]);
        }
        assert(routers.skip(1)[i - 1] == routers[i]);
        lemma_first_router_wins(routers.skip(1), q, i - 1);
    }
}

/// Law: a buffer that does not parse is answered with the rendered 400
/// response, whatever routes are registered.
pub proof fn lemma_malformed_yields_bad_request<H: RouteHandler>(
    routers: Seq<Router<H>>,
    raw: Seq<u8>,
)
    requires
        valid_utf8(raw) ==> spec_parse(decode_utf8(raw)) is None,
    ensures
        spec_handle(routers, raw) == spec_render(spec_bad_request_response()),
{
}

} // verus!
