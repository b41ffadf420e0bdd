//! The capability a route binds: logic invoked with the matched request
//! and a fresh response, together with a few ready-made handlers.

use vstd::prelude::*;
use crate::dict::spec_dict_get;
use crate::request::{Request, RequestView};
use crate::response::{Response, ResponseView, spec_json, spec_send};

verus! {

/// A route's handler. `on_call` is the handler's mathematical effect and
/// `call` must realize exactly that effect, so resolving a request is a
/// function of the router and the request alone.
pub trait RouteHandler: Sized {
    /// The response this handler leaves, given the matched request and
    /// the response it starts from. The default effect is to leave the
    /// response untouched; verified implementations override it.
    open spec fn on_call(&self, req: RequestView, res: ResponseView) -> ResponseView {
        res
    }

    /// Runs the handler on `req`, mutating `res` into its answer.
    fn call(&self, req: &Request, res: &mut Response)
        ensures
            final(res)@ == self.on_call(req@, old(res)@),
    ;
}

/// A handler that leaves the response exactly as it found it.
pub struct NoopHandler;

impl RouteHandler for NoopHandler {
    open spec fn on_call(&self, req: RequestView, res: ResponseView) -> ResponseView {
        res
    }

    fn call(&self, req: &Request, res: &mut Response) {
    }
}

/// A handler that answers with a fixed plain-text body.
pub struct SendHandler {
    pub body: String,
}

impl RouteHandler for SendHandler {
    open spec fn on_call(&self, req: RequestView, res: ResponseView) -> ResponseView {
        spec_send(res, self.body@)
    }

    fn call(&self, req: &Request, res: &mut Response) {
        res.send(self.body.as_str());
    }
}

/// A handler that answers with a fixed JSON body.
pub struct JsonHandler {
    pub body: String,
}

impl RouteHandler for JsonHandler {
    open spec fn on_call(&self, req: RequestView, res: ResponseView) -> ResponseView {
        spec_json(res, self.body@)
    }

    fn call(&self, req: &Request, res: &mut Response) {
        res.json(self.body.as_str());
    }
}

/// A handler that answers with the value bound to one route parameter,
/// or with an empty body when the parameter is unbound.
pub struct ParamHandler {
    pub name: String,
}

impl RouteHandler for ParamHandler {
    open spec fn on_call(&self, req: RequestView, res: ResponseView) -> ResponseView {
        match spec_dict_get(req.params, self.name@) {
            Some(v) => spec_send(res, v),
            None => spec_send(res, Seq::empty()),
        }
    }

    fn call(&self, req: &Request, res: &mut Response) {
        match req.get_param(self.name.as_str()) {
            Some(v) => {
                res.send(v.as_str());
            },
            None => {
                proof {
                    reveal_strlit("");
                    assert(""@ =~= Seq::<char>::empty());
                }
                res.send("");
            },
        }
    }
}

} // verus!
