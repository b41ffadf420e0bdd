//! The router: an ordered table of compiled routes per method. A request
//! is resolved by the first route, in registration order, whose method
//! and pattern accept it; its captures are bound onto a copy of the
//! request and its handler fills a fresh 200 response. With no match the
//! default 404 response comes back untouched and no handler runs.

use vstd::prelude::*;
use crate::dict::{lemma_dict_insert_get, spec_dict_get, spec_dict_insert};
use crate::handler::RouteHandler;
use crate::methods::HttpMethod;
use crate::request::{Request, RequestView};
use crate::response::{Response, ResponseView, spec_default_response, spec_ok_response};
use crate::route::{
    Route, SegView, Segment, lemma_bindings_keys, spec_bindings, spec_param_name, spec_path_match,
    spec_pattern_view,
};
use crate::status::HttpStatus;
use crate::text::{split_char, spec_split_char};

verus! {

/// An ordered table of routes, each entry pairing the method it serves
/// with its compiled route, plus the mount prefix new registrations get.
pub struct Router<H> {
    routes: Vec<(HttpMethod, Route<H>)>,
    num_routes: usize,
    path: String,
}

/// Binds every pair in turn, first to last, later pairs overriding
/// earlier ones of the same key.
pub open spec fn spec_dict_insert_all(
    d: Seq<(Seq<char>, Seq<char>)>,
    bs: Seq<(Seq<char>, Seq<char>)>,
) -> Seq<(Seq<char>, Seq<char>)>
    decreases bs.len(),
{
    if bs.len() == 0 {
        d
    } else {
        spec_dict_insert_all(spec_dict_insert(d, bs[0].0, bs[0].1), bs.skip(1))
    }
}

/// Binding pairs none of which carries `k` leaves `k`'s lookup alone.
pub proof fn lemma_insert_all_frame(
    d: Seq<(Seq<char>, Seq<char>)>,
    bs: Seq<(Seq<char>, Seq<char>)>,
    k: Seq<char>,
)
    requires
        forall|j: int| 0 <= j < bs.len() ==> (#[trigger] bs[j]).0 != k,
    ensures
        spec_dict_get(spec_dict_insert_all(d, bs), k) == spec_dict_get(d, k),
    decreases bs.len(),
{
    if bs.len() == 0 {
    } else {
        let d2 = spec_dict_insert(d, bs[0].0, bs[0].1);
        lemma_dict_insert_get(d, bs[0].0, bs[0].1);
        assert forall|j: int| 0 <= j < bs.skip(1).len() implies (#[trigger] bs.skip(1)[j]).0
            != k by {
            assert(bs.skip(1)[j] == bs[j + 1]);
        }
        lemma_insert_all_frame(d2, bs.skip(1), k);
    }
}

/// Of the bound pairs, the last one carrying a key decides what that
/// key reads back.
pub proof fn lemma_insert_all_last(
    d: Seq<(Seq<char>, Seq<char>)>,
    bs: Seq<(Seq<char>, Seq<char>)>,
    j: int,
)
    requires
        0 <= j < bs.len(),
        forall|l: int| j < l < bs.len() ==> (#[trigger] bs[l]).0 != bs[j].0,
    ensures
        spec_dict_get(spec_dict_insert_all(d, bs), bs[j].0) == Some(bs[j].1),
    decreases bs.len(),
{
    let d2 = spec_dict_insert(d, bs[0].0, bs[0].1);
    if j == 0 {
        lemma_dict_insert_get(d, bs[0].0, bs[0].1);
        assert forall|l: int| 0 <= l < bs.skip(1).len() implies (#[trigger] bs.skip(1)[l]).0
            != bs[0].0 by {
            assert(bs.skip(1)[l] == bs[l + 1]);
        }
        lemma_insert_all_frame(d2, bs.skip(1), bs[0].0);
    } else {
        assert(bs.skip(1)[j - 1] == bs[j]);
        assert forall|l: int| j - 1 < l < bs.skip(1).len() implies (#[trigger] bs.skip(1)[l]).0
            != bs.skip(1)[j - 1].0 by {
            assert(bs.skip(1)[l] == bs[l + 1]);
        }
        lemma_insert_all_last(d2, bs.skip(1), j - 1);
    }
}

/// With the i-th segment a placeholder whose name no later placeholder
/// reuses, binding a match's captures over any map leaves that name
/// reading the i-th path piece.
pub proof fn lemma_bound_param(
    d: Seq<(Seq<char>, Seq<char>)>,
    segs: Seq<SegView>,
    parts: Seq<Seq<char>>,
    i: int,
)
    requires
        parts.len() == segs.len(),
        0 <= i < segs.len(),
        segs[i] is Param,
        forall|l: int|
            i < l < segs.len() ==> !((#[trigger] segs[l]) is Param && spec_param_name(segs[l])
                == spec_param_name(segs[i])),
    ensures
        spec_dict_get(spec_dict_insert_all(d, spec_bindings(segs, parts)), spec_param_name(segs[i]))
            == Some(parts[i]),
    decreases segs.len(),
{
    let n = spec_param_name(segs[i]);
    let rest = spec_bindings(segs.skip(1), parts.skip(1));
    let bs = spec_bindings(segs, parts);
    if i == 0 {
        assert(bs =~= seq![(n, parts[0])] + rest);
        assert(bs[0] == (n, parts[0]));
        assert(bs.skip(1) =~= rest);
        assert forall|l: int|
            0 <= l < segs.skip(1).len() implies !((#[trigger] segs.skip(1)[l]) is Param
            && spec_param_name(segs.skip(1)[l]) == n) by {
            assert(segs.skip(1)[l] == segs[l + 1]);
        }
        lemma_bindings_keys(segs.skip(1), parts.skip(1), n);
        let d2 = spec_dict_insert(d, n, parts[0]);
        lemma_dict_insert_get(d, n, parts[0]);
        lemma_insert_all_frame(d2, rest, n);
    } else {
        assert(segs.skip(1)[i - 1] == segs[i]);
        assert(parts.skip(1)[i - 1] == parts[i]);
        assert forall|l: int|
            i - 1 < l < segs.skip(1).len() implies !((#[trigger] segs.skip(1)[l]) is Param
            && spec_param_name(segs.skip(1)[l]) == spec_param_name(segs.skip(1)[i - 1])) by {
            assert(segs.skip(1)[l] == segs[l + 1]);
        }
        match segs[0] {
            SegView::Param(m) => {
                assert(bs =~= seq![(m, parts[0])] + rest);
                assert(bs[0] == (m, parts[0]));
                assert(bs.skip(1) =~= rest);
                let d2 = spec_dict_insert(d, m, parts[0]);
                lemma_bound_param(d2, segs.skip(1), parts.skip(1), i - 1);
            },
            SegView::Lit(_) => {
                assert(bs =~= rest);
                lemma_bound_param(d, segs.skip(1), parts.skip(1), i - 1);
            },
        }
    }
}

/// Whether one route table entry accepts a request's method and path.
pub open spec fn spec_route_matches<H>(
    entry: (HttpMethod, Route<H>),
    m: HttpMethod,
    path: Seq<char>,
) -> bool {
    entry.0 == m && spec_path_match(entry.1.spec_pattern(), path)
}

/// The index of the first route accepting the method and path, if any.
pub open spec fn spec_find_route<H>(
    rs: Seq<(HttpMethod, Route<H>)>,
    m: HttpMethod,
    path: Seq<char>,
) -> Option<int>
    decreases rs.len(),
{
    if rs.len() == 0 {
        None
    } else if spec_route_matches(rs[0], m, path) {
        Some(0)
    } else {
        match spec_find_route(rs.skip(1), m, path) {
            Some(i) => Some(i + 1),
            None => None,
        }
    }
}

/// `spec_find_route` names the first accepting route: a hit within
/// bounds with no earlier hit, or a miss with no accepting route at all.
pub proof fn lemma_find_route<H>(rs: Seq<(HttpMethod, Route<H>)>, m: HttpMethod, path: Seq<char>)
    ensures
        match spec_find_route(rs, m, path) {
            Some(i) => 0 <= i < rs.len() && spec_route_matches(rs[i], m, path) && (forall|j: int|
                0 <= j < i ==> !spec_route_matches(#[trigger] rs[j], m, path)),
            None => forall|j: int| 0 <= j < rs.len() ==> !spec_route_matches(#[trigger] rs[j], m, path),
        },
    decreases rs.len(),
{
    if rs.len() == 0 {
    } else if spec_route_matches(rs[0], m, path) {
    } else {
        lemma_find_route(rs.skip(1), m, path);
        match spec_find_route(rs.skip(1), m, path) {
            Some(i) => {
                assert(spec_route_matches(rs[i + 1], m, path)) by {
                    assert(rs.skip(1)[i] == rs[i + 1]);
                }
                assert forall|j: int| 0 <= j < i + 1 implies !spec_route_matches(
                    #[trigger] rs[j],
                    m,
                    path,
                ) by {
                    if j > 0 {
                        assert(rs.skip(1)[j - 1] == rs[j]);
                    }
                }
            },
            None => {
                assert forall|j: int| 0 <= j < rs.len() implies !spec_route_matches(
                    #[trigger] rs[j],
                    m,
                    path,
                ) by {
                    if j > 0 {
                        assert(rs.skip(1)[j - 1] == rs[j]);
                    }
                }
            },
        }
    }
}

/// The request as the matched route's handler sees it: the captures of
/// the match bound over the request's existing parameters.
pub open spec fn spec_bound_request<H>(route: Route<H>, q: RequestView) -> RequestView {
    RequestView {
        params: spec_dict_insert_all(
            q.params,
            spec_bindings(route.spec_pattern(), spec_split_char(q.uri, '/').skip(1)),
        ),
        ..q
    }
}

/// The response resolving a request yields: the default 404 response
/// when no route accepts it, else what the first accepting route's
/// handler leaves of a fresh 200 response given the bound request.
pub open spec fn spec_resolve<H: RouteHandler>(r: Router<H>, q: RequestView) -> ResponseView {
    match spec_find_route(r.spec_routes(), q.method, q.uri) {
        None => spec_default_response(),
        Some(i) => {
            let route = r.spec_routes()[i].1;
            route.spec_action().on_call(spec_bound_request(route, q), spec_ok_response())
        },
    }
}

/// What registering a route leaves behind: one entry appended for the
/// prefixed template, everything else untouched.
pub open spec fn spec_registered<H>(
    pre: Router<H>,
    post: Router<H>,
    method: HttpMethod,
    path: Seq<char>,
    action: H,
) -> bool {
    let n = pre.spec_routes().len() as int;
    post.spec_path() == pre.spec_path() && post.spec_routes().len() == n + 1
        && post.spec_routes().take(n) == pre.spec_routes() && post.spec_routes()[n].0 == method
        && post.spec_routes()[n].1.wf() && post.spec_routes()[n].1.spec_uri() == pre.spec_path()
        + path && post.spec_routes()[n].1.spec_action() == action
}

impl<H> Router<H> {
    /// The route table, in registration order.
    pub closed spec fn spec_routes(&self) -> Seq<(HttpMethod, Route<H>)> {
        self.routes@
    }

    /// The mount prefix new registrations get.
    pub closed spec fn spec_path(&self) -> Seq<char> {
        self.path@
    }

    /// The stored route count.
    pub closed spec fn spec_num_routes(&self) -> int {
        self.num_routes as int
    }

    /// The count mirrors the table and every stored route is compiled
    /// from its own template.
    pub open spec fn wf(&self) -> bool {
        self.spec_num_routes() == self.spec_routes().len() && (forall|i: int|
            0 <= i < self.spec_routes().len() ==> (#[trigger] self.spec_routes()[i]).1.wf())
    }

    /// An empty router with an empty mount prefix.
    pub fn new() -> (r: Router<H>)
        ensures
            r.wf(),
            r.spec_routes() == Seq::<(HttpMethod, Route<H>)>::empty(),
            r.spec_path() == Seq::<char>::empty(),
    {
        let r = Router { routes: Vec::new(), num_routes: 0, path: String::new() };
        proof {
            assert(r.spec_routes() =~= Seq::<(HttpMethod, Route<H>)>::empty());
        }
        r
    }

    /// Compiles the prefixed template and appends the route to the
    /// table.
    fn register_route(&mut self, method: HttpMethod, path: &str, action: H)
        requires
            old(self).wf(),
        ensures
            final(self).wf(),
            spec_registered(*old(self), *final(self), method, path@, action),
    {
        let formatted = self.path.clone().concat(path);
        let route = Route::new(formatted.as_str(), action);
        self.routes.push((method, route));
        self.num_routes = self.routes.len();
        proof {
            let n = old(self).spec_routes().len() as int;
            assert(self.spec_routes().take(n) =~= old(self).spec_routes());
            assert forall|i: int| 0 <= i < self.spec_routes().len() implies (#[trigger] self.spec_routes()[i]).1.wf() by {
                if i < n {
                    assert(self.spec_routes()[i] == old(self).spec_routes()[i]);
                }
            }
        }
    }

    /// Sets the mount prefix prepended to every later registration.
    pub fn mount(&mut self, path: &str)
        ensures
            final(self).spec_path() == path@,
            final(self).spec_routes() == old(self).spec_routes(),
            final(self).spec_num_routes() == old(self).spec_num_routes(),
            old(self).wf() ==> final(self).wf(),
    {
        self.path = path.to_owned();
    }

    /// The mount prefix new registrations get.
    pub fn get_path(&self) -> (r: &str)
        ensures
            r@ == self.spec_path(),
    {
        self.path.as_str()
    }

    /// Sets the mount prefix prepended to every later registration.
    pub fn set_path(&mut self, path: &str)
        ensures
            final(self).spec_path() == path@,
            final(self).spec_routes() == old(self).spec_routes(),
            final(self).spec_num_routes() == old(self).spec_num_routes(),
            old(self).wf() ==> final(self).wf(),
    {
        self.path = path.to_owned();
    }

    /// Registers a route for an explicit method.
    pub fn store_route(&mut self, method: HttpMethod, path: &str, action: H)
        requires
            old(self).wf(),
        ensures
            final(self).wf(),
            spec_registered(*old(self), *final(self), method, path@, action),
    {
        self.register_route(method, path, action);
    }

    /// Registers a GET route.
    pub fn get(&mut self, path: &str, action: H)
        requires
            old(self).wf(),
        ensures
            final(self).wf(),
            spec_registered(*old(self), *final(self), HttpMethod::GET, path@, action),
    {
        self.register_route(HttpMethod::GET, path, action);
    }

    /// Registers a POST route.
    pub fn post(&mut self, path: &str, action: H)
        requires
            old(self).wf(),
        ensures
            final(self).wf(),
            spec_registered(*old(self), *final(self), HttpMethod::POST, path@, action),
    {
        self.register_route(HttpMethod::POST, path, action);
    }

    /// Registers a PUT route.
    pub fn put(&mut self, path: &str, action: H)
        requires
            old(self).wf(),
        ensures
            final(self).wf(),
            spec_registered(*old(self), *final(self), HttpMethod::PUT, path@, action),
    {
        self.register_route(HttpMethod::PUT, path, action);
    }

    /// Registers a DELETE route.
    pub fn delete(&mut self, path: &str, action: H)
        requires
            old(self).wf(),
        ensures
            final(self).wf(),
            spec_registered(*old(self), *final(self), HttpMethod::DELETE, path@, action),
    {
        self.register_route(HttpMethod::DELETE, path, action);
    }

    /// Registers an OPTIONS route.
    pub fn options(&mut self, path: &str, action: H)
        requires
            old(self).wf(),
        ensures
            final(self).wf(),
            spec_registered(*old(self), *final(self), HttpMethod::OPTIONS, path@, action),
    {
        self.register_route(HttpMethod::OPTIONS, path, action);
    }

    /// Registers a PATCH route.
    pub fn patch(&mut self, path: &str, action: H)
        requires
            old(self).wf(),
        ensures
            final(self).wf(),
            spec_registered(*old(self), *final(self), HttpMethod::PATCH, path@, action),
    {
        self.register_route(HttpMethod::PATCH, path, action);
    }

    /// The first route, in registration order, whose method and pattern
    /// accept the request.
    pub fn resolve_route(&self, req: &Request) -> (r: Option<&Route<H>>)
        ensures
            match spec_find_route(self.spec_routes(), req@.method, req@.uri) {
                Some(i) => r matches Some(rt) && *rt == self.spec_routes()[i].1,
                None => r is None,
            },
    {
        proof {
            lemma_find_route(self.spec_routes(), req@.method, req@.uri);
        }
        let n = self.routes.len();
        let mut i: usize = 0;
        while i < n
            invariant
                n == self.routes.len(),
                i <= n,
                forall|j: int|
                    0 <= j < i ==> !spec_route_matches(
                        #[trigger] self.spec_routes()[j],
                        req@.method,
                        req@.uri,
                    ),
            decreases n - i,
        {
            let entry = &self.routes[i];
            if entry.0 == *req.get_method() && entry.1.matches(req.get_uri()) {
                proof {
                    lemma_find_route(self.spec_routes(), req@.method, req@.uri);
                }
                return Some(&self.routes[i].1);
            }
            i = i + 1;
        }
        None
    }

}

impl<H: RouteHandler> Router<H> {
    /// Resolves a request: the default 404 response when no route
    /// accepts it, else the first accepting route's handler run on a
    /// copy of the request with the captures bound, against a fresh 200
    /// response.
    pub fn resolve(&self, req: &Request) -> (res: Response)
        ensures
            res@ == spec_resolve(*self, req@),
    {
        let found = self.resolve_route(req);
        match found {
            None => Response::empty(),
            Some(route) => {
                let ghost segs = route.spec_pattern();
                let ghost parts1 = spec_split_char(req@.uri, '/').skip(1);
                proof {
                    lemma_find_route(self.spec_routes(), req@.method, req@.uri);
                    assert(spec_path_match(segs, req@.uri));
                }
                let mut req2 = req.duplicate();
                let pattern = route.get_pattern();
                let parts = split_char(req.get_uri(), '/');
                let n = pattern.len();
                proof {
                    assert(parts.deep_view().len() == parts.len());
                    assert(segs.len() == pattern@.len());
                    assert(parts.deep_view().skip(1) =~= parts1);
                    assert(parts1.skip(0) =~= parts1);
                    assert(segs.skip(0) =~= segs);
                }
                let mut i: usize = 0;
                while i < n
                    invariant
                        n == pattern.len(),
                        segs == spec_pattern_view(pattern@),
                        parts.deep_view() == spec_split_char(req@.uri, '/'),
                        parts1 == parts.deep_view().skip(1),
                        parts.len() == n + 1,
                        i <= n,
                        req2@ == (RequestView { params: req2@.params, ..req@ }),
                        spec_dict_insert_all(req@.params, spec_bindings(segs, parts1))
                            == spec_dict_insert_all(
                            req2@.params,
                            spec_bindings(segs.skip(i as int), parts1.skip(i as int)),
                        ),
                    decreases n - i,
                {
                    let ghost rsegs = segs.skip(i as int);
                    let ghost rparts = parts1.skip(i as int);
                    proof {
                        assert(rsegs.len() > 0);
                        assert(rsegs[0] == segs[i as int]);
                        assert(rsegs.skip(1) =~= segs.skip(i + 1));
                        assert(rparts[0] == parts1[i as int]);
                        assert(rparts.skip(1) =~= parts1.skip(i + 1));
                        assert(segs[i as int] == pattern@[i as int]@);
                        assert(parts1[i as int] == parts.deep_view()[i + 1]);
                        assert(parts.deep_view()[i + 1] == parts@[i + 1]@);
                    }
                    match &pattern[i] {
                        Segment::Parameter(name) => {
                            req2.set_param(name.as_str(), parts[i + 1].as_str());
                            proof {
                                let b = (name@, rparts[0]);
                                let rest = spec_bindings(segs.skip(i + 1), parts1.skip(i + 1));
                                assert(spec_bindings(rsegs, rparts) =~= seq![b] + rest);
                                assert((seq![b] + rest)[0] == b);
                                assert((seq![b] + rest).skip(1) =~= rest);
                            }
                        },
                        Segment::Literal(_) => {
                            proof {
                                assert(spec_bindings(rsegs, rparts) =~= spec_bindings(
                                    segs.skip(i + 1),
                                    parts1.skip(i + 1),
                                ));
                            }
                        },
                    }
                    i = i + 1;
                }
                proof {
                    assert(segs.skip(n as int) =~= Seq::<SegView>::empty());
                    assert(spec_bindings(segs.skip(n as int), parts1.skip(n as int))
                        =~= Seq::<(Seq<char>, Seq<char>)>::empty());
                    assert(req2@ == spec_bound_request(*route, req@));
                }
                let mut res = Response::empty();
                res.set_status(HttpStatus::Okay);
                proof {
                    assert(res@ == spec_ok_response());
                }
                route.get_action().call(&req2, &mut res);
                res
            },
        }
    }
}

/// Law (route matching): when the matched pattern's i-th segment is a
/// placeholder whose name no later placeholder reuses, the request the
/// handler sees binds that name to the path piece the placeholder
/// matched.
pub proof fn lemma_match_binds_param<H>(route: Route<H>, q: RequestView, i: int)
    requires
        spec_path_match(route.spec_pattern(), q.uri),
        0 <= i < route.spec_pattern().len(),
        route.spec_pattern()[i] is Param,
        forall|l: int|
            i < l < route.spec_pattern().len() ==> !((#[trigger] route.spec_pattern()[l]) is Param
                && spec_param_name(route.spec_pattern()[l]) == spec_param_name(
                route.spec_pattern()[i],
            )),
    ensures
        spec_dict_get(
            spec_bound_request(route, q).params,
            spec_param_name(route.spec_pattern()[i]),
        ) == Some(spec_split_char(q.uri, '/')[i + 1]),
{
    let parts = spec_split_char(q.uri, '/');
    let parts1 = parts.skip(1);
    assert(parts1.len() == route.spec_pattern().len());
    lemma_bound_param(q.params, route.spec_pattern(), parts1, i);
    assert(parts1[i] == parts[i + 1]);
}

/// Law: a request that no registered route accepts resolves to the
/// untouched default response — status 404, no headers, an empty body —
/// and no handler's effect appears in it.
pub proof fn lemma_unmatched_not_found<H: RouteHandler>(r: Router<H>, q: RequestView)
    requires
        forall|j: int|
            0 <= j < r.spec_routes().len() ==> !spec_route_matches(
                #[trigger] r.spec_routes()[j],
                q.method,
                q.uri,
            ),
    ensures
        spec_resolve(r, q) == spec_default_response(),
        spec_resolve(r, q).status == HttpStatus::NotFound,
        spec_resolve(r, q).headers == Seq::<(Seq<char>, Seq<char>)>::empty(),
        spec_resolve(r, q).body == Some(Seq::<u8>::empty()),
{
    lemma_find_route(r.spec_routes(), q.method, q.uri);
    match spec_find_route(r.spec_routes(), q.method, q.uri) {
        Some(i) => {
            assert(spec_route_matches(r.spec_routes()[i], q.method, q.uri));
            assert(false);
        },
        None => {},
    }
}

/// Law: among the routes of one router, the first accepting one in
/// registration order is the one whose handler answers.
pub proof fn lemma_first_match_wins<H: RouteHandler>(r: Router<H>, q: RequestView, i: int)
    requires
        0 <= i < r.spec_routes().len(),
        spec_route_matches(r.spec_routes()[i], q.method, q.uri),
        forall|j: int|
            0 <= j < i ==> !spec_route_matches(#[trigger] r.spec_routes()[j], q.method, q.uri),
    ensures
        spec_resolve(r, q) == r.spec_routes()[i].1.spec_action().on_call(
            spec_bound_request(r.spec_routes()[i].1, q),
            spec_ok_response(),
        ),
{
    lemma_find_route(r.spec_routes(), q.method, q.uri);
    match spec_find_route(r.spec_routes(), q.method, q.uri) {
        Some(i0) => {
            assert(i0 <= i);
            assert(i <= i0) by {
                if i0 < i {
                    assert(spec_route_matches(r.spec_routes()[i0], q.method, q.uri));
                }
            }
        },
        None => {
            assert(false);
        },
    }
}

/// Law: resolution is a function of the router and the request alone;
/// any two resolutions of the same request against the same router
/// agree, field for field.
pub proof fn lemma_resolve_idempotent<H: RouteHandler>(
    r: Router<H>,
    q: RequestView,
    r1: ResponseView,
    r2: ResponseView,
)
    requires
        r1 == spec_resolve(r, q),
        r2 == spec_resolve(r, q),
    ensures
        r1.status == r2.status,
        r1.body == r2.body,
        r1 == r2,
{
}

} // verus!
