//! The application: routes registered by method and path prefix, the
//! per-request context that handlers fill in, and the response sent back.

use vstd::prelude::*;

use crate::request::HttpRequest;
use crate::response::{spec_new_response, text_html, text_not_found, HttpResponse, ResponseModel};
use crate::router::Router;
use crate::text::{starts_with, str_equal};

verus! {

/// `GET`
pub open spec fn method_get() -> Seq<char> {
    seq!['G', 'E', 'T']
}

/// `POST`
pub open spec fn method_post() -> Seq<char> {
    seq!['P', 'O', 'S', 'T']
}

/// `ALL`: the method of a route that serves every request method.
pub open spec fn method_all() -> Seq<char> {
    seq!['A', 'L', 'L']
}

/// `application/json`
pub open spec fn application_json() -> Seq<char> {
    seq![
        'a', 'p', 'p', 'l', 'i', 'c', 'a', 't', 'i', 'o', 'n', '/', 'j', 's', 'o', 'n',
    ]
}

/// A registered route as plain values.
pub struct HandlerModel {
    pub path: Seq<char>,
    pub method: Seq<char>,
    pub func: usize,
}

/// A registered route: a path prefix, a method (or `ALL`) and the number by
/// which the caller finds the function that serves it.
#[derive(Debug, Clone, PartialEq, Eq)]
pub struct Handler {
    pub path: String,
    pub method: String,
    pub func: usize,
}

impl View for Handler {
    type V = HandlerModel;

    open spec fn view(&self) -> HandlerModel {
        HandlerModel { path: self.path@, method: self.method@, func: self.func }
    }
}

/// The views of a list of routes.
pub open spec fn handler_views(v: Seq<Handler>) -> Seq<HandlerModel> {
    v.map_values(|h: Handler| h@)
}

/// A route serves a request when its path is a prefix of the request path and
/// its method is the request method or `ALL`.
pub open spec fn serves(h: HandlerModel, method: Seq<char>, path: Seq<char>) -> bool {
    &&& h.path.is_prefix_of(path)
    &&& (method == h.method || h.method == method_all())
}

/// The functions of the routes that serve a request, in registration order.
pub open spec fn selected(layers: Seq<HandlerModel>, method: Seq<char>, path: Seq<char>) -> Seq<usize>
    decreases layers.len(),
{
    if layers.len() == 0 {
        seq![]
    } else {
        let rest = selected(layers.drop_last(), method, path);
        if serves(layers.last(), method, path) {
            rest.push(layers.last().func)
        } else {
            rest
        }
    }
}

/// A route with the given method, path and function.
pub open spec fn route(method: Seq<char>, path: Seq<char>, func: usize) -> HandlerModel {
    HandlerModel { path, method, func }
}

/// The routes of a router mounted under its prefix: each path is prefixed.
pub open spec fn mounted(prefix: Seq<char>, layers: Seq<HandlerModel>) -> Seq<HandlerModel> {
    layers.map_values(|h: HandlerModel| HandlerModel { path: prefix + h.path, method: h.method, func: h.func })
}

/// Routes selected from two lists are those selected from the first, then
/// those selected from the second.
pub proof fn lemma_selected_append(
    a: Seq<HandlerModel>,
    b: Seq<HandlerModel>,
    method: Seq<char>,
    path: Seq<char>,
)
    ensures
        selected(a + b, method, path) == selected(a, method, path) + selected(b, method, path),
    decreases b.len(),
{
    if b.len() == 0 {
        assert(a + b =~= a);
        assert(selected(a, method, path) + selected(b, method, path) =~= selected(a, method, path));
    } else {
        lemma_selected_append(a, b.drop_last(), method, path);
        assert((a + b).drop_last() =~= a + b.drop_last());
        assert((a + b).last() == b.last());
        if serves(b.last(), method, path) {
            assert(selected(a, method, path) + selected(b.drop_last(), method, path).push(
                b.last().func,
            ) =~= (selected(a, method, path) + selected(b.drop_last(), method, path)).push(
                b.last().func,
            ));
        }
    }
}

/// A `GET` route registered under `p` serves every `GET` request whose path
/// begins with `p`, after the earlier routes that serve it.
pub proof fn law_get_route_serves(before: Seq<HandlerModel>, p: Seq<char>, f: usize, path: Seq<char>)
    requires
        p.is_prefix_of(path),
    ensures
        selected(before.push(route(method_get(), p, f)), method_get(), path) == selected(
            before,
            method_get(),
            path,
        ).push(f),
{
    assert(before.push(route(method_get(), p, f)).drop_last() =~= before);
}

/// A `GET` route never serves a request of another method.
pub proof fn law_get_route_ignores_other_methods(
    before: Seq<HandlerModel>,
    p: Seq<char>,
    f: usize,
    method: Seq<char>,
    path: Seq<char>,
)
    requires
        method != method_get(),
    ensures
        selected(before.push(route(method_get(), p, f)), method, path) == selected(
            before,
            method,
            path,
        ),
{
    assert(before.push(route(method_get(), p, f)).drop_last() =~= before);
    assert(method_get() != method_all()) by {
        assert(method_get()[0] != method_all()[0]);
    }
}

/// A route registered with `hold` under `p` serves requests of every method
/// whose path begins with `p`.
pub proof fn law_hold_route_serves_every_method(
    before: Seq<HandlerModel>,
    p: Seq<char>,
    f: usize,
    method: Seq<char>,
    path: Seq<char>,
)
    requires
        p.is_prefix_of(path),
    ensures
        selected(before.push(route(method_all(), p, f)), method, path) == selected(
            before,
            method,
            path,
        ).push(f),
{
    assert(before.push(route(method_all(), p, f)).drop_last() =~= before);
}

/// No route serves a request whose path does not begin with the route's path.
pub proof fn law_route_needs_path_prefix(
    before: Seq<HandlerModel>,
    h: HandlerModel,
    method: Seq<char>,
    path: Seq<char>,
)
    requires
        !h.path.is_prefix_of(path),
    ensures
        selected(before.push(h), method, path) == selected(before, method, path),
{
    assert(before.push(h).drop_last() =~= before);
}

/// Routes mounted under `prefix` serve a request for `prefix + rest` exactly
/// as the router's own routes serve a request for `rest`.
pub proof fn law_mounted_routes_serve_under_prefix(
    layers: Seq<HandlerModel>,
    prefix: Seq<char>,
    method: Seq<char>,
    rest: Seq<char>,
)
    ensures
        selected(mounted(prefix, layers), method, prefix + rest) == selected(layers, method, rest),
    decreases layers.len(),
{
    if layers.len() > 0 {
        law_mounted_routes_serve_under_prefix(layers.drop_last(), prefix, method, rest);
        assert(mounted(prefix, layers).drop_last() =~= mounted(prefix, layers.drop_last()));
        let h = layers.last();
        let mh = mounted(prefix, layers).last();
        assert(mh.path == prefix + h.path);
        let full = prefix + rest;
        if h.path.is_prefix_of(rest) {
            assert(mh.path =~= full.subrange(0, mh.path.len() as int));
        }
        if mh.path.is_prefix_of(full) {
            assert(h.path =~= rest.subrange(0, h.path.len() as int)) by {
                assert forall|i: int| 0 <= i < h.path.len() implies h.path[i] == rest[i] by {
                    assert(mh.path[prefix.len() + i] == full[prefix.len() + i]);
                }
            }
        }
    }
}

/// Routes mounted under `prefix` serve no request whose path does not begin
/// with `prefix`.
pub proof fn law_mounted_routes_need_prefix(
    layers: Seq<HandlerModel>,
    prefix: Seq<char>,
    method: Seq<char>,
    path: Seq<char>,
)
    requires
        !prefix.is_prefix_of(path),
    ensures
        selected(mounted(prefix, layers), method, path) == Seq::<usize>::empty(),
    decreases layers.len(),
{
    if layers.len() > 0 {
        law_mounted_routes_need_prefix(layers.drop_last(), prefix, method, path);
        assert(mounted(prefix, layers).drop_last() =~= mounted(prefix, layers.drop_last()));
        let mh = mounted(prefix, layers).last();
        if mh.path.is_prefix_of(path) {
            assert(prefix =~= path.subrange(0, prefix.len() as int)) by {
                assert forall|i: int| 0 <= i < prefix.len() implies prefix[i] == path[i] by {
                    assert(mh.path[i] == path[i]);
                }
            }
        }
    }
}

/// After a router is mounted under `prefix`, a request for `prefix + rest` is
/// served by the routes that served it before, then by the router's routes
/// that serve `rest`.
pub proof fn law_mount_then_route(
    before: Seq<HandlerModel>,
    layers: Seq<HandlerModel>,
    prefix: Seq<char>,
    method: Seq<char>,
    rest: Seq<char>,
)
    ensures
        selected(before + mounted(prefix, layers), method, prefix + rest) == selected(
            before,
            method,
            prefix + rest,
        ) + selected(layers, method, rest),
{
    lemma_selected_append(before, mounted(prefix, layers), method, prefix + rest);
    law_mounted_routes_serve_under_prefix(layers, prefix, method, rest);
}

/// Mounting keeps the router's routes in their order: the `i`-th mounted
/// route is the router's `i`-th, with the prefix before its path.
pub proof fn law_mount_keeps_route_order(prefix: Seq<char>, layers: Seq<HandlerModel>, i: int)
    requires
        0 <= i < layers.len(),
    ensures
        mounted(prefix, layers).len() == layers.len(),
        mounted(prefix, layers)[i] == (HandlerModel {
            path: prefix + layers[i].path,
            method: layers[i].method,
            func: layers[i].func,
        }),
{
}

pub(crate) fn literal_get() -> (r: String)
    ensures
        r@ == method_get(),
{
    proof {
        reveal_strlit("GET");
    }
    let r = "GET".to_owned();
    assert(r@ =~= method_get());
    r
}

pub(crate) fn literal_post() -> (r: String)
    ensures
        r@ == method_post(),
{
    proof {
        reveal_strlit("POST");
    }
    let r = "POST".to_owned();
    assert(r@ =~= method_post());
    r
}

pub(crate) fn literal_all() -> (r: String)
    ensures
        r@ == method_all(),
{
    proof {
        reveal_strlit("ALL");
    }
    let r = "ALL".to_owned();
    assert(r@ =~= method_all());
    r
}

/// What a middleware chain calls at a position.
#[derive(Debug, Copy, Clone, PartialEq, Eq)]
pub enum ChainCall {
    /// The function with this number, given a continuation that runs the next position.
    Func(usize),
    /// The function with this number, the last of the chain, given the
    /// continuation that the chain was started with.
    Last(usize),
    /// The continuation that the chain was started with: the chain is empty.
    Outer,
}

/// A chain over `funcs` can run at `pos`: the chain is empty, or `pos` is one
/// of its positions.
pub open spec fn chain_position_ok(funcs: Seq<usize>, pos: nat) -> bool {
    funcs.len() == 0 || pos < funcs.len()
}

/// The call at position `pos` of a chain over `funcs`: the outer continuation
/// for an empty chain, the last function with the outer continuation, or the
/// function at `pos` with a continuation that runs position `pos + 1`.
pub open spec fn spec_chain_call(funcs: Seq<usize>, pos: nat) -> ChainCall {
    if funcs.len() == 0 {
        ChainCall::Outer
    } else if pos == funcs.len() - 1 {
        ChainCall::Last(funcs[pos as int])
    } else {
        ChainCall::Func(funcs[pos as int])
    }
}

/// The call at position `pos` of a chain over `funcs` (see `spec_chain_call`).
pub fn chain_call(funcs: &Vec<usize>, pos: usize) -> (r: ChainCall)
    requires
        chain_position_ok(funcs@, pos as nat),
    ensures
        r == spec_chain_call(funcs@, pos as nat),
{
    let n = funcs.len();
    if n == 0 {
        ChainCall::Outer
    } else if pos == n - 1 {
        ChainCall::Last(funcs[pos])
    } else {
        ChainCall::Func(funcs[pos])
    }
}

/// Running a non-empty chain from position 0, each function's continuation
/// running the next position, calls every function in order, the last one
/// with the outer continuation; an empty chain calls the outer continuation.
pub proof fn law_chain_order(funcs: Seq<usize>)
    ensures
        funcs.len() == 0 ==> spec_chain_call(funcs, 0) == ChainCall::Outer,
        funcs.len() > 0 ==> Seq::new(funcs.len(), |i: int| spec_chain_call(funcs, i as nat))
            == funcs.drop_last().map_values(|f: usize| ChainCall::Func(f)).push(
            ChainCall::Last(funcs.last()),
        ),
        forall|i: nat| i < funcs.len() ==> chain_position_ok(funcs, i),
{
    if funcs.len() > 0 {
        assert(Seq::new(funcs.len(), |i: int| spec_chain_call(funcs, i as nat))
            =~= funcs.drop_last().map_values(|f: usize| ChainCall::Func(f)).push(
            ChainCall::Last(funcs.last()),
        ));
    }
}

/// What a request's handlers produced: the body and its content type.
#[derive(Debug, Clone)]
pub struct Context<'a> {
    pub req: &'a HttpRequest,
    pub res: &'a HttpResponse,
    pub body: String,
    pub content_type: String,
}

impl<'a> Context<'a> {
    /// A context for `req` with an empty body and content type.
    pub fn new(req: &'a HttpRequest, res: &'a HttpResponse) -> (r: Context<'a>)
        ensures
            r.req == req,
            r.res == res,
            r.body@ == Seq::<char>::empty(),
            r.content_type@ == Seq::<char>::empty(),
    {
        Context { req, res, body: String::new(), content_type: String::new() }
    }

    /// Answers with `content` as HTML text.
    pub fn send_text(&mut self, content: &str)
        ensures
            final(self).body@ == content@,
            final(self).content_type@ == text_html(),
            final(self).req == old(self).req,
            final(self).res == old(self).res,
    {
        self.body = content.to_owned();
        proof {
            reveal_strlit("text/html");
        }
        self.content_type = "text/html".to_owned();
        assert(self.content_type@ =~= text_html());
    }

    /// Answers with `content`, a value already written as JSON text.
    pub fn send_json(&mut self, content: String)
        ensures
            final(self).body@ == content@,
            final(self).content_type@ == application_json(),
            final(self).req == old(self).req,
            final(self).res == old(self).res,
    {
        self.body = content;
        proof {
            reveal_strlit("application/json");
        }
        self.content_type = "application/json".to_owned();
        assert(self.content_type@ =~= application_json());
    }

    /// The response to send once the handlers have run (see `spec_final_response`).
    pub fn response(&self) -> (r: HttpResponse)
        ensures
            r@ == spec_final_response(self.body@, self.content_type@),
    {
        final_response(self.body.as_str(), self.content_type.as_str())
    }
}

/// `404 Not Found` when the handlers left the body empty, else `200 OK`
/// with their body and content type.
pub open spec fn spec_final_response(body: Seq<char>, content_type: Seq<char>) -> ResponseModel {
    if body.len() == 0 {
        spec_new_response(seq!['4', '0', '4'], None, seq![], Some(text_not_found()))
    } else {
        spec_new_response(seq!['2', '0', '0'], None, content_type, Some(body))
    }
}

/// The response is `404 Not Found` exactly when the handlers left the body
/// empty; otherwise it is `200 OK` and carries their body.
pub proof fn law_not_found_iff_empty_body(body: Seq<char>, content_type: Seq<char>)
    ensures
        (spec_final_response(body, content_type).status_code == seq!['4', '0', '4']) <==> body.len()
            == 0,
        body.len() != 0 ==> spec_final_response(body, content_type).status_text == crate::response::text_ok()
            && spec_final_response(body, content_type).body == Some(body),
        body.len() == 0 ==> spec_final_response(body, content_type).body == Some(text_not_found()),
{
    if body.len() != 0 {
        assert(seq!['2', '0', '0'][0] != seq!['4', '0', '4'][0]);
        assert(seq!['2', '0', '0'] =~= crate::response::code_200());
    }
}

/// The response for what the handlers produced (see `spec_final_response`).
pub fn final_response(body: &str, content_type: &str) -> (r: HttpResponse)
    ensures
        r@ == spec_final_response(body@, content_type@),
{
    proof {
        reveal_strlit("404");
        reveal_strlit("200");
        reveal_strlit("");
        reveal_strlit("Not Found");
        assert("404"@ =~= seq!['4', '0', '4']);
        assert("200"@ =~= seq!['2', '0', '0']);
        assert(""@ =~= Seq::<char>::empty());
        assert("Not Found"@ =~= text_not_found());
    }
    if body.unicode_len() == 0 {
        HttpResponse::new("404", None, "", Some("Not Found".to_owned()))
    } else {
        HttpResponse::new("200", None, content_type, Some(body.to_owned()))
    }
}

/// An application: its routes in registration order and the address it listens on.
#[derive(Clone)]
pub struct Aero {
    pub layers: Vec<Handler>,
    pub socket_addr: String,
}

impl Aero {
    /// An application with no routes, listening on `port`.
    pub fn new(port: &str) -> (r: Aero)
        ensures
            r.layers@.len() == 0,
            r.socket_addr@ == port@,
    {
        Aero { layers: Vec::new(), socket_addr: port.to_owned() }
    }

    fn add(&mut self, method: String, path: &str, func: usize)
        ensures
            handler_views(final(self).layers@) == handler_views(old(self).layers@).push(
                route(method@, path@, func),
            ),
            final(self).socket_addr == old(self).socket_addr,
    {
        let h = Handler { method, path: path.to_owned(), func };
        self.layers.push(h);
        proof {
            assert(handler_views(self.layers@) =~= handler_views(old(self).layers@).push(
                route(h.method@, path@, func),
            ));
        }
    }

    /// Registers `func` for `GET` requests under `path`.
    pub fn get(&mut self, path: &str, func: usize)
        ensures
            handler_views(final(self).layers@) == handler_views(old(self).layers@).push(
                route(method_get(), path@, func),
            ),
            final(self).socket_addr == old(self).socket_addr,
    {
        self.add(literal_get(), path, func);
    }

    /// Registers `func` for `POST` requests under `path`.
    pub fn post(&mut self, path: &str, func: usize)
        ensures
            handler_views(final(self).layers@) == handler_views(old(self).layers@).push(
                route(method_post(), path@, func),
            ),
            final(self).socket_addr == old(self).socket_addr,
    {
        self.add(literal_post(), path, func);
    }

    /// Registers `func` for requests of every method under `path`.
    pub fn hold(&mut self, path: &str, func: usize)
        ensures
            handler_views(final(self).layers@) == handler_views(old(self).layers@).push(
                route(method_all(), path@, func),
            ),
            final(self).socket_addr == old(self).socket_addr,
    {
        self.add(literal_all(), path, func);
    }

    /// Adds the routes of `router`, in order, with its prefix before each path.
    pub fn mount(&mut self, router: Router)
        ensures
            handler_views(final(self).layers@) == handler_views(old(self).layers@) + mounted(
                router.prefix@,
                handler_views(router.layers@),
            ),
            final(self).socket_addr == old(self).socket_addr,
    {
        let n = router.layers.len();
        let ghost start = handler_views(self.layers@);
        let ghost rl = handler_views(router.layers@);
        let mut i: usize = 0;
        proof {
            assert(mounted(router.prefix@, rl).take(0) =~= Seq::<HandlerModel>::empty());
            assert(handler_views(self.layers@) =~= start + mounted(router.prefix@, rl).take(0));
        }
        while i < n
            invariant
                i <= n,
                n == router.layers@.len(),
                rl == handler_views(router.layers@),
                handler_views(self.layers@) == start + mounted(router.prefix@, rl).take(i as int),
                self.socket_addr == old(self).socket_addr,
            decreases n - i,
        {
            let x = &router.layers[i];
            let mut path = router.prefix.clone();
            path.append(x.path.as_str());
            let h = Handler { method: x.method.clone(), path, func: x.func };
            let ghost before = self.layers@;
            self.layers.push(h);
            proof {
                assert(rl[i as int] == x@);
                assert(mounted(router.prefix@, rl).take(i + 1int) =~= mounted(router.prefix@, rl).take(
                    i as int,
                ).push(h@));
                assert(handler_views(self.layers@) =~= handler_views(before).push(h@));
            }
            i = i + 1;
        }
        proof {
            assert(mounted(router.prefix@, rl).take(n as int) =~= mounted(router.prefix@, rl));
        }
    }

    /// The functions of the routes that serve a request with this method and
    /// path, in registration order.
    pub fn handlers_for(&self, method: &str, path: &str) -> (r: Vec<usize>)
        ensures
            r@ == selected(handler_views(self.layers@), method@, path@),
    {
        let n = self.layers.len();
        let mut r: Vec<usize> = Vec::new();
        let mut i: usize = 0;
        proof {
            reveal_strlit("ALL");
            assert("ALL"@ =~= method_all());
            assert(handler_views(self.layers@).take(0) =~= Seq::<HandlerModel>::empty());
        }
        while i < n
            invariant
                i <= n,
                n == self.layers@.len(),
                "ALL"@ == method_all(),
                r@ == selected(handler_views(self.layers@).take(i as int), method@, path@),
            decreases n - i,
        {
            let h = &self.layers[i];
            let ghost t = handler_views(self.layers@).take(i + 1int);
            proof {
                assert(t.drop_last() =~= handler_views(self.layers@).take(i as int));
                assert(t.last() == h@);
            }
            if starts_with(path, h.path.as_str()) && (str_equal(method, h.method.as_str())
                || str_equal(h.method.as_str(), "ALL")) {
                r.push(h.func);
            }
            i = i + 1;
        }
        proof {
            assert(handler_views(self.layers@).take(n as int) =~= handler_views(self.layers@));
        }
        r
    }

    /// The functions of the routes that serve `req`, in registration order.
    pub fn route(&self, req: &HttpRequest) -> (r: Vec<usize>)
        ensures
            r@ == selected(handler_views(self.layers@), req.method@, req.path@),
    {
        self.handlers_for(req.method.as_str(), req.path.as_str())
    }
}

} // verus!
