//! The chained application: handlers and middlewares, and the chain a request starts.

use vstd::prelude::*;

use crate::aio::context::{Context, Handler, Midwarer};
use crate::aio::response::Response;
use crate::aio::router::Router;
use crate::application::{literal_get, literal_post, method_get, method_post};

verus! {

/// The handlers as (method, path, number) triples.
pub open spec fn handler_entries(v: Seq<Handler>) -> Seq<(Seq<char>, Seq<char>, usize)> {
    v.map_values(|h: Handler| (h.method@, h.path@, h.func))
}

/// The middlewares as (path, number) pairs.
pub open spec fn middleware_entries(v: Seq<Midwarer>) -> Seq<(Seq<char>, usize)> {
    v.map_values(|m: Midwarer| (m.path@, m.func))
}

/// `/`
pub open spec fn root_path() -> Seq<char> {
    seq!['/']
}

pub(crate) fn root_path_string() -> (r: String)
    ensures
        r@ == root_path(),
{
    proof {
        reveal_strlit("/");
    }
    let r = "/".to_owned();
    assert(r@ =~= root_path());
    r
}

/// Handlers mounted under `prefix`: each path is prefixed.
pub open spec fn prefixed_handlers(
    prefix: Seq<char>,
    v: Seq<(Seq<char>, Seq<char>, usize)>,
) -> Seq<(Seq<char>, Seq<char>, usize)> {
    v.map_values(|e: (Seq<char>, Seq<char>, usize)| (e.0, prefix + e.1, e.2))
}

/// Middlewares mounted under `prefix`: each path is prefixed.
pub open spec fn prefixed_middlewares(prefix: Seq<char>, v: Seq<(Seq<char>, usize)>) -> Seq<
    (Seq<char>, usize),
> {
    v.map_values(|e: (Seq<char>, usize)| (prefix + e.0, e.1))
}

/// Mounting keeps the router's middlewares in their order: after the
/// application's own, the `i`-th mounted middleware is the router's `i`-th,
/// with the prefix before its path and the same number.
pub proof fn law_mount_keeps_middleware_order(
    own: Seq<(Seq<char>, usize)>,
    prefix: Seq<char>,
    v: Seq<(Seq<char>, usize)>,
    i: int,
)
    requires
        0 <= i < v.len(),
    ensures
        (own + prefixed_middlewares(prefix, v)).len() == own.len() + v.len(),
        (own + prefixed_middlewares(prefix, v))[own.len() + i] == (prefix + v[i].0, v[i].1),
{
}

/// Mounting keeps the router's handlers in their order: after the
/// application's own, the `i`-th mounted handler is the router's `i`-th, with
/// the same method, the prefix before its path and the same number.
pub proof fn law_mount_keeps_handler_order(
    own: Seq<(Seq<char>, Seq<char>, usize)>,
    prefix: Seq<char>,
    v: Seq<(Seq<char>, Seq<char>, usize)>,
    i: int,
)
    requires
        0 <= i < v.len(),
    ensures
        (own + prefixed_handlers(prefix, v)).len() == own.len() + v.len(),
        (own + prefixed_handlers(prefix, v))[own.len() + i] == (v[i].0, prefix + v[i].1, v[i].2),
{
}

/// A chain started after mounting runs the application's own middlewares,
/// then the router's, each in its order.
pub proof fn law_mounted_middlewares_run_in_order(
    own: Seq<(Seq<char>, usize)>,
    prefix: Seq<char>,
    v: Seq<(Seq<char>, usize)>,
)
    ensures
        (own + prefixed_middlewares(prefix, v)).map_values(|e: (Seq<char>, usize)| e.1) == own.map_values(
            |e: (Seq<char>, usize)| e.1,
        ) + v.map_values(|e: (Seq<char>, usize)| e.1),
{
    assert((own + prefixed_middlewares(prefix, v)).map_values(|e: (Seq<char>, usize)| e.1)
        =~= own.map_values(|e: (Seq<char>, usize)| e.1) + v.map_values(
        |e: (Seq<char>, usize)| e.1,
    ));
}

/// The request data that a chain starts from.
pub open spec fn start_body() -> Seq<char> {
    seq!['1', '1', '1', '2', '2', '2']
}

pub open spec fn start_path() -> Seq<char> {
    seq!['/', 'a', 'p', 'i', '/', 'v', '1', '/', 'b', 'o', 'o', 'k', 's']
}

/// A chained application: its handlers, its middlewares and the address it listens on.
pub struct Aero {
    pub socket_addr: String,
    pub handlers: Vec<Handler>,
    pub middlewares: Vec<Midwarer>,
}

impl Aero {
    /// An application with neither handlers nor middlewares, listening on `port`.
    pub fn new(port: &str) -> (r: Aero)
        ensures
            r.socket_addr@ == port@,
            r.handlers@.len() == 0,
            r.middlewares@.len() == 0,
    {
        Aero { handlers: Vec::new(), middlewares: Vec::new(), socket_addr: port.to_owned() }
    }

    /// Adds the middleware `mid` at the root path `/`.
    pub fn with(&mut self, mid: usize)
        ensures
            middleware_entries(final(self).middlewares@) == middleware_entries(
                old(self).middlewares@,
            ).push((root_path(), mid)),
            final(self).handlers == old(self).handlers,
            final(self).socket_addr == old(self).socket_addr,
    {
        let m = Midwarer { path: root_path_string(), func: mid };
        self.middlewares.push(m);
        proof {
            assert(middleware_entries(self.middlewares@) =~= middleware_entries(
                old(self).middlewares@,
            ).push((root_path(), mid)));
        }
    }

    /// Registers the handler `handler` for `GET` requests under `path`.
    pub fn get(&mut self, path: &str, handler: usize)
        ensures
            handler_entries(final(self).handlers@) == handler_entries(old(self).handlers@).push(
                (method_get(), path@, handler),
            ),
            final(self).middlewares == old(self).middlewares,
            final(self).socket_addr == old(self).socket_addr,
    {
        let h = Handler { method: literal_get(), path: path.to_owned(), func: handler };
        self.handlers.push(h);
        proof {
            assert(handler_entries(self.handlers@) =~= handler_entries(old(self).handlers@).push(
                (method_get(), path@, handler),
            ));
        }
    }

    /// Registers the handler `handler` for `POST` requests under `path`.
    pub fn post(&mut self, path: &str, handler: usize)
        ensures
            handler_entries(final(self).handlers@) == handler_entries(old(self).handlers@).push(
                (method_post(), path@, handler),
            ),
            final(self).middlewares == old(self).middlewares,
            final(self).socket_addr == old(self).socket_addr,
    {
        let h = Handler { method: literal_post(), path: path.to_owned(), func: handler };
        self.handlers.push(h);
        proof {
            assert(handler_entries(self.handlers@) =~= handler_entries(old(self).handlers@).push(
                (method_post(), path@, handler),
            ));
        }
    }

    /// Adds the handlers and then the middlewares of `router`, in order, with its
    /// prefix before each path.
    pub fn mount(&mut self, router: Router)
        ensures
            handler_entries(final(self).handlers@) == handler_entries(old(self).handlers@)
                + prefixed_handlers(router.prefix@, handler_entries(router.handlers@)),
            middleware_entries(final(self).middlewares@) == middleware_entries(
                old(self).middlewares@,
            ) + prefixed_middlewares(router.prefix@, middleware_entries(router.middlewares@)),
            final(self).socket_addr == old(self).socket_addr,
    {
        let ghost hs = handler_entries(self.handlers@);
        let ghost rh = prefixed_handlers(router.prefix@, handler_entries(router.handlers@));
        let n = router.handlers.len();
        let mut i: usize = 0;
        proof {
            assert(handler_entries(self.handlers@) =~= hs + rh.take(0));
        }
        while i < n
            invariant
                i <= n,
                n == router.handlers@.len(),
                rh == prefixed_handlers(router.prefix@, handler_entries(router.handlers@)),
                handler_entries(self.handlers@) == hs + rh.take(i as int),
                self.middlewares == old(self).middlewares,
                self.socket_addr == old(self).socket_addr,
            decreases n - i,
        {
            let x = &router.handlers[i];
            let mut path = router.prefix.clone();
            path.append(x.path.as_str());
            let h = Handler { method: x.method.clone(), path, func: x.func };
            let ghost before = self.handlers@;
            self.handlers.push(h);
            proof {
                assert(rh.take(i + 1int) =~= rh.take(i as int).push((h.method@, h.path@, h.func)));
                assert(handler_entries(self.handlers@) =~= handler_entries(before).push(
                    (h.method@, h.path@, h.func),
                ));
            }
            i = i + 1;
        }
        let ghost ms = middleware_entries(self.middlewares@);
        let ghost rm = prefixed_middlewares(router.prefix@, middleware_entries(router.middlewares@));
        let k = router.middlewares.len();
        let mut j: usize = 0;
        proof {
            assert(rh.take(n as int) =~= rh);
            assert(middleware_entries(self.middlewares@) =~= ms + rm.take(0));
        }
        while j < k
            invariant
                j <= k,
                k == router.middlewares@.len(),
                rm == prefixed_middlewares(router.prefix@, middleware_entries(router.middlewares@)),
                middleware_entries(self.middlewares@) == ms + rm.take(j as int),
                handler_entries(self.handlers@) == hs + rh,
                self.socket_addr == old(self).socket_addr,
            decreases k - j,
        {
            let x = &router.middlewares[j];
            let mut path = router.prefix.clone();
            path.append(x.path.as_str());
            let m = Midwarer { path, func: x.func };
            let ghost before = self.middlewares@;
            self.middlewares.push(m);
            proof {
                assert(rm.take(j + 1int) =~= rm.take(j as int).push((m.path@, m.func)));
                assert(middleware_entries(self.middlewares@) =~= middleware_entries(before).push(
                    (m.path@, m.func),
                ));
            }
            j = j + 1;
        }
        proof {
            assert(rm.take(k as int) =~= rm);
        }
    }

    /// The context a request starts from: body `111222`, path `/api/v1/books`,
    /// method `GET`, status 200, every middleware still to run in order, and the
    /// first handler at the end of the chain.
    pub fn request_context(&self) -> (r: Context)
        requires
            self.handlers@.len() > 0,
        ensures
            r.body@ == start_body(),
            r.path@ == start_path(),
            r.method@ == method_get(),
            r.status == 200,
            r.tail@ == middleware_entries(self.middlewares@).map_values(
                |e: (Seq<char>, usize)| e.1,
            ),
            r.handler == self.handlers@[0].func,
    {
        let k = self.middlewares.len();
        let mut tail: Vec<usize> = Vec::new();
        let mut j: usize = 0;
        while j < k
            invariant
                j <= k,
                k == self.middlewares@.len(),
                tail@ == middleware_entries(self.middlewares@).map_values(
                    |e: (Seq<char>, usize)| e.1,
                ).take(j as int),
            decreases k - j,
        {
            tail.push(self.middlewares[j].func);
            proof {
                assert(tail@ =~= middleware_entries(self.middlewares@).map_values(
                    |e: (Seq<char>, usize)| e.1,
                ).take(j + 1int));
            }
            j = j + 1;
        }
        proof {
            reveal_strlit("111222");
            reveal_strlit("/api/v1/books");
            assert(tail@ =~= middleware_entries(self.middlewares@).map_values(
                |e: (Seq<char>, usize)| e.1,
            ));
        }
        let body = "111222".to_owned();
        let path = "/api/v1/books".to_owned();
        assert(body@ =~= start_body());
        assert(path@ =~= start_path());
        Context {
            body,
            path,
            method: literal_get(),
            status: 200,
            resp: Response {},
            tail,
            handler: self.handlers[0].func,
        }
    }
}

} // verus!
