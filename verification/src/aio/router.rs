//! Routers of the chained variant: handlers and middlewares mounted under a prefix.

use vstd::prelude::*;

use crate::aio::context::{Handler, Midwarer};
use crate::aio::application::{
    handler_entries, middleware_entries, root_path, root_path_string,
};
use crate::application::{literal_get, literal_post, method_get, method_post};

verus! {

/// Handlers and middlewares to be mounted under `prefix`.
pub struct Router {
    pub prefix: String,
    pub handlers: Vec<Handler>,
    pub middlewares: Vec<Midwarer>,
}

impl Router {
    /// A router with neither handlers nor middlewares under `prefix`.
    pub fn new(prefix: &str) -> (r: Router)
        ensures
            r.prefix@ == prefix@,
            r.handlers@.len() == 0,
            r.middlewares@.len() == 0,
    {
        Router { prefix: prefix.to_owned(), handlers: Vec::new(), middlewares: Vec::new() }
    }

    /// Adds the middleware `mid` at the root path `/`.
    pub fn with(&mut self, mid: usize)
        ensures
            middleware_entries(final(self).middlewares@) == middleware_entries(
                old(self).middlewares@,
            ).push((root_path(), mid)),
            final(self).handlers == old(self).handlers,
            final(self).prefix == old(self).prefix,
    {
        let m = Midwarer { path: root_path_string(), func: mid };
        self.middlewares.push(m);
        proof {
            assert(middleware_entries(self.middlewares@) =~= middleware_entries(
                old(self).middlewares@,
            ).push((root_path(), mid)));
        }
    }

    /// Registers the handler `handler` for `GET` requests under `path`.
    pub fn get(&mut self, path: &str, handler: usize)
        ensures
            handler_entries(final(self).handlers@) == handler_entries(old(self).handlers@).push(
                (method_get(), path@, handler),
            ),
            final(self).middlewares == old(self).middlewares,
            final(self).prefix == old(self).prefix,
    {
        let h = Handler { method: literal_get(), path: path.to_owned(), func: handler };
        self.handlers.push(h);
        proof {
            assert(handler_entries(self.handlers@) =~= handler_entries(old(self).handlers@).push(
                (method_get(), path@, handler),
            ));
        }
    }

    /// Registers the handler `handler` for `POST` requests under `path`.
    pub fn post(&mut self, path: &str, handler: usize)
        ensures
            handler_entries(final(self).handlers@) == handler_entries(old(self).handlers@).push(
                (method_post(), path@, handler),
            ),
            final(self).middlewares == old(self).middlewares,
            final(self).prefix == old(self).prefix,
    {
        let h = Handler { method: literal_post(), path: path.to_owned(), func: handler };
        self.handlers.push(h);
        proof {
            assert(handler_entries(self.handlers@) =~= handler_entries(old(self).handlers@).push(
                (method_post(), path@, handler),
            ));
        }
    }
}

} // verus!
