//! Routers: groups of routes that an application mounts under a common prefix.

use vstd::prelude::*;

use crate::application::{
    handler_views, literal_all, literal_get, literal_post, method_all, method_get, method_post,
    route, Handler,
};

verus! {

/// Routes to be mounted under `prefix`.
pub struct Router {
    pub prefix: String,
    pub layers: Vec<Handler>,
}

impl Router {
    /// A router with no routes under `prefix`.
    pub fn new(prefix: &str) -> (r: Router)
        ensures
            r.prefix@ == prefix@,
            r.layers@.len() == 0,
    {
        Router { prefix: prefix.to_owned(), layers: Vec::new() }
    }

    fn add(&mut self, method: String, path: &str, func: usize)
        ensures
            handler_views(final(self).layers@) == handler_views(old(self).layers@).push(
                route(method@, path@, func),
            ),
            final(self).prefix == old(self).prefix,
    {
        let h = Handler { method, path: path.to_owned(), func };
        self.layers.push(h);
        proof {
            assert(handler_views(self.layers@) =~= handler_views(old(self).layers@).push(
                route(h.method@, path@, func),
            ));
        }
    }

    /// Registers `func` for `GET` requests under `path`.
    pub fn get(&mut self, path: &str, func: usize)
        ensures
            handler_views(final(self).layers@) == handler_views(old(self).layers@).push(
                route(method_get(), path@, func),
            ),
            final(self).prefix == old(self).prefix,
    {
        self.add(literal_get(), path, func);
    }

    /// Registers `func` for `POST` requests under `path`.
    pub fn post(&mut self, path: &str, func: usize)
        ensures
            handler_views(final(self).layers@) == handler_views(old(self).layers@).push(
                route(method_post(), path@, func),
            ),
            final(self).prefix == old(self).prefix,
    {
        self.add(literal_post(), path, func);
    }

    /// Registers `func` for requests of every method under `path`.
    pub fn hold(&mut self, path: &str, func: usize)
        ensures
            handler_views(final(self).layers@) == handler_views(old(self).layers@).push(
                route(method_all(), path@, func),
            ),
            final(self).prefix == old(self).prefix,
    {
        self.add(literal_all(), path, func);
    }
}

} // verus!
