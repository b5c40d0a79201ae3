//! Registered handlers and middlewares, and the chain that a request runs through:
//! each middleware in turn, then the handler.

use vstd::prelude::*;

use crate::aio::response::Response;

verus! {

/// A registered handler: a path, a method and the number by which the caller
/// finds the function that serves it.
#[derive(Debug, Clone, PartialEq, Eq)]
pub struct Handler {
    pub path: String,
    pub method: String,
    pub func: usize,
}

/// A registered middleware: a path and the number by which the caller finds it.
#[derive(Debug, Clone, PartialEq, Eq)]
pub struct Midwarer {
    pub path: String,
    pub func: usize,
}

/// What the chain runs next.
#[derive(Debug, Copy, Clone, PartialEq, Eq)]
pub enum NextStep {
    /// The middleware with this number.
    Middleware(usize),
    /// The handler with this number; the chain ends there.
    Handler(usize),
}

/// A request moving through the chain: its data, the middlewares still to
/// run, and the handler that ends the chain.
#[derive(Debug, Clone)]
pub struct Context {
    pub body: String,
    pub path: String,
    pub status: i16,
    pub resp: Response,
    pub method: String,
    pub tail: Vec<usize>,
    pub handler: usize,
}

/// One step of the chain on the middlewares still to run: the first of them
/// leaves the list and runs; with none left, the handler runs.
pub open spec fn chain_step(tail: Seq<usize>, handler: usize) -> (Seq<usize>, NextStep) {
    if tail.len() > 0 {
        (tail.drop_first(), NextStep::Middleware(tail[0]))
    } else {
        (tail, NextStep::Handler(handler))
    }
}

/// The steps that `n` calls of `next` produce from `tail`.
pub open spec fn chain_steps(tail: Seq<usize>, handler: usize, n: nat) -> Seq<NextStep>
    decreases n,
{
    if n == 0 {
        seq![]
    } else {
        let (rest, step) = chain_step(tail, handler);
        seq![step] + chain_steps(rest, handler, (n - 1) as nat)
    }
}

/// The order in which a chain runs: every middleware in order, then the handler.
pub open spec fn chain_order(tail: Seq<usize>, handler: usize) -> Seq<NextStep> {
    tail.map_values(|m: usize| NextStep::Middleware(m)).push(NextStep::Handler(handler))
}

/// Calling `next` once per middleware and once more runs every middleware in
/// order and then the handler.
pub proof fn lemma_chain_runs_in_order(tail: Seq<usize>, handler: usize)
    ensures
        chain_steps(tail, handler, tail.len() + 1) == chain_order(tail, handler),
    decreases tail.len(),
{
    if tail.len() == 0 {
        assert(chain_steps(tail, handler, 0) =~= Seq::<NextStep>::empty());
        assert(chain_order(tail, handler) =~= seq![NextStep::Handler(handler)]);
    } else {
        lemma_chain_runs_in_order(tail.drop_first(), handler);
        assert(chain_order(tail, handler) =~= seq![NextStep::Middleware(tail[0])] + chain_order(
            tail.drop_first(),
            handler,
        ));
    }
}

impl Context {
    /// Answers with `data`; the answer is not kept.
    pub fn send_text(&mut self, data: String)
        ensures
            *final(self) == *old(self),
    {
    }

    /// Sets the status code.
    pub fn status(&mut self, code: i16) -> (r: &mut Self)
        ensures
            r.status == code,
            r.body == old(self).body,
            r.path == old(self).path,
            r.resp == old(self).resp,
            r.method == old(self).method,
            r.tail == old(self).tail,
            r.handler == old(self).handler,
            *final(self) == *final(r),
    {
        self.status = code;
        self
    }

    /// Advances the chain (see `chain_step`).
    pub fn next(&mut self) -> (r: NextStep)
        ensures
            (final(self).tail@, r) == chain_step(old(self).tail@, old(self).handler),
            final(self).handler == old(self).handler,
            final(self).body == old(self).body,
            final(self).path == old(self).path,
            final(self).method == old(self).method,
            final(self).status == old(self).status,
            final(self).resp == old(self).resp,
    {
        if self.tail.len() > 0 {
            let current = self.tail.remove(0);
            NextStep::Middleware(current)
        } else {
            NextStep::Handler(self.handler)
        }
    }
}

} // verus!
