//! The asynchronous variant: middlewares that wrap a final handler, run in a chain.

pub mod application;
pub mod context;
pub mod response;
pub mod router;
