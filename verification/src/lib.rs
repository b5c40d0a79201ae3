//! A small HTTP framework: request parsing, response rendering and
//! prefix-based routing of registered handlers and middlewares.

pub mod text;
pub mod headers;
pub mod request;
pub mod response;
pub mod application;
pub mod router;
pub mod aio;

pub use application::Aero;
pub use application::Context;
pub use router::Router;
