//! The response side of a chained request.

use vstd::prelude::*;

verus! {

/// The sink that a handler answers through.
#[derive(Debug, Copy, Clone, PartialEq, Eq)]
pub struct Response {}

} // verus!
