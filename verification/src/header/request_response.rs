//! What precedes the payload of a request and of a response.

use vstd::prelude::*;

verus! {

/// The header of a request. It holds nothing.
#[derive(Debug, Copy, Clone)]
pub struct RequestHeader {}

/// The header of a response. It holds nothing.
#[derive(Debug, Copy, Clone)]
pub struct ResponseHeader {}

} // verus!
