//! Values of the `Content-Type` header.
use vstd::prelude::*;

verus! {

/// An ordinary response.
pub const JSON: &'static str = "application/json";

/// A stream of events.
pub const SSE: &'static str = "text/event-stream";

} // verus!
