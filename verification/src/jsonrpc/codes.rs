//! Standard and server-defined JSON-RPC error codes.
use vstd::prelude::*;

verus! {

/// Method not found.
pub const METHOD_NOT_FOUND: i64 = -32601;

/// Invalid params.
pub const INVALID_PARAMS: i64 = -32602;

/// Tool not found; a code of this server's own.
pub const TOOL_NOT_FOUND: i64 = -32002;

/// Any error inside the server or a backend.
pub const INTERNAL: i64 = -32000;

} // verus!
