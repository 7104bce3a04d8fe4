//! Names of the HTTP headers that clients and the hub exchange.
use vstd::prelude::*;

verus! {

/// The session, in both directions.
pub const SESSION_ID: &'static str = "mcp-session-id";

/// Another name of the session header.
pub const SESSION_ID_ALIAS: &'static str = "x-mcp-session-id";

/// The client's overrides: JSON in base64.
pub const ENV: &'static str = "x-mcp-env";

/// The servers that the client asks for, separated by commas.
pub const SERVERS: &'static str = "x-mcp-servers";

} // verus!
