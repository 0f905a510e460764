//! A peer-to-peer overlay node: a deterministic wire codec for the packet
//! union, onion circuit construction and per-hop unwrap with replay
//! defense, a scored peer registry with selection policies, the discovery
//! protocol, and the client session fabric. Contracts state what each
//! operation returns and how it changes the node's state; outside
//! cryptographic calls stand behind trusted wrappers whose contracts name
//! their results.

pub mod bytes;
pub mod codec;
pub mod crypto;
pub mod discovery;
pub mod errors;
pub mod hex;
pub mod onion;
pub mod registry;
pub mod routing;
pub mod session;
pub mod types;

use vstd::prelude::*;

verus! {

/// Default port for the client-facing HTTP/WebSocket channel.
pub fn default_http_port() -> (r: u16)
    ensures
        r == 8181,
{
    8181
}

/// Default port for the native binary transport.
pub fn default_arson_port() -> (r: u16)
    ensures
        r == 3000,
{
    3000
}

} // verus!
