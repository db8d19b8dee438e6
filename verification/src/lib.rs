//! Verified core of the Flipple multiplayer relay: the wire codec, ticket
//! checks, IPv4/UDP packet normalization, the peer registry and the TLS
//! material's PEM decoding.

use vstd::prelude::*;

pub mod auth;
pub mod checksum;
pub mod client;
pub mod ipv4;
pub mod primitives;
pub mod registry;
pub mod relay;
pub mod text;
pub mod tls;
pub mod wire;

verus! {

/// Version byte carried by every data frame and required in every ticket.
pub const PROTOCOL_VERSION: u8 = 2;

/// ALPN protocol id that relay and clients agree on (sent as its ASCII bytes).
pub const ALPN: &'static str = "flipple-mc/2";

} // verus!
