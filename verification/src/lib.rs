//! The core of a Wayland compositor server: the wire codec with its
//! round-trip laws, the protocol registry, per-client object tables and
//! lifecycle, the built-in display and registry interfaces, and the code
//! generator that turns protocol descriptions into typed bindings.

pub mod interface;
pub mod wire;
pub mod codec_laws;
pub mod scanner;
pub mod xml;
pub mod net;
pub mod object;
pub mod server;
pub mod generator;
pub mod doc;
