//! Connection engine of an obfuscating relay for a length-framed binary RPC
//! transport: the stream cipher of the obfuscation layer, the handshake
//! parser, the inner framings, the datacenter directory, the connection
//! table and the per-connection relay state machine.
//!
//! Everything here works on plain values. Sockets, readiness polling and
//! clocks belong to the program that embeds the engine: it reports what
//! happened on a socket and carries out what the engine answers.

pub mod buffer;
pub mod codec;
pub mod config;
pub mod directory;
pub mod entropy;
pub mod error;
pub mod framing;
pub mod handshake;
pub mod pump;
pub mod relay;
pub mod server;
pub mod table;
