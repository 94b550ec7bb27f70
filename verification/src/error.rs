//! The ways in which a connection fails.

use vstd::prelude::*;

verus! {

/// A failure of one connection. None of them is fatal to the process.
#[derive(Clone, Copy, Debug, PartialEq, Eq, Structural)]
pub enum ProxyError {
    /// The handshake is not complete yet: wait for more bytes and parse
    /// again. The connection stays open.
    MalformedHandshake,
    /// The handshake is complete and its content is rejected: the connection
    /// is to be dropped.
    InvalidHandshake,
    /// The handshake names a datacenter that the directory does not know.
    UnknownDatacenter,
}

} // verus!
