//! What a connection tells about itself.

use vstd::prelude::*;

verus! {

/// A connection to a peer that is served without blocking.
pub trait AsyncConnection {
    /// Whether what passes over this connection is encrypted.
    spec fn encrypted(&self) -> bool;

    /// Whether what passes over this connection is encrypted.
    fn is_encrypted(&self) -> (b: bool)
        ensures
            b == self.encrypted(),
    ;
}

/// A connection to a peer.
pub trait Connection {
    /// Whether what passes over this connection is encrypted.
    spec fn encrypted(&self) -> bool;

    /// Whether what passes over this connection is encrypted.
    fn is_encrypted(&self) -> (b: bool)
        ensures
            b == self.encrypted(),
    ;
}

/// The two kinds of stream that a connection runs over.
#[derive(Clone, Copy, Debug, PartialEq, Eq, Structural)]
pub enum Transport {
    /// A plain TCP stream.
    Plain,
    /// A TCP stream wrapped in TLS.
    Tls,
}

impl AsyncConnection for Transport {
    open spec fn encrypted(&self) -> bool {
        *self == Transport::Tls
    }

    fn is_encrypted(&self) -> (b: bool) {
        match self {
            Transport::Plain => false,
            Transport::Tls => true,
        }
    }
}

impl Connection for Transport {
    open spec fn encrypted(&self) -> bool {
        *self == Transport::Tls
    }

    fn is_encrypted(&self) -> (b: bool) {
        match self {
            Transport::Plain => false,
            Transport::Tls => true,
        }
    }
}

} // verus!
