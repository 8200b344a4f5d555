//! The way to the other side.

use vstd::prelude::*;

use crate::net::SocketAddr;

verus! {

/// The way to the other side of a connection.
#[derive(Debug, Clone, Copy, PartialEq, Eq, Structural, Hash)]
pub struct PathBinding {
    peer: SocketAddr,
}

impl PathBinding {
    /// The address at its end.
    pub closed spec fn end(self) -> SocketAddr {
        self.peer
    }

    /// The way to an address.
    pub fn new(peer: SocketAddr) -> (path: Self)
        ensures
            path.end() == peer,
    {
        PathBinding { peer }
    }

    /// The address at its end.
    pub fn peer(self) -> (peer: SocketAddr)
        ensures
            peer == self.end(),
    {
        self.peer
    }
}

} // verus!
