use vstd::prelude::*;

use crate::address::{view_port, Address, SocketAddr};

verus! {

/// Transport of a connection.
#[derive(Clone, Copy, Debug, PartialEq, Eq, Structural)]
pub enum Network {
    TCP,
    UDP,
}

/// Transport kind of a listening endpoint.
#[derive(Clone, Copy, Debug, PartialEq, Eq, Structural)]
pub enum NetworkType {
    TCP,
    UDP,
}

/// A listening endpoint and its transport.
#[derive(Clone, Copy, Debug, PartialEq, Eq, Structural)]
pub struct TransportNetwork {
    pub addr: SocketAddr,
    pub net_type: NetworkType,
}

/// A destination known only by name.
#[derive(Clone, Debug)]
pub struct DomainSession {
    pub name: String,
    pub port: u16,
}

/// One connection to be routed: where it goes, the peer that opened it, and its transport.
#[derive(Clone, Debug)]
pub struct Session {
    pub destination: Address,
    /// The peer connected to the local listener, not the final destination.
    pub local_peer: SocketAddr,
    pub network: Network,
}

impl Session {
    pub fn new(destination: Address, local_peer: SocketAddr, network: Network) -> (r: Session)
        ensures
            r.destination@ == destination@,
            r.local_peer == local_peer,
            r.network == network,
    {
        Session { destination, local_peer, network }
    }

    /// The destination's port, whatever kind of address it is.
    pub fn port(&self) -> (r: u16)
        ensures
            r == view_port(self.destination@),
    {
        self.destination.port()
    }
}

} // verus!
