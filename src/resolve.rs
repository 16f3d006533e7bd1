use vstd::prelude::*;

use crate::address::{address_text, Address, AddressView, IpAddr, SocketAddr};

verus! {

#[derive(Clone, Copy, Debug, PartialEq, Eq, Structural)]
pub enum ResolveError {
    /// No resolver gave a usable answer, or the query could not be read.
    ResolutionError,
    /// The resolver answered with no address.
    NoAddressFound,
}

/// What it takes to turn an address into a socket address.
#[derive(Clone, Debug)]
pub enum ResolvePlan {
    /// A literal address: nothing to look up.
    Ready(SocketAddr),
    /// A name: look up the `host:port` query, then pair the first answer with the port.
    Lookup(String, u16),
}

/// A literal address needs no lookup; a domain is looked up by its `host:port` text.
pub fn resolution_plan(addr: &Address) -> (r: ResolvePlan)
    ensures
        match addr@ {
            AddressView::Ip(a) => r matches ResolvePlan::Ready(b) && b == a,
            AddressView::Domain(_, p) => r matches ResolvePlan::Lookup(q, port) && q@
                == address_text(addr@) && port == p,
        },
{
    match addr {
        Address::Ip(a) => ResolvePlan::Ready(*a),
        Address::Domain(_, p) => ResolvePlan::Lookup(addr.to_text(), *p),
    }
}

/// The socket address that a lookup's outcome gives for `port`.
pub open spec fn resolved_from(port: u16, ips: Result<Seq<IpAddr>, ResolveError>) -> Result<
    SocketAddr,
    ResolveError,
> {
    match ips {
        Err(e) => Err(e),
        Ok(v) => if v.len() == 0 {
            Err(ResolveError::NoAddressFound)
        } else {
            Ok(SocketAddr { ip: v[0], port, scope_id: 0 })
        },
    }
}

/// Pairs the first address that a lookup returned with `port`; an empty answer is
/// `NoAddressFound` and a failed lookup passes its error on.
pub fn socket_addr_from_lookup(port: u16, ips: Result<Vec<IpAddr>, ResolveError>) -> (r: Result<
    SocketAddr,
    ResolveError,
>)
    ensures
        r == resolved_from(
            port,
            match ips {
                Ok(v) => Ok(v@),
                Err(e) => Err(e),
            },
        ),
{
    match ips {
        Err(e) => Err(e),
        Ok(v) => {
            if v.len() == 0 {
                Err(ResolveError::NoAddressFound)
            } else {
                Ok(SocketAddr { ip: v[0], port, scope_id: 0 })
            }
        },
    }
}

} // verus!
