use vstd::prelude::*;

use crate::handler::{InboundHandler, OutboundHandler};
use crate::handler::Tagged;
use crate::manager::{find_tag, lemma_unregistered_tag_not_found, Manager};
use crate::route::{route_of, RouteError, Router};
use crate::session::{Network, Session};

verus! {

/// Why a connection could not be bound to a handler.
#[derive(Clone, Copy, Debug, PartialEq, Eq, Structural)]
pub enum DispatchError {
    /// No rule accepted the session and there is no default.
    NoRouteMatched,
    /// The tag names no registered handler.
    UnknownTag,
    /// The handler does not carry the session's transport.
    UnsupportedNetwork,
}

/// Binds sessions to outbound handlers by the router's decision.
pub struct Dispatcher<T, U> {
    pub router: Router,
    pub outbounds: Manager<OutboundHandler<T, U>>,
}

/// The index of the outbound handler that carries `s`, or why there is none.
pub open spec fn outbound_for<T, U>(
    router: Router,
    outbounds: Seq<OutboundHandler<T, U>>,
    s: Session,
) -> Result<int, DispatchError> {
    match route_of(router.rules@, router.default, s) {
        None => Err(DispatchError::NoRouteMatched),
        Some(t) => match find_tag(outbounds, t) {
            None => Err(DispatchError::UnknownTag),
            Some(i) => if outbounds[i].supports(s.network) {
                Ok(i)
            } else {
                Err(DispatchError::UnsupportedNetwork)
            },
        },
    }
}

/// The index of the inbound handler tagged `tag` that carries `n`, or why there is none.
pub open spec fn inbound_for<T, U>(
    inbounds: Seq<InboundHandler<T, U>>,
    tag: Seq<char>,
    n: Network,
) -> Result<int, DispatchError> {
    match find_tag(inbounds, tag) {
        None => Err(DispatchError::UnknownTag),
        Some(i) => if inbounds[i].supports(n) {
            Ok(i)
        } else {
            Err(DispatchError::UnsupportedNetwork)
        },
    }
}

/// A route to a tag that no outbound handler carries fails that one connection with
/// `UnknownTag`; it does not abort anything else.
pub proof fn lemma_dangling_route_is_unknown_tag<T, U>(
    router: Router,
    outbounds: Seq<OutboundHandler<T, U>>,
    s: Session,
    t: Seq<char>,
)
    requires
        route_of(router.rules@, router.default, s) == Some(t),
        forall|j: int| 0 <= j < outbounds.len() ==> #[trigger] outbounds[j].tag_view() != t,
    ensures
        outbound_for(router, outbounds, s) == Err::<int, DispatchError>(DispatchError::UnknownTag),
{
    lemma_unregistered_tag_not_found(outbounds, t);
}

/// The inbound handler that accepts a connection of transport `n` on the listener `tag`.
pub fn select_inbound<'a, T, U>(
    inbounds: &'a Manager<InboundHandler<T, U>>,
    tag: &String,
    n: Network,
) -> (r: Result<&'a InboundHandler<T, U>, DispatchError>)
    ensures
        match inbound_for(inbounds.handlers@, tag@, n) {
            Ok(i) => r == Ok::<&InboundHandler<T, U>, DispatchError>(&inbounds.handlers@[i]),
            Err(e) => r == Err::<&InboundHandler<T, U>, DispatchError>(e),
        },
{
    match inbounds.lookup(tag) {
        None => Err(DispatchError::UnknownTag),
        Some(h) => {
            let ok = match n {
                Network::TCP => h.tcp_handler.is_some(),
                Network::UDP => h.udp_handler.is_some(),
            };
            if ok {
                Ok(h)
            } else {
                Err(DispatchError::UnsupportedNetwork)
            }
        },
    }
}

impl<T, U> Dispatcher<T, U> {
    pub fn new(router: Router, outbounds: Manager<OutboundHandler<T, U>>) -> (r: Dispatcher<T, U>)
        ensures
            r.router.rules@ == router.rules@,
            r.router.default == router.default,
            r.outbounds.handlers@ == outbounds.handlers@,
    {
        Dispatcher { router, outbounds }
    }

    /// Routes `s` and looks the chosen tag up: the handler that will carry it, or
    /// `NoRouteMatched`, `UnknownTag` for a route to a tag that no handler has, and
    /// `UnsupportedNetwork` when that handler lacks the session's transport.
    pub fn select(&self, s: &Session) -> (r: Result<&OutboundHandler<T, U>, DispatchError>)
        ensures
            match outbound_for(self.router, self.outbounds.handlers@, *s) {
                Ok(i) => r == Ok::<&OutboundHandler<T, U>, DispatchError>(
                    &self.outbounds.handlers@[i],
                ),
                Err(e) => r == Err::<&OutboundHandler<T, U>, DispatchError>(e),
            },
    {
        let tag = match self.router.select(s) {
            Ok(t) => t,
            Err(RouteError::NoRouteMatched) => {
                return Err(DispatchError::NoRouteMatched);
            },
        };
        match self.outbounds.lookup(&tag) {
            None => Err(DispatchError::UnknownTag),
            Some(h) => {
                let ok = match s.network {
                    Network::TCP => h.tcp_handler.is_some(),
                    Network::UDP => h.udp_handler.is_some(),
                };
                if ok {
                    Ok(h)
                } else {
                    Err(DispatchError::UnsupportedNetwork)
                }
            },
        }
    }
}

} // verus!
