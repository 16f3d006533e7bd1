use vstd::prelude::*;

use crate::address::{socket_text, view_port, AddressView};
use crate::session::{Network, Session};

verus! {

/// A value with a tag that registries key it by, and a set of supported transports.
pub trait Tagged {
    spec fn tag_view(&self) -> Seq<char>;

    /// Whether at least one transport is supported.
    spec fn usable(&self) -> bool;

    fn tag(&self) -> (r: &String)
        ensures
            r@ == self.tag_view(),
    ;

    fn has_transport(&self) -> (r: bool)
        ensures
            r == self.usable(),
    ;
}

/// Which transports a handler can carry.
pub trait InboundHandlerTrait {
    spec fn tcp_supported(&self) -> bool;

    spec fn udp_supported(&self) -> bool;

    fn has_tcp(&self) -> (r: bool)
        ensures
            r == self.tcp_supported(),
    ;

    fn has_udp(&self) -> (r: bool)
        ensures
            r == self.udp_supported(),
    ;
}

/// What an inbound handler hands back: the open local endpoint and the definitive session.
pub enum InboundResult<S, D> {
    Stream(S, Session),
    Datagram(D, Session),
}

impl<S, D> InboundResult<S, D> {
    pub open spec fn session_spec(&self) -> Session {
        match self {
            InboundResult::Stream(_, s) => *s,
            InboundResult::Datagram(_, s) => *s,
        }
    }

    /// The session that the handler settled on.
    pub fn session(&self) -> (r: &Session)
        ensures
            *r == self.session_spec(),
    {
        match self {
            InboundResult::Stream(_, s) => s,
            InboundResult::Datagram(_, s) => s,
        }
    }
}

/// A tagged bundle of an optional TCP handler and an optional UDP handler.
pub struct InboundHandler<T, U> {
    pub tag: String,
    pub tcp_handler: Option<T>,
    pub udp_handler: Option<U>,
}

impl<T, U> InboundHandler<T, U> {
    pub fn new(tag: String, tcp: Option<T>, udp: Option<U>) -> (r: InboundHandler<T, U>)
        ensures
            r.tag@ == tag@,
            r.tcp_handler == tcp,
            r.udp_handler == udp,
    {
        InboundHandler { tag, tcp_handler: tcp, udp_handler: udp }
    }

    pub open spec fn supports(&self, n: Network) -> bool {
        match n {
            Network::TCP => self.tcp_handler is Some,
            Network::UDP => self.udp_handler is Some,
        }
    }
}

impl<T, U> InboundHandlerTrait for InboundHandler<T, U> {
    open spec fn tcp_supported(&self) -> bool {
        self.tcp_handler is Some
    }

    open spec fn udp_supported(&self) -> bool {
        self.udp_handler is Some
    }

    fn has_tcp(&self) -> (r: bool) {
        self.tcp_handler.is_some()
    }

    fn has_udp(&self) -> (r: bool) {
        self.udp_handler.is_some()
    }
}

impl<T, U> Tagged for InboundHandler<T, U> {
    open spec fn tag_view(&self) -> Seq<char> {
        self.tag@
    }

    open spec fn usable(&self) -> bool {
        self.tcp_handler is Some || self.udp_handler is Some
    }

    fn tag(&self) -> (r: &String) {
        &self.tag
    }

    fn has_transport(&self) -> (r: bool) {
        self.tcp_handler.is_some() || self.udp_handler.is_some()
    }
}

/// A tagged bundle of an optional TCP handler and an optional UDP handler.
pub struct OutboundHandler<T, U> {
    pub tag: String,
    pub tcp_handler: Option<T>,
    pub udp_handler: Option<U>,
}

impl<T, U> OutboundHandler<T, U> {
    pub fn new(tag: String, tcp: Option<T>, udp: Option<U>) -> (r: OutboundHandler<T, U>)
        ensures
            r.tag@ == tag@,
            r.tcp_handler == tcp,
            r.udp_handler == udp,
    {
        OutboundHandler { tag, tcp_handler: tcp, udp_handler: udp }
    }

    pub open spec fn supports(&self, n: Network) -> bool {
        match n {
            Network::TCP => self.tcp_handler is Some,
            Network::UDP => self.udp_handler is Some,
        }
    }
}

impl<T, U> Tagged for OutboundHandler<T, U> {
    open spec fn tag_view(&self) -> Seq<char> {
        self.tag@
    }

    open spec fn usable(&self) -> bool {
        self.tcp_handler is Some || self.udp_handler is Some
    }

    fn tag(&self) -> (r: &String) {
        &self.tag
    }

    fn has_transport(&self) -> (r: bool) {
        self.tcp_handler.is_some() || self.udp_handler.is_some()
    }
}

/// Where an outbound sends a connection next.
#[derive(Clone, Debug)]
pub enum OutboundConnect {
    /// Through another proxy at this host, which may be an address or a domain name.
    Proxy(String, u16),
    Direct,
    Drop,
}

/// Failure of an outbound handler, whatever its cause.
#[derive(Clone, Debug)]
pub enum Error {
    ConnectError(String, u16),
}

impl Error {
    /// The connect failure for the destination of `s`: its host text and its port.
    pub fn connect_error(s: &Session) -> (r: Error)
        ensures
            match r {
                Error::ConnectError(host, port) => port == view_port(s.destination@) && host@
                    == match s.destination@ {
                    AddressView::Domain(name, _) => name,
                    AddressView::Ip(a) => socket_text(a),
                },
            },
    {
        Error::ConnectError(s.destination.host(), s.port())
    }
}

} // verus!
