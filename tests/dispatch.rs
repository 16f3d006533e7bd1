use tunnel::address::{Address, IpAddr, SocketAddr};
use tunnel::dispatch::{select_inbound, DispatchError, Dispatcher};
use tunnel::handler::{Error, InboundHandler, InboundHandlerTrait, InboundResult, OutboundHandler};
use tunnel::manager::{ConfigError, Manager};
use tunnel::resolve::{resolution_plan, socket_addr_from_lookup, ResolveError, ResolvePlan};
use tunnel::route::{Matcher, Router, Rule};
use tunnel::session::{Network, Session};

fn peer() -> SocketAddr {
    SocketAddr::new(IpAddr::V4(127, 0, 0, 1), 50000)
}

fn session_to(dest: &str, network: Network) -> Session {
    Session::new(Address::from(dest.to_string()).unwrap(), peer(), network)
}

fn suffix_router() -> Router {
    Router::new(
        vec![Rule { matcher: Matcher::DomainSuffix(".a.com".to_string()), target: "out1".to_string() }],
        Some("out2".to_string()),
    )
}

fn outbound(tag: &str, tcp: bool, udp: bool) -> OutboundHandler<u32, u32> {
    OutboundHandler::new(tag.to_string(), if tcp { Some(1) } else { None }, if udp { Some(2) } else { None })
}

#[test]
fn router_suffix_rule_and_default() {
    let r = suffix_router();
    assert_eq!(r.select(&session_to("x.a.com:80", Network::TCP)).unwrap(), "out1");
    assert_eq!(r.select(&session_to("x.b.com:80", Network::TCP)).unwrap(), "out2");
}

#[test]
fn router_first_match_wins() {
    let r = Router::new(
        vec![
            Rule { matcher: Matcher::Network(Network::UDP), target: "udp".to_string() },
            Rule { matcher: Matcher::DomainFull("x.a.com".to_string()), target: "full".to_string() },
            Rule { matcher: Matcher::DomainSuffix("a.com".to_string()), target: "suffix".to_string() },
            Rule { matcher: Matcher::Ip(IpAddr::V4(10, 0, 0, 1)), target: "ip".to_string() },
        ],
        None,
    );
    assert_eq!(r.select(&session_to("x.a.com:80", Network::TCP)).unwrap(), "full");
    assert_eq!(r.select(&session_to("x.a.com:80", Network::UDP)).unwrap(), "udp");
    assert_eq!(r.select(&session_to("y.a.com:80", Network::TCP)).unwrap(), "suffix");
    assert_eq!(r.select(&session_to("10.0.0.1:80", Network::TCP)).unwrap(), "ip");
    assert!(r.select(&session_to("10.0.0.2:80", Network::TCP)).is_err());
}

#[test]
fn suffix_longer_than_name_does_not_match() {
    let r = Router::new(
        vec![Rule { matcher: Matcher::DomainSuffix("long.a.com".to_string()), target: "x".to_string() }],
        None,
    );
    assert!(r.select(&session_to("a.com:1", Network::TCP)).is_err());
}

#[test]
fn manager_lookup_of_unregistered_tag_is_none() {
    let m = Manager::new(vec![outbound("direct", true, true)]).ok().unwrap();
    assert!(m.lookup(&"missing".to_string()).is_none());
    assert_eq!(m.lookup(&"direct".to_string()).unwrap().tag, "direct");
}

#[test]
fn manager_refuses_duplicate_tags() {
    let r = Manager::new(vec![outbound("a", true, false), outbound("a", false, true)]);
    assert!(matches!(r, Err(ConfigError::DuplicateTag)));
}

#[test]
fn manager_refuses_handler_without_transport() {
    let r = Manager::new(vec![outbound("a", true, false), outbound("b", false, false)]);
    assert!(matches!(r, Err(ConfigError::NoTransport)));
}

#[test]
fn dispatcher_selects_routed_handler() {
    let m = Manager::new(vec![outbound("out1", true, false), outbound("out2", true, true)]).ok().unwrap();
    let d = Dispatcher::new(suffix_router(), m);
    assert_eq!(d.select(&session_to("x.a.com:80", Network::TCP)).ok().unwrap().tag, "out1");
    assert_eq!(d.select(&session_to("x.b.com:80", Network::UDP)).ok().unwrap().tag, "out2");
}

#[test]
fn dispatcher_reports_unknown_tag() {
    let m = Manager::new(vec![outbound("out1", true, true)]).ok().unwrap();
    let d = Dispatcher::new(suffix_router(), m);
    assert!(matches!(d.select(&session_to("x.b.com:80", Network::TCP)), Err(DispatchError::UnknownTag)));
}

#[test]
fn dispatcher_reports_unsupported_network() {
    let m = Manager::new(vec![outbound("out1", true, false), outbound("out2", true, true)]).ok().unwrap();
    let d = Dispatcher::new(suffix_router(), m);
    assert!(matches!(
        d.select(&session_to("x.a.com:80", Network::UDP)),
        Err(DispatchError::UnsupportedNetwork)
    ));
}

#[test]
fn dispatcher_reports_no_route() {
    let m = Manager::new(vec![outbound("out1", true, true)]).ok().unwrap();
    let d = Dispatcher::new(Router::new(vec![], None), m);
    assert!(matches!(d.select(&session_to("x.a.com:80", Network::TCP)), Err(DispatchError::NoRouteMatched)));
}

#[test]
fn inbound_selection() {
    let h: InboundHandler<u8, u8> = InboundHandler::new("socks".to_string(), Some(0), None);
    assert!(h.has_tcp());
    assert!(!h.has_udp());
    let m = Manager::new(vec![h]).ok().unwrap();
    assert_eq!(select_inbound(&m, &"socks".to_string(), Network::TCP).ok().unwrap().tag, "socks");
    assert!(matches!(select_inbound(&m, &"socks".to_string(), Network::UDP), Err(DispatchError::UnsupportedNetwork)));
    assert!(matches!(select_inbound(&m, &"http".to_string(), Network::TCP), Err(DispatchError::UnknownTag)));
}

#[test]
fn inbound_result_hands_back_session() {
    let r: InboundResult<u8, u8> = InboundResult::Stream(7, session_to("x.a.com:80", Network::TCP));
    assert_eq!(r.session().port(), 80);
}

#[test]
fn connect_error_names_destination() {
    match Error::connect_error(&session_to("x.a.com:8443", Network::TCP)) {
        Error::ConnectError(host, port) => {
            assert_eq!(host, "x.a.com");
            assert_eq!(port, 8443);
        }
    }
}

#[test]
fn ip_address_needs_no_lookup() {
    let a = Address::from("10.0.0.2:8080".to_string()).unwrap();
    match resolution_plan(&a) {
        ResolvePlan::Ready(s) => assert_eq!(s, SocketAddr::new(IpAddr::V4(10, 0, 0, 2), 8080)),
        other => panic!("unexpected {:?}", other),
    }
}

#[test]
fn domain_is_looked_up_by_text() {
    let a = Address::from("example.com:25".to_string()).unwrap();
    match resolution_plan(&a) {
        ResolvePlan::Lookup(q, p) => {
            assert_eq!(q, "example.com:25");
            assert_eq!(p, 25);
        }
        other => panic!("unexpected {:?}", other),
    }
}

#[test]
fn empty_lookup_is_no_address_found() {
    assert_eq!(socket_addr_from_lookup(25, Ok(vec![])), Err(ResolveError::NoAddressFound));
}

#[test]
fn lookup_takes_first_answer() {
    let r = socket_addr_from_lookup(25, Ok(vec![IpAddr::V4(1, 1, 1, 1), IpAddr::V4(2, 2, 2, 2)]));
    assert_eq!(r, Ok(SocketAddr::new(IpAddr::V4(1, 1, 1, 1), 25)));
}

#[test]
fn failed_lookup_passes_error_on() {
    assert_eq!(socket_addr_from_lookup(25, Err(ResolveError::ResolutionError)), Err(ResolveError::ResolutionError));
}
