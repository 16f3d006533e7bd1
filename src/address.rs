use vstd::prelude::*;

use crate::ipv6::{char_at, dec_run, dec_run_end, ipv6_at, ipv6_at_exec, ipv6_text, push_ipv6};
use crate::text::{
    all_digits, dec_text, dec_value, find_char, index_of, is_digit, lemma_dec_text,
    lemma_index_of_at, lemma_index_of_bounds, parse_decimal, push_dec,
};

verus! {

/// An IP address: four octets, or eight 16-bit groups.
#[derive(Clone, Copy, Debug, PartialEq, Eq, Structural)]
pub enum IpAddr {
    V4(u8, u8, u8, u8),
    V6(u16, u16, u16, u16, u16, u16, u16, u16),
}

/// An IP address together with a port.
#[derive(Clone, Copy, Debug, PartialEq, Eq, Structural)]
pub struct SocketAddr {
    pub ip: IpAddr,
    pub port: u16,
    /// The zone index of an IPv6 address; zero when there is none, and for IPv4.
    pub scope_id: u32,
}

impl SocketAddr {
    /// The text `ip:port`.
    pub fn to_text(&self) -> (r: String)
        ensures
            r@ == socket_text(*self),
    {
        let mut out = String::new();
        match self.ip {
            IpAddr::V4(a, b, c, d) => {
                push_dec(&mut out, a as u32);
                push_sep(&mut out, ".", b as u16);
                push_sep(&mut out, ".", c as u16);
                push_sep(&mut out, ".", d as u16);
                proof { reveal_strlit("."); }
            },
            IpAddr::V6(a, b, c, d, e, f, g, h) => {
                out.append("[");
                let gs = vec![a, b, c, d, e, f, g, h];
                assert(gs@ =~= seq![a, b, c, d, e, f, g, h]);
                push_ipv6(&mut out, &gs);
                if self.scope_id != 0 {
                    out.append("%");
                    push_dec(&mut out, self.scope_id);
                }
                out.append("]");
                proof { reveal_strlit("["); reveal_strlit("%"); reveal_strlit("]"); }
            },
        }
        push_sep(&mut out, ":", self.port);
        proof { reveal_strlit(":"); }
        assert(out@ =~= socket_text(*self));
        out
    }
    pub fn new(ip: IpAddr, port: u16) -> (r: SocketAddr)
        ensures
            r == (SocketAddr { ip, port, scope_id: 0 }),
    {
        SocketAddr { ip, port, scope_id: 0 }
    }

    pub fn port(&self) -> (r: u16)
        ensures
            r == self.port,
    {
        self.port
    }
}

/// A connection endpoint: a domain name still to be resolved, or a literal address.
#[derive(Clone, Debug)]
pub enum Address {
    Domain(String, u16),
    Ip(SocketAddr),
}

/// What an `Address` denotes: the name as characters, or the literal address.
pub enum AddressView {
    Domain(Seq<char>, u16),
    Ip(SocketAddr),
}

impl View for Address {
    type V = AddressView;

    open spec fn view(&self) -> AddressView {
        match self {
            Address::Domain(name, port) => AddressView::Domain(name@, *port),
            Address::Ip(a) => AddressView::Ip(*a),
        }
    }
}

/// Text that is neither a literal endpoint nor a name followed by a valid port.
#[derive(Clone, Copy, Debug, PartialEq, Eq, Structural)]
pub enum AddressError {
    InvalidAddress,
}

/// The port of an address, whatever kind it is.
pub open spec fn view_port(v: AddressView) -> u16 {
    match v {
        AddressView::Domain(_, p) => p,
        AddressView::Ip(a) => a.port,
    }
}

/// One octet of a dotted IPv4 address: one to three digits, no leading zero, at most 255.
pub open spec fn octet_text(t: Seq<char>) -> bool {
    1 <= t.len() <= 3 && all_digits(t) && (t.len() == 1 || t[0] != '0') && dec_value(t) <= 255
}

/// A port: a non-empty run of decimal digits whose value fits in 16 bits.
pub open spec fn port_text(t: Seq<char>) -> bool {
    t.len() >= 1 && all_digits(t) && dec_value(t) <= 65535
}

/// The literal endpoint `a.b.c.d:port` that `s` spells, if it spells one.
pub open spec fn ipv4_endpoint_of(s: Seq<char>) -> Option<SocketAddr> {
    let i1 = index_of(s, '.', 0);
    let i2 = index_of(s, '.', i1 + 1);
    let i3 = index_of(s, '.', i2 + 1);
    let i4 = index_of(s, ':', i3 + 1);
    if i4 < s.len() && octet_text(s.subrange(0, i1)) && octet_text(s.subrange(i1 + 1, i2))
        && octet_text(s.subrange(i2 + 1, i3)) && octet_text(s.subrange(i3 + 1, i4)) && port_text(
        s.subrange(i4 + 1, s.len() as int),
    ) {
        Some(
            SocketAddr {
                ip: IpAddr::V4(
                    dec_value(s.subrange(0, i1)) as u8,
                    dec_value(s.subrange(i1 + 1, i2)) as u8,
                    dec_value(s.subrange(i2 + 1, i3)) as u8,
                    dec_value(s.subrange(i3 + 1, i4)) as u8,
                ),
                port: dec_value(s.subrange(i4 + 1, s.len() as int)) as u16,
                scope_id: 0,
            },
        )
    } else {
        None
    }
}

/// The literal endpoint `[ipv6%scope]:port` that `s` spells, if it spells one; the
/// scope, a decimal number, may be left out and is then zero.
pub open spec fn ipv6_endpoint_of(s: Seq<char>) -> Option<SocketAddr> {
    if char_at(s, 0, '[') is Some {
        match ipv6_at(s, 1) {
            None => None,
            Some((g, q)) => {
                let scoped = char_at(s, q, '%') is Some;
                let n = dec_run(s, q + 1);
                let scope = if scoped { dec_value(s.subrange(q + 1, q + 1 + n)) } else { 0 };
                let q2 = if scoped { q + 1 + n } else { q };
                if (!scoped || (n >= 1 && scope <= 4294967295)) && char_at(s, q2, ']') is Some
                    && char_at(s, q2 + 1, ':') is Some && port_text(s.subrange(q2 + 2, s.len() as int)) {
                    Some(
                        SocketAddr {
                            ip: IpAddr::V6(g[0], g[1], g[2], g[3], g[4], g[5], g[6], g[7]),
                            port: dec_value(s.subrange(q2 + 2, s.len() as int)) as u16,
                            scope_id: scope as u32,
                        },
                    )
                } else {
                    None
                }
            },
        }
    } else {
        None
    }
}

/// The literal endpoint, IPv4 or IPv6, that `s` spells, if it spells one.
pub open spec fn ip_endpoint_of(s: Seq<char>) -> Option<SocketAddr> {
    match ipv4_endpoint_of(s) {
        Some(a) => Some(a),
        None => ipv6_endpoint_of(s),
    }
}

/// `name:port`, split at the first colon, when what follows it is a port.
pub open spec fn domain_of(s: Seq<char>) -> Option<AddressView> {
    let i = index_of(s, ':', 0);
    if i < s.len() && port_text(s.subrange(i + 1, s.len() as int)) {
        Some(AddressView::Domain(s.subrange(0, i), dec_value(s.subrange(i + 1, s.len() as int)) as u16))
    } else {
        None
    }
}

/// The address that the text `s` denotes: a literal endpoint first, else a domain and a port.
pub open spec fn address_of(s: Seq<char>) -> Option<AddressView> {
    match ip_endpoint_of(s) {
        Some(a) => Some(AddressView::Ip(a)),
        None => domain_of(s),
    }
}


/// Dotted decimal for IPv4; the short hexadecimal form for IPv6.
pub open spec fn ip_text(ip: IpAddr) -> Seq<char> {
    match ip {
        IpAddr::V4(a, b, c, d) => dec_text(a as nat) + seq!['.'] + dec_text(b as nat) + seq!['.']
            + dec_text(c as nat) + seq!['.'] + dec_text(d as nat),
        IpAddr::V6(a, b, c, d, e, f, g, h) => ipv6_text(seq![a, b, c, d, e, f, g, h]),
    }
}

/// `ip:port` for IPv4; `[ip]:port` for IPv6, with `%scope` inside the brackets when the
/// scope is not zero.
pub open spec fn socket_text(a: SocketAddr) -> Seq<char> {
    match a.ip {
        IpAddr::V4(..) => ip_text(a.ip) + seq![':'] + dec_text(a.port as nat),
        IpAddr::V6(..) => seq!['['] + ip_text(a.ip) + (if a.scope_id == 0 {
            Seq::empty()
        } else {
            seq!['%'] + dec_text(a.scope_id as nat)
        }) + seq![']', ':'] + dec_text(a.port as nat),
    }
}

/// `host:port` for either kind of address.
pub open spec fn address_text(v: AddressView) -> Seq<char> {
    match v {
        AddressView::Domain(name, port) => name + seq![':'] + dec_text(port as nat),
        AddressView::Ip(a) => socket_text(a),
    }
}

/// The text of an IPv4 endpoint reads back as that same endpoint.
pub proof fn lemma_ipv4_text_round_trip(a: SocketAddr)
    requires
        a.ip is V4,
        a.scope_id == 0,
    ensures
        ip_endpoint_of(socket_text(a)) == Some(a),
        address_of(socket_text(a)) == Some(AddressView::Ip(a)),
{
    let (x0, x1, x2, x3) = match a.ip {
        IpAddr::V4(x0, x1, x2, x3) => (x0, x1, x2, x3),
        IpAddr::V6(..) => (0u8, 0u8, 0u8, 0u8),
    };
    lemma_dec_text(x0 as nat);
    lemma_dec_text(x1 as nat);
    lemma_dec_text(x2 as nat);
    lemma_dec_text(x3 as nat);
    lemma_dec_text(a.port as nat);
    let d0 = dec_text(x0 as nat);
    let d1 = dec_text(x1 as nat);
    let d2 = dec_text(x2 as nat);
    let d3 = dec_text(x3 as nat);
    let dp = dec_text(a.port as nat);
    let s = socket_text(a);
    let j1 = d0.len() as int;
    let j2 = j1 + 1 + d1.len();
    let j3 = j2 + 1 + d2.len();
    let j4 = j3 + 1 + d3.len();
    assert(s =~= d0 + seq!['.'] + d1 + seq!['.'] + d2 + seq!['.'] + d3 + seq![':'] + dp);
    assert(s.len() == j4 + 1 + dp.len());
    assert(s.subrange(0, j1) =~= d0);
    assert(s.subrange(j1 + 1, j2) =~= d1);
    assert(s.subrange(j2 + 1, j3) =~= d2);
    assert(s.subrange(j3 + 1, j4) =~= d3);
    assert(s.subrange(j4 + 1, s.len() as int) =~= dp);
    assert forall|k: int| 0 <= k < j1 implies s[k] != '.' by {
        assert(s[k] == d0[k] && is_digit(d0[k]));
    }
    assert forall|k: int| j1 + 1 <= k < j2 implies s[k] != '.' by {
        assert(s[k] == d1[k - j1 - 1] && is_digit(d1[k - j1 - 1]));
    }
    assert forall|k: int| j2 + 1 <= k < j3 implies s[k] != '.' by {
        assert(s[k] == d2[k - j2 - 1] && is_digit(d2[k - j2 - 1]));
    }
    assert forall|k: int| j3 + 1 <= k < j4 implies s[k] != ':' by {
        assert(s[k] == d3[k - j3 - 1] && is_digit(d3[k - j3 - 1]));
    }
    lemma_index_of_at(s, '.', 0, j1);
    lemma_index_of_at(s, '.', j1 + 1, j2);
    lemma_index_of_at(s, '.', j2 + 1, j3);
    lemma_index_of_at(s, ':', j3 + 1, j4);
}

/// The text of a domain address reads back as that domain, when the name holds no
/// colon, does not open with a bracket, and holds some character that is neither a
/// digit nor a dot (else the text would spell a literal endpoint).
pub proof fn lemma_domain_text_round_trip(name: Seq<char>, port: u16)
    requires
        forall|i: int| 0 <= i < name.len() ==> name[i] != ':',
        name.len() > 0 ==> name[0] != '[',
        exists|i: int| 0 <= i < name.len() && !is_digit(#[trigger] name[i]) && name[i] != '.',
    ensures
        address_of(address_text(AddressView::Domain(name, port))) == Some(
            AddressView::Domain(name, port),
        ),
{
    lemma_dec_text(port as nat);
    let dp = dec_text(port as nat);
    let s = address_text(AddressView::Domain(name, port));
    let n = name.len() as int;
    let w = choose|i: int| 0 <= i < name.len() && !is_digit(#[trigger] name[i]) && name[i] != '.';
    assert(s =~= name + seq![':'] + dp);
    assert(s[n] == ':');
    assert forall|k: int| n < k < s.len() implies is_digit(s[k]) by {
        assert(s[k] == dp[k - n - 1]);
    }
    assert forall|k: int| 0 <= k < n implies s[k] != ':' by {
        assert(s[k] == name[k]);
    }
    assert(s[w] == name[w]);
    let i1 = index_of(s, '.', 0);
    let i2 = index_of(s, '.', i1 + 1);
    let i3 = index_of(s, '.', i2 + 1);
    let i4 = index_of(s, ':', i3 + 1);
    if ipv4_endpoint_of(s) is Some {
        lemma_index_of_bounds(s, '.', 0);
        lemma_index_of_bounds(s, '.', i1 + 1);
        lemma_index_of_bounds(s, '.', i2 + 1);
        lemma_index_of_bounds(s, ':', i3 + 1);
        assert(i3 < n) by {
            if i3 >= n {
                assert(!is_digit('.'));
            }
        }
        assert(i4 == n);
        if w < i1 {
            assert(s.subrange(0, i1)[w] == s[w]);
        } else if w == i1 || w == i2 || w == i3 {
        } else if w < i2 {
            assert(s.subrange(i1 + 1, i2)[w - i1 - 1] == s[w]);
        } else if w < i3 {
            assert(s.subrange(i2 + 1, i3)[w - i2 - 1] == s[w]);
        } else {
            assert(s.subrange(i3 + 1, i4)[w - i3 - 1] == s[w]);
        }
        assert(false);
    }
    assert(s[0] == name[0]);
    lemma_index_of_at(s, ':', 0, n);
    assert(s.subrange(0, n) =~= name);
    assert(s.subrange(n + 1, s.len() as int) =~= dp);
}

fn push_sep(out: &mut String, sep: &str, n: u16)
    ensures
        final(out)@ == old(out)@ + sep@ + dec_text(n as nat),
{
    out.append(sep);
    push_dec(out, n as u32);
}

pub fn parse_octet(s: &str, lo: usize, hi: usize) -> (r: Option<u8>)
    requires
        lo <= hi <= s@.len(),
    ensures
        r.is_some() <==> octet_text(s@.subrange(lo as int, hi as int)),
        r.is_some() ==> r.unwrap() as int == dec_value(s@.subrange(lo as int, hi as int)),
{
    if hi - lo > 3 {
        return None;
    }
    if hi - lo > 1 && s.get_char(lo) == '0' {
        assert(s@.subrange(lo as int, hi as int)[0] == '0');
        return None;
    }
    assert(hi - lo > 1 ==> s@.subrange(lo as int, hi as int)[0] == s@[lo as int]);
    match parse_decimal(s, lo, hi, 255) {
        Some(v) => Some(v as u8),
        None => None,
    }
}

/// Reads `s` as a literal IPv4 endpoint.
fn parse_ipv4_endpoint(s: &str) -> (r: Option<SocketAddr>)
    ensures
        r == ipv4_endpoint_of(s@),
{
    let n = s.unicode_len();
    let i1 = find_char(s, '.', 0);
    proof { lemma_index_of_bounds(s@, '.', 0); }
    if i1 >= n {
        return None;
    }
    let i2 = find_char(s, '.', i1 + 1);
    proof { lemma_index_of_bounds(s@, '.', i1 + 1); }
    if i2 >= n {
        return None;
    }
    let i3 = find_char(s, '.', i2 + 1);
    proof { lemma_index_of_bounds(s@, '.', i2 + 1); }
    if i3 >= n {
        return None;
    }
    let i4 = find_char(s, ':', i3 + 1);
    proof { lemma_index_of_bounds(s@, ':', i3 + 1); }
    if i4 >= n {
        return None;
    }
    let a = parse_octet(s, 0, i1);
    let b = parse_octet(s, i1 + 1, i2);
    let c = parse_octet(s, i2 + 1, i3);
    let d = parse_octet(s, i3 + 1, i4);
    let p = parse_decimal(s, i4 + 1, n, 65535);
    match (a, b, c, d, p) {
        (Some(a), Some(b), Some(c), Some(d), Some(p)) => Some(
            SocketAddr { ip: IpAddr::V4(a, b, c, d), port: p as u16, scope_id: 0 },
        ),
        _ => None,
    }
}

/// Reads `s` as a literal IPv6 endpoint.
fn parse_ipv6_endpoint(s: &str) -> (r: Option<SocketAddr>)
    ensures
        r == ipv6_endpoint_of(s@),
{
    let n = s.unicode_len();
    if n == 0 || s.get_char(0) != '[' {
        return None;
    }
    let (g, q) = match ipv6_at_exec(s, 1) {
        Some(x) => x,
        None => {
            return None;
        },
    };
    let mut scope: u32 = 0;
    let mut q2: usize = q;
    if q < n && s.get_char(q) == '%' {
        let e = dec_run_end(s, q + 1);
        match parse_decimal(s, q + 1, e, 4294967295) {
            Some(v) => {
                scope = v as u32;
                q2 = e;
            },
            None => {
                return None;
            },
        }
    }
    if q2 >= n || s.get_char(q2) != ']' || q2 + 1 >= n || s.get_char(q2 + 1) != ':' {
        return None;
    }
    match parse_decimal(s, q2 + 2, n, 65535) {
        Some(p) => Some(
            SocketAddr {
                ip: IpAddr::V6(g[0], g[1], g[2], g[3], g[4], g[5], g[6], g[7]),
                port: p as u16,
                scope_id: scope,
            },
        ),
        None => None,
    }
}

/// Reads `s` as a literal IP endpoint, IPv4 or IPv6.
pub fn parse_ip_endpoint(s: &str) -> (r: Option<SocketAddr>)
    ensures
        r == ip_endpoint_of(s@),
{
    match parse_ipv4_endpoint(s) {
        Some(a) => Some(a),
        None => parse_ipv6_endpoint(s),
    }
}

impl Address {
    /// Reads `host:port`: a literal IP endpoint when `s` spells one, else a domain
    /// name and the port after its first colon. Text with no valid port is refused.
    pub fn from(s: String) -> (r: Result<Address, AddressError>)
        ensures
            match address_of(s@) {
                Some(v) => r is Ok && r->Ok_0@ == v,
                None => r is Err,
            },
    {
        let t = s.as_str();
        match parse_ip_endpoint(t) {
            Some(a) => Ok(Address::Ip(a)),
            None => {
                let n = t.unicode_len();
                let i = find_char(t, ':', 0);
                proof { lemma_index_of_bounds(t@, ':', 0); }
                if i >= n {
                    return Err(AddressError::InvalidAddress);
                }
                match parse_decimal(t, i + 1, n, 65535) {
                    Some(p) => {
                        let name = String::from_str(t.substring_char(0, i));
                        Ok(Address::Domain(name, p as u16))
                    },
                    None => Err(AddressError::InvalidAddress),
                }
            },
        }
    }

    /// A domain address from a name and a port, taken as they are.
    pub fn from_domain(name: String, port: u16) -> (r: Address)
        ensures
            r@ == AddressView::Domain(name@, port),
    {
        Address::Domain(name, port)
    }

    /// The host part: the name of a domain, the `ip:port` text of a literal address.
    pub fn host(&self) -> (r: String)
        ensures
            r@ == match self@ {
                AddressView::Domain(name, _) => name,
                AddressView::Ip(a) => socket_text(a),
            },
    {
        match self {
            Address::Domain(name, _) => name.clone(),
            Address::Ip(a) => a.to_text(),
        }
    }

    /// The text `host:port`.
    pub fn to_text(&self) -> (r: String)
        ensures
            r@ == address_text(self@),
    {
        match self {
            Address::Domain(name, port) => {
                let mut out = name.clone();
                push_sep(&mut out, ":", *port);
                proof { reveal_strlit(":"); }
                assert(out@ =~= address_text(self@));
                out
            },
            Address::Ip(a) => a.to_text(),
        }
    }

    pub fn port(&self) -> (r: u16)
        ensures
            r == view_port(self@),
    {
        match self {
            Address::Domain(_, port) => *port,
            Address::Ip(a) => a.port,
        }
    }
}

} // verus!
