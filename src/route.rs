use vstd::prelude::*;

use crate::address::{Address, AddressView, IpAddr};
use crate::session::{Network, Session};

verus! {

/// What a routing rule tests of a session.
#[derive(Clone, Debug)]
pub enum Matcher {
    /// The destination is a domain whose name ends with the text.
    DomainSuffix(String),
    /// The destination is a domain with exactly this name.
    DomainFull(String),
    /// The destination is this literal IP address.
    Ip(IpAddr),
    /// The session uses this transport.
    Network(Network),
}

/// A rule: sessions that the matcher accepts go to the outbound `target`.
#[derive(Clone, Debug)]
pub struct Rule {
    pub matcher: Matcher,
    pub target: String,
}

/// Ordered rules and an optional default outbound tag.
#[derive(Clone, Debug)]
pub struct Router {
    pub rules: Vec<Rule>,
    pub default: Option<String>,
}

/// No rule accepted the session and no default is configured.
#[derive(Clone, Copy, Debug, PartialEq, Eq, Structural)]
pub enum RouteError {
    NoRouteMatched,
}

pub open spec fn ends_with(name: Seq<char>, suffix: Seq<char>) -> bool {
    suffix.len() <= name.len() && name.subrange(name.len() - suffix.len(), name.len() as int)
        == suffix
}

pub open spec fn matcher_accepts(m: Matcher, s: Session) -> bool {
    match m {
        Matcher::DomainSuffix(suf) => match s.destination@ {
            AddressView::Domain(name, _) => ends_with(name, suf@),
            AddressView::Ip(_) => false,
        },
        Matcher::DomainFull(full) => match s.destination@ {
            AddressView::Domain(name, _) => name == full@,
            AddressView::Ip(_) => false,
        },
        Matcher::Ip(ip) => match s.destination@ {
            AddressView::Domain(_, _) => false,
            AddressView::Ip(a) => a.ip == ip,
        },
        Matcher::Network(n) => s.network == n,
    }
}

/// The index of the first rule at or after `k` that accepts `s`.
pub open spec fn first_match_from(rules: Seq<Rule>, s: Session, k: int) -> Option<int>
    decreases rules.len() - k,
{
    if k < 0 || k >= rules.len() {
        None
    } else if matcher_accepts(rules[k].matcher, s) {
        Some(k)
    } else {
        first_match_from(rules, s, k + 1)
    }
}

pub open spec fn first_match(rules: Seq<Rule>, s: Session) -> Option<int> {
    first_match_from(rules, s, 0)
}

/// The outbound tag that `s` is routed to: the first accepting rule's, else the default.
pub open spec fn route_of(rules: Seq<Rule>, default: Option<String>, s: Session) -> Option<Seq<char>> {
    match first_match(rules, s) {
        Some(i) => Some(rules[i].target@),
        None => match default {
            Some(d) => Some(d@),
            None => None,
        },
    }
}

pub proof fn lemma_first_match_from(rules: Seq<Rule>, s: Session, k: int)
    requires
        0 <= k,
    ensures
        first_match_from(rules, s, k) matches Some(i) ==> k <= i < rules.len() && matcher_accepts(
            rules[i].matcher,
            s,
        ) && forall|j: int| k <= j < i ==> !matcher_accepts(#[trigger] rules[j].matcher, s),
        first_match_from(rules, s, k) is None ==> forall|j: int|
            k <= j < rules.len() ==> !matcher_accepts(#[trigger] rules[j].matcher, s),
    decreases rules.len() - k,
{
    if k < rules.len() && !matcher_accepts(rules[k].matcher, s) {
        lemma_first_match_from(rules, s, k + 1);
    }
}

/// First match wins: when rule `k` accepts `s` and no earlier rule does, `s` goes to
/// rule `k`'s target, whatever the later rules and the default say.
pub proof fn lemma_first_accepting_rule_wins(
    rules: Seq<Rule>,
    default: Option<String>,
    s: Session,
    k: int,
)
    requires
        0 <= k < rules.len(),
        matcher_accepts(rules[k].matcher, s),
        forall|j: int| 0 <= j < k ==> !matcher_accepts(#[trigger] rules[j].matcher, s),
    ensures
        route_of(rules, default, s) == Some(rules[k].target@),
{
    lemma_first_match_from(rules, s, 0);
    if first_match(rules, s) is Some {
        let i = first_match(rules, s)->Some_0;
        if i > k {
            assert(!matcher_accepts(rules[k].matcher, s));
        }
    } else {
        assert(!matcher_accepts(rules[k].matcher, s));
    }
}

/// When no rule accepts `s`, it goes to the default tag, and without one it has no route.
pub proof fn lemma_no_rule_falls_back_to_default(rules: Seq<Rule>, default: Option<String>, s: Session)
    requires
        forall|j: int| 0 <= j < rules.len() ==> !matcher_accepts(#[trigger] rules[j].matcher, s),
    ensures
        route_of(rules, default, s) == match default {
            Some(d) => Some(d@),
            None => None::<Seq<char>>,
        },
{
    lemma_first_match_from(rules, s, 0);
}

fn name_ends_with(name: &String, suffix: &String) -> (r: bool)
    ensures
        r == ends_with(name@, suffix@),
{
    let n = name.as_str().unicode_len();
    let m = suffix.as_str().unicode_len();
    if m > n {
        return false;
    }
    let off = n - m;
    let mut i: usize = 0;
    while i < m
        invariant
            n == name@.len(),
            m == suffix@.len(),
            off == n - m,
            i <= m,
            forall|k: int| 0 <= k < i ==> name@[off + k] == suffix@[k],
        decreases m - i,
    {
        if name.as_str().get_char(off + i) != suffix.as_str().get_char(i) {
            assert(name@.subrange(off as int, n as int)[i as int] != suffix@[i as int]);
            return false;
        }
        i = i + 1;
    }
    assert(name@.subrange(off as int, n as int) =~= suffix@);
    true
}

impl Matcher {
    /// Whether this matcher accepts the session.
    pub fn accepts(&self, s: &Session) -> (r: bool)
        ensures
            r == matcher_accepts(*self, *s),
    {
        match self {
            Matcher::DomainSuffix(suf) => match &s.destination {
                Address::Domain(name, _) => name_ends_with(name, suf),
                Address::Ip(_) => false,
            },
            Matcher::DomainFull(full) => match &s.destination {
                Address::Domain(name, _) => *name == *full,
                Address::Ip(_) => false,
            },
            Matcher::Ip(ip) => match &s.destination {
                Address::Domain(_, _) => false,
                Address::Ip(a) => a.ip == *ip,
            },
            Matcher::Network(n) => s.network == *n,
        }
    }
}

impl Router {
    pub fn new(rules: Vec<Rule>, default: Option<String>) -> (r: Router)
        ensures
            r.rules@ == rules@,
            r.default == default,
    {
        Router { rules, default }
    }

    /// The outbound tag for `s`: rules are tried in order and the first that accepts
    /// wins; when none does, the default tag; with no default, `NoRouteMatched`.
    pub fn select(&self, s: &Session) -> (r: Result<String, RouteError>)
        ensures
            match route_of(self.rules@, self.default, *s) {
                Some(t) => r is Ok && r->Ok_0@ == t,
                None => r == Err::<String, RouteError>(RouteError::NoRouteMatched),
            },
    {
        let mut i: usize = 0;
        while i < self.rules.len()
            invariant
                i <= self.rules@.len(),
                first_match(self.rules@, *s) == first_match_from(self.rules@, *s, i as int),
            decreases self.rules@.len() - i,
        {
            if self.rules[i].matcher.accepts(s) {
                return Ok(self.rules[i].target.clone());
            }
            i = i + 1;
        }
        match &self.default {
            Some(d) => Ok(d.clone()),
            None => Err(RouteError::NoRouteMatched),
        }
    }
}

} // verus!
