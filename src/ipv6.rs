use vstd::prelude::*;

use crate::address::{octet_text, parse_octet};
use crate::text::{
    all_digits, all_hex, dec_text, dec_value, hex_text, hex_value, is_digit, is_hex_digit,
    parse_hex_group, push_dec, push_hex,
};

verus! {

/// How many hexadecimal digits stand in a row from `p` on.
pub open spec fn hex_run(s: Seq<char>, p: int) -> int
    decreases s.len() - p,
{
    if 0 <= p < s.len() && is_hex_digit(s[p]) {
        1 + hex_run(s, p + 1)
    } else {
        0
    }
}

/// How many decimal digits stand in a row from `p` on.
pub open spec fn dec_run(s: Seq<char>, p: int) -> int
    decreases s.len() - p,
{
    if 0 <= p < s.len() && is_digit(s[p]) {
        1 + dec_run(s, p + 1)
    } else {
        0
    }
}

/// A group of one to four hexadecimal digits at `p`, with the position after it.
pub open spec fn group_at(s: Seq<char>, p: int) -> Option<(u16, int)> {
    let n = hex_run(s, p);
    if 1 <= n <= 4 {
        Some((hex_value(s.subrange(p, p + n)) as u16, p + n))
    } else {
        None
    }
}

/// An IPv4 octet at `p`, with the position after it.
pub open spec fn octet_at(s: Seq<char>, p: int) -> Option<(u8, int)> {
    let n = dec_run(s, p);
    if octet_text(s.subrange(p, p + n)) {
        Some((dec_value(s.subrange(p, p + n)) as u8, p + n))
    } else {
        None
    }
}

/// The character `c` at `p`, and the position after it.
pub open spec fn char_at(s: Seq<char>, p: int, c: char) -> Option<int> {
    if 0 <= p < s.len() && s[p] == c {
        Some(p + 1)
    } else {
        None
    }
}

/// A dotted IPv4 address at `p` as two 16-bit groups, with the position after it.
pub open spec fn ipv4_groups_at(s: Seq<char>, p: int) -> Option<(u16, u16, int)> {
    match octet_at(s, p) {
        None => None,
        Some((a, p1)) => match char_at(s, p1, '.') {
            None => None,
            Some(q1) => match octet_at(s, q1) {
                None => None,
                Some((b, p2)) => match char_at(s, p2, '.') {
                    None => None,
                    Some(q2) => match octet_at(s, q2) {
                        None => None,
                        Some((c, p3)) => match char_at(s, p3, '.') {
                            None => None,
                            Some(q3) => match octet_at(s, q3) {
                                None => None,
                                Some((d, p4)) => Some(
                                    (
                                        (a as int * 256 + b as int) as u16,
                                        (c as int * 256 + d as int) as u16,
                                        p4,
                                    ),
                                ),
                            },
                        },
                    },
                },
            },
        },
    }
}

/// The colon that stands before every group but the first.
pub open spec fn sep_at(s: Seq<char>, p: int, i: int) -> Option<int> {
    if i == 0 {
        Some(p)
    } else {
        char_at(s, p, ':')
    }
}

/// The groups read from `p` on as the `i`-th to at most the `limit`-th, each but the first
/// after a colon; a dotted IPv4 address counts as two groups and ends the run. Gives the
/// groups, the position after them, and whether an IPv4 address ended them.
pub open spec fn groups_at(s: Seq<char>, p: int, i: int, limit: int) -> (Seq<u16>, int, bool)
    decreases limit - i,
{
    if i >= limit {
        (Seq::empty(), p, false)
    } else {
        let v4 = if i < limit - 1 {
            match sep_at(s, p, i) {
                Some(q) => ipv4_groups_at(s, q),
                None => None,
            }
        } else {
            None
        };
        match v4 {
            Some((g, h, q)) => (seq![g, h], q, true),
            None => match sep_at(s, p, i) {
                None => (Seq::empty(), p, false),
                Some(q) => match group_at(s, q) {
                    None => (Seq::empty(), p, false),
                    Some((g, r)) => {
                        let rest = groups_at(s, r, i + 1, limit);
                        (seq![g] + rest.0, rest.1, rest.2)
                    },
                },
            },
        }
    }
}

/// An IPv6 address at `p` as eight groups, with the position after it: eight groups
/// written out, or groups before and after a `::` that stands for one or more zero groups.
pub open spec fn ipv6_at(s: Seq<char>, p: int) -> Option<(Seq<u16>, int)> {
    let head = groups_at(s, p, 0, 8);
    if head.0.len() == 8 {
        Some((head.0, head.1))
    } else if head.2 {
        None
    } else if char_at(s, head.1, ':') is Some && char_at(s, head.1 + 1, ':') is Some {
        let tail = groups_at(s, head.1 + 2, 0, 8 - (head.0.len() + 1));
        Some(
            (
                head.0 + Seq::new((8 - head.0.len() - tail.0.len()) as nat, |k: int| 0u16)
                    + tail.0,
                tail.1,
            ),
        )
    } else {
        None
    }
}

pub proof fn lemma_groups_at_len(s: Seq<char>, p: int, i: int, limit: int)
    requires
        0 <= i <= limit,
    ensures
        groups_at(s, p, i, limit).0.len() <= limit - i,
    decreases limit - i,
{
    if i < limit {
        if let Some(q) = sep_at(s, p, i) {
            if let Some((g, r)) = group_at(s, q) {
                lemma_groups_at_len(s, r, i + 1, limit);
            }
        }
    }
}

fn char_is(s: &str, p: usize, c: char) -> (r: Option<usize>)
    requires
        p <= s@.len(),
    ensures
        match char_at(s@, p as int, c) {
            Some(q) => r matches Some(q2) && q2 as int == q,
            None => r is None,
        },
        r matches Some(q) ==> q <= s@.len(),
{
    if p < s.unicode_len() && s.get_char(p) == c {
        Some(p + 1)
    } else {
        None
    }
}

fn hex_run_end(s: &str, p: usize) -> (r: usize)
    requires
        p <= s@.len(),
    ensures
        r - p == hex_run(s@, p as int),
        p <= r <= s@.len(),
        all_hex(s@.subrange(p as int, r as int)),
{
    let n = s.unicode_len();
    let mut i: usize = p;
    while i < n && is_hex_char(s.get_char(i))
        invariant
            n == s@.len(),
            p <= i <= n,
            hex_run(s@, p as int) == (i - p) + hex_run(s@, i as int),
            forall|k: int| p <= k < i ==> is_hex_digit(#[trigger] s@[k]),
        decreases n - i,
    {
        i = i + 1;
    }
    assert forall|k: int| 0 <= k < i - p implies is_hex_digit(#[trigger] s@.subrange(p as int, i as int)[k]) by {
        assert(s@.subrange(p as int, i as int)[k] == s@[p + k]);
    }
    i
}

pub fn dec_run_end(s: &str, p: usize) -> (r: usize)
    requires
        p <= s@.len(),
    ensures
        r - p == dec_run(s@, p as int),
        p <= r <= s@.len(),
        all_digits(s@.subrange(p as int, r as int)),
{
    let n = s.unicode_len();
    let mut i: usize = p;
    while i < n && ('0' <= s.get_char(i) && s.get_char(i) <= '9')
        invariant
            n == s@.len(),
            p <= i <= n,
            dec_run(s@, p as int) == (i - p) + dec_run(s@, i as int),
            forall|k: int| p <= k < i ==> is_digit(#[trigger] s@[k]),
        decreases n - i,
    {
        i = i + 1;
    }
    assert forall|k: int| 0 <= k < i - p implies is_digit(#[trigger] s@.subrange(p as int, i as int)[k]) by {
        assert(s@.subrange(p as int, i as int)[k] == s@[p + k]);
    }
    i
}

fn is_hex_char(c: char) -> (r: bool)
    ensures
        r == is_hex_digit(c),
{
    ('0' <= c && c <= '9') || ('a' <= c && c <= 'f') || ('A' <= c && c <= 'F')
}

fn group_at_exec(s: &str, p: usize) -> (r: Option<(u16, usize)>)
    requires
        p <= s@.len(),
    ensures
        match group_at(s@, p as int) {
            Some((g, q)) => r matches Some((g2, q2)) && g2 == g && q2 as int == q,
            None => r is None,
        },
        r matches Some((_, q)) ==> q <= s@.len(),
{
    let e = hex_run_end(s, p);
    if p < e && e - p <= 4 {
        match parse_hex_group(s, p, e) {
            Some(g) => Some((g, e)),
            None => None,
        }
    } else {
        None
    }
}

fn octet_at_exec(s: &str, p: usize) -> (r: Option<(u8, usize)>)
    requires
        p <= s@.len(),
    ensures
        match octet_at(s@, p as int) {
            Some((g, q)) => r matches Some((g2, q2)) && g2 == g && q2 as int == q,
            None => r is None,
        },
        r matches Some((_, q)) ==> q <= s@.len(),
{
    let e = dec_run_end(s, p);
    match parse_octet(s, p, e) {
        Some(v) => Some((v, e)),
        None => None,
    }
}

fn ipv4_groups_at_exec(s: &str, p: usize) -> (r: Option<(u16, u16, usize)>)
    requires
        p <= s@.len(),
    ensures
        match ipv4_groups_at(s@, p as int) {
            Some((g, h, q)) => r matches Some((g2, h2, q2)) && g2 == g && h2 == h && q2 as int == q,
            None => r is None,
        },
        r matches Some((_, _, q)) ==> q <= s@.len(),
{
    let (a, p1) = match octet_at_exec(s, p) { Some(x) => x, None => { return None; } };
    let q1 = match char_is(s, p1, '.') { Some(x) => x, None => { return None; } };
    let (b, p2) = match octet_at_exec(s, q1) { Some(x) => x, None => { return None; } };
    let q2 = match char_is(s, p2, '.') { Some(x) => x, None => { return None; } };
    let (c, p3) = match octet_at_exec(s, q2) { Some(x) => x, None => { return None; } };
    let q3 = match char_is(s, p3, '.') { Some(x) => x, None => { return None; } };
    let (d, p4) = match octet_at_exec(s, q3) { Some(x) => x, None => { return None; } };
    Some(((a as u16) * 256 + (b as u16), (c as u16) * 256 + (d as u16), p4))
}

fn sep_at_exec(s: &str, p: usize, i: usize) -> (r: Option<usize>)
    requires
        p <= s@.len(),
    ensures
        match sep_at(s@, p as int, i as int) {
            Some(q) => r matches Some(q2) && q2 as int == q,
            None => r is None,
        },
        r matches Some(q) ==> q <= s@.len(),
{
    if i == 0 {
        Some(p)
    } else {
        char_is(s, p, ':')
    }
}

fn groups_at_exec(s: &str, p: usize, i: usize, limit: usize) -> (r: (Vec<u16>, usize, bool))
    requires
        p <= s@.len(),
        i <= limit <= 8,
    ensures
        r.0@ == groups_at(s@, p as int, i as int, limit as int).0,
        r.1 as int == groups_at(s@, p as int, i as int, limit as int).1,
        r.2 == groups_at(s@, p as int, i as int, limit as int).2,
        r.1 <= s@.len(),
    decreases limit - i,
{
    if i >= limit {
        return (Vec::new(), p, false);
    }
    let v4 = if i + 1 < limit {
        match sep_at_exec(s, p, i) {
            Some(q) => ipv4_groups_at_exec(s, q),
            None => None,
        }
    } else {
        None
    };
    match v4 {
        Some((g, h, q)) => {
            let mut v = Vec::new();
            v.push(g);
            v.push(h);
            assert(v@ =~= seq![g, h]);
            (v, q, true)
        },
        None => match sep_at_exec(s, p, i) {
            None => (Vec::new(), p, false),
            Some(q) => match group_at_exec(s, q) {
                None => (Vec::new(), p, false),
                Some((g, r)) => {
                    let (mut rest, e, f) = groups_at_exec(s, r, i + 1, limit);
                    let ghost old_rest = rest@;
                    rest.insert(0, g);
                    assert(rest@ =~= seq![g] + old_rest);
                    (rest, e, f)
                },
            },
        },
    }
}

/// Reads an IPv6 address at `p`: its eight groups and the position after it.
pub fn ipv6_at_exec(s: &str, p: usize) -> (r: Option<(Vec<u16>, usize)>)
    requires
        p <= s@.len(),
    ensures
        match ipv6_at(s@, p as int) {
            Some((g, q)) => r matches Some((v, e)) && v@ == g && e as int == q,
            None => r is None,
        },
        r matches Some((_, e)) ==> e <= s@.len(),
{
    let (mut head, q, h4) = groups_at_exec(s, p, 0, 8);
    proof { lemma_groups_at_len(s@, p as int, 0, 8); }
    if head.len() == 8 {
        return Some((head, q));
    }
    if h4 {
        return None;
    }
    let q1 = match char_is(s, q, ':') { Some(x) => x, None => { return None; } };
    let q2 = match char_is(s, q1, ':') { Some(x) => x, None => { return None; } };
    let (tail, e, _) = groups_at_exec(s, q2, 0, 8 - (head.len() + 1));
    proof { lemma_groups_at_len(s@, q2 as int, 0, 8 - (head@.len() + 1)); }
    let zeros = 8 - head.len() - tail.len();
    let ghost h0 = head@;
    let mut k: usize = 0;
    while k < zeros
        invariant
            k <= zeros,
            head@ == h0 + Seq::new(k as nat, |j: int| 0u16),
        decreases zeros - k,
    {
        head.push(0);
        k = k + 1;
        assert(head@ =~= h0 + Seq::new(k as nat, |j: int| 0u16));
    }
    let mut i: usize = 0;
    let ghost h1 = head@;
    while i < tail.len()
        invariant
            i <= tail@.len(),
            head@ == h1 + tail@.subrange(0, i as int),
        decreases tail@.len() - i,
    {
        head.push(tail[i]);
        i = i + 1;
        assert(head@ =~= h1 + tail@.subrange(0, i as int));
    }
    assert(tail@.subrange(0, i as int) =~= tail@);
    Some((head, e))
}

/// The groups in lower-case hexadecimal, joined by colons.
pub open spec fn groups_text(gs: Seq<u16>) -> Seq<char>
    decreases gs.len(),
{
    if gs.len() == 0 {
        Seq::empty()
    } else if gs.len() == 1 {
        hex_text(gs[0] as nat)
    } else {
        groups_text(gs.drop_last()) + seq![':'] + hex_text(gs.last() as nat)
    }
}

/// How many zero groups stand in a row from `i` on.
pub open spec fn zero_run(gs: Seq<u16>, i: int) -> int
    decreases gs.len() - i,
{
    if 0 <= i < gs.len() && gs[i] == 0 {
        1 + zero_run(gs, i + 1)
    } else {
        0
    }
}

/// Start and length of the longest run of zero groups that starts before `i`; of runs
/// equally long, the leftmost.
pub open spec fn longest_zero_run(gs: Seq<u16>, i: int) -> (int, int)
    decreases i,
{
    if i <= 0 {
        (0, 0)
    } else {
        let best = longest_zero_run(gs, i - 1);
        if zero_run(gs, i - 1) > best.1 {
            (i - 1, zero_run(gs, i - 1))
        } else {
            best
        }
    }
}

/// Whether the eight groups are an IPv4 address mapped into IPv6 (`::ffff:a.b.c.d`).
pub open spec fn is_v4_mapped(gs: Seq<u16>) -> bool {
    gs[0] == 0 && gs[1] == 0 && gs[2] == 0 && gs[3] == 0 && gs[4] == 0 && gs[5] == 0xffff
}

/// The short text of eight groups: a mapped IPv4 address in dotted form after
/// `::ffff:`; otherwise the longest run of two or more zero groups (the leftmost of
/// equal runs) written as `::`, and the other groups in hexadecimal.
pub open spec fn ipv6_text(gs: Seq<u16>) -> Seq<char> {
    if is_v4_mapped(gs) {
        seq![':', ':', 'f', 'f', 'f', 'f', ':'] + dec_text((gs[6] / 256) as nat) + seq!['.']
            + dec_text((gs[6] % 256) as nat) + seq!['.'] + dec_text((gs[7] / 256) as nat)
            + seq!['.'] + dec_text((gs[7] % 256) as nat)
    } else {
        let best = longest_zero_run(gs, 8);
        if best.1 > 1 {
            groups_text(gs.subrange(0, best.0)) + seq![':', ':'] + groups_text(
                gs.subrange(best.0 + best.1, 8),
            )
        } else {
            groups_text(gs)
        }
    }
}

pub proof fn lemma_zero_run_bound(gs: Seq<u16>, i: int)
    requires
        0 <= i <= gs.len(),
    ensures
        0 <= zero_run(gs, i) <= gs.len() - i,
    decreases gs.len() - i,
{
    if i < gs.len() {
        lemma_zero_run_bound(gs, i + 1);
    }
}

pub proof fn lemma_longest_bound(gs: Seq<u16>, i: int)
    requires
        0 <= i <= gs.len(),
    ensures
        0 <= longest_zero_run(gs, i).0,
        0 <= longest_zero_run(gs, i).1,
        longest_zero_run(gs, i).0 + longest_zero_run(gs, i).1 <= gs.len(),
    decreases i,
{
    if i > 0 {
        lemma_longest_bound(gs, i - 1);
        lemma_zero_run_bound(gs, i - 1);
    }
}

/// Appends the groups `gs[lo..hi]` joined by colons.
fn push_groups(out: &mut String, gs: &Vec<u16>, lo: usize, hi: usize)
    requires
        lo <= hi <= gs@.len(),
    ensures
        final(out)@ == old(out)@ + groups_text(gs@.subrange(lo as int, hi as int)),
{
    let ghost start = out@;
    let mut i: usize = lo;
    assert(gs@.subrange(lo as int, lo as int) =~= Seq::<u16>::empty());
    while i < hi
        invariant
            lo <= i <= hi <= gs@.len(),
            out@ == start + groups_text(gs@.subrange(lo as int, i as int)),
        decreases hi - i,
    {
        let ghost prev = gs@.subrange(lo as int, i as int);
        let ghost next = gs@.subrange(lo as int, i + 1);
        assert(next.drop_last() =~= prev);
        if i > lo {
            out.append(":");
            proof { reveal_strlit(":"); }
        }
        push_hex(out, gs[i] as u32);
        i = i + 1;
        assert(out@ =~= start + groups_text(next));
    }
}

fn zero_run_exec(gs: &Vec<u16>, i: usize) -> (r: usize)
    requires
        i <= gs@.len(),
    ensures
        r as int == zero_run(gs@, i as int),
        i + r <= gs@.len(),
{
    let mut j: usize = i;
    while j < gs.len() && gs[j] == 0
        invariant
            i <= j <= gs@.len(),
            zero_run(gs@, i as int) == (j - i) + zero_run(gs@, j as int),
        decreases gs@.len() - j,
    {
        j = j + 1;
    }
    j - i
}

/// Appends the short text of the eight groups `gs`.
pub fn push_ipv6(out: &mut String, gs: &Vec<u16>)
    requires
        gs@.len() == 8,
    ensures
        final(out)@ == old(out)@ + ipv6_text(gs@),
{
    let ghost start = out@;
    if gs[0] == 0 && gs[1] == 0 && gs[2] == 0 && gs[3] == 0 && gs[4] == 0 && gs[5] == 0xffff {
        out.append("::ffff:");
        push_dec(out, (gs[6] / 256) as u32);
        out.append(".");
        push_dec(out, (gs[6] % 256) as u32);
        out.append(".");
        push_dec(out, (gs[7] / 256) as u32);
        out.append(".");
        push_dec(out, (gs[7] % 256) as u32);
        proof { reveal_strlit("::ffff:"); reveal_strlit("."); }
        assert(out@ =~= start + ipv6_text(gs@));
        return;
    }
    let mut best_start: usize = 0;
    let mut best_len: usize = 0;
    let mut i: usize = 0;
    while i < 8
        invariant
            gs@.len() == 8,
            i <= 8,
            (best_start as int, best_len as int) == longest_zero_run(gs@, i as int),
            best_start + best_len <= 8,
        decreases 8 - i,
    {
        let z = zero_run_exec(gs, i);
        if z > best_len {
            best_start = i;
            best_len = z;
        }
        i = i + 1;
    }
    if best_len > 1 {
        push_groups(out, gs, 0, best_start);
        out.append("::");
        proof { reveal_strlit("::"); }
        push_groups(out, gs, best_start + best_len, 8);
    } else {
        push_groups(out, gs, 0, 8);
        assert(gs@.subrange(0, 8) =~= gs@);
    }
    assert(out@ =~= start + ipv6_text(gs@));
}

} // verus!
