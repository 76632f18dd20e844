//! Address arithmetic: parsing, containment and longest-prefix selection.

use vstd::arithmetic::div_mod::lemma_basic_div;
use vstd::arithmetic::power2::{lemma2_to64, lemma_pow2_adds, pow2};
use vstd::bits::lemma_u128_shr_is_div;
use vstd::prelude::*;

use crate::errors::{ErrorView, MigrationError};

verus! {

/// The two address families.
#[derive(Clone, Copy, Debug, PartialEq, Eq, Structural)]
pub enum Family {
    V4,
    V6,
}

/// Number of bits in an address of the family.
pub open spec fn width(f: Family) -> nat {
    match f {
        Family::V4 => 32,
        Family::V6 => 128,
    }
}

/// Address and prefix length of a textual IPv4 network, as ipnet parses it.
pub uninterp spec fn ipv4_net_of(s: Seq<char>) -> Option<(u32, u8)>;

/// Address and prefix length of a textual IPv6 network, as ipnet parses it.
pub uninterp spec fn ipv6_net_of(s: Seq<char>) -> Option<(u128, u8)>;

/// The value of a textual IPv4 address: the address of the host network `s/32`.
pub open spec fn ipv4_addr_of(s: Seq<char>) -> Option<u32> {
    match ipv4_net_of(s + seq!['/', '3', '2']) {
        Some(n) => Some(n.0),
        None => None,
    }
}

/// The value of a textual IPv6 address: the address of the host network `s/128`.
pub open spec fn ipv6_addr_of(s: Seq<char>) -> Option<u128> {
    match ipv6_net_of(s + seq!['/', '1', '2', '8']) {
        Some(n) => Some(n.0),
        None => None,
    }
}

/// Relies on ipnet's `FromStr` for `Ipv4Net`, applied to the host network `s/32`.
#[verifier::external_body]
fn parse_ipv4(s: &str) -> (r: Option<u32>)
    ensures
        r == ipv4_addr_of(s@),
{
    let text = format!("{}/32", s);
    text.parse::<ipnet::Ipv4Net>().ok().map(|n| u32::from(n.addr()))
}

/// Relies on ipnet's `FromStr` for `Ipv6Net`, applied to the host network `s/128`.
#[verifier::external_body]
fn parse_ipv6(s: &str) -> (r: Option<u128>)
    ensures
        r == ipv6_addr_of(s@),
{
    let text = format!("{}/128", s);
    text.parse::<ipnet::Ipv6Net>().ok().map(|n| u128::from(n.addr()))
}

/// Relies on ipnet's `FromStr` for `Ipv4Net`, which reads `addr/len` with `len` at most 32.
#[verifier::external_body]
fn parse_ipv4_net(s: &str) -> (r: Option<(u32, u8)>)
    ensures
        r == ipv4_net_of(s@),
        r is Some ==> r.unwrap().1 <= 32,
{
    s.parse::<ipnet::Ipv4Net>().ok().map(|n| (u32::from(n.addr()), n.prefix_len()))
}

/// Relies on ipnet's `FromStr` for `Ipv6Net`, which reads `addr/len` with `len` at most 128.
#[verifier::external_body]
fn parse_ipv6_net(s: &str) -> (r: Option<(u128, u8)>)
    ensures
        r == ipv6_net_of(s@),
        r is Some ==> r.unwrap().1 <= 128,
{
    s.parse::<ipnet::Ipv6Net>().ok().map(|n| (u128::from(n.addr()), n.prefix_len()))
}

/// Some dotted part of the text starts with a `0` followed by another digit, which std's
/// IPv4 address reader refuses.
pub open spec fn leading_zero_octet(s: Seq<char>) -> bool {
    exists|i: int|
        0 <= i && i + 1 < s.len() && s[i] == '0' && (i == 0 || s[i - 1] == '.') && '0' <= #[trigger] s[i
            + 1] && s[i + 1] <= '9'
}

/// Whether some dotted part of the text has a leading zero (see [`leading_zero_octet`]).
fn has_leading_zero(s: &str) -> (r: bool)
    ensures
        r == leading_zero_octet(s@),
{
    let cs = crate::text::chars_of(s);
    let mut i: usize = 0;
    while i < cs.len() && i + 1 < cs.len()
        invariant
            i <= cs@.len(),
            cs@ == s@,
            forall|k: int|
                0 <= k < i && k + 1 < s@.len() ==> !(s@[k] == '0' && (k == 0 || s@[k - 1] == '.') && '0'
                    <= #[trigger] s@[k + 1] && s@[k + 1] <= '9'),
        decreases cs@.len() - i,
    {
        if cs[i] == '0' && (i == 0 || cs[i - 1] == '.') && '0' <= cs[i + 1] && cs[i + 1] <= '9' {
            return true;
        }
        i = i + 1;
    }
    false
}

/// The parsed value of an address of the family; an IPv4 address with a leading zero in a
/// dotted part does not read.
pub open spec fn addr_of(f: Family, s: Seq<char>) -> Option<u128> {
    match f {
        Family::V4 => if leading_zero_octet(s) {
            None
        } else {
            match ipv4_addr_of(s) {
                Some(a) => Some(a as u128),
                None => None,
            }
        },
        Family::V6 => ipv6_addr_of(s),
    }
}

/// The parsed address and prefix length of a network of the family.
pub open spec fn net_of(f: Family, s: Seq<char>) -> Option<(u128, u8)> {
    match f {
        Family::V4 => match ipv4_net_of(s) {
            Some(n) => Some((n.0 as u128, n.1)),
            None => None,
        },
        Family::V6 => ipv6_net_of(s),
    }
}

/// A network is well formed when its prefix fits the family's width.
pub open spec fn net_ok(f: Family, n: (u128, u8)) -> bool {
    n.1 as nat <= width(f)
}

/// The block of `2^(width - prefix)` addresses that `a` falls in.
pub open spec fn block(f: Family, a: u128, prefix: u8) -> nat {
    a as nat / pow2((width(f) - prefix as nat) as nat)
}

/// `a` lies inside network `n`: both agree on the first `n.1` bits.
pub open spec fn net_contains(f: Family, n: (u128, u8), a: u128) -> bool {
    block(f, n.0, n.1) == block(f, a, n.1)
}

/// Parses an address of the family.
pub fn parse_addr(f: Family, s: &str) -> (r: Option<u128>)
    ensures
        r == addr_of(f, s@),
{
    match f {
        Family::V4 => {
            if has_leading_zero(s) {
                return None;
            }
            match parse_ipv4(s) {
                Some(a) => Some(a as u128),
                None => None,
            }
        },
        Family::V6 => parse_ipv6(s),
    }
}

/// Parses a network of the family.
pub fn parse_net(f: Family, s: &str) -> (r: Option<(u128, u8)>)
    ensures
        r == net_of(f, s@),
        r is Some ==> net_ok(f, r->0),
{
    match f {
        Family::V4 => match parse_ipv4_net(s) {
            Some(n) => Some((n.0 as u128, n.1)),
            None => None,
        },
        Family::V6 => parse_ipv6_net(s),
    }
}

proof fn lemma_below_pow2_128(a: u128)
    ensures
        a as nat / pow2(128) == 0,
{
    lemma2_to64();
    lemma_pow2_adds(64, 64);
    lemma_basic_div(a as int, pow2(128) as int);
}

/// Whether network `(net, prefix)` of the family holds `addr`.
pub fn contains(f: Family, net: u128, prefix: u8, addr: u128) -> (r: bool)
    requires
        net_ok(f, (net, prefix)),
    ensures
        r == net_contains(f, (net, prefix), addr),
{
    let shift: u32 = match f {
        Family::V4 => 32 - prefix as u32,
        Family::V6 => 128 - prefix as u32,
    };
    assert(shift as nat == width(f) - prefix as nat);
    if shift >= 128 {
        proof {
            lemma_below_pow2_128(net);
            lemma_below_pow2_128(addr);
        }
        true
    } else {
        proof {
            lemma_u128_shr_is_div(net, shift as u128);
            lemma_u128_shr_is_div(addr, shift as u128);
        }
        (net >> (shift as u128)) == (addr >> (shift as u128))
    }
}


/// `i` is the most specific of `nets` holding `a`: it holds `a`, no network holding `a` has a
/// longer prefix, and none declared before it that holds `a` has one as long.
pub open spec fn is_most_specific(f: Family, nets: Seq<(u128, u8)>, a: u128, i: int) -> bool {
    &&& 0 <= i < nets.len()
    &&& net_contains(f, nets[i], a)
    &&& forall|j: int|
        0 <= j < nets.len() && #[trigger] net_contains(f, nets[j], a) ==> nets[j].1 <= nets[i].1
    &&& forall|j: int| 0 <= j < i && #[trigger] net_contains(f, nets[j], a) ==> nets[j].1 < nets[i].1
}

/// Some network of `nets` holds `a`.
pub open spec fn holds_any(f: Family, nets: Seq<(u128, u8)>, a: u128) -> bool {
    exists|j: int| 0 <= j < nets.len() && #[trigger] net_contains(f, nets[j], a)
}

/// At most one index is the most specific.
pub proof fn lemma_most_specific_unique(f: Family, nets: Seq<(u128, u8)>, a: u128, i: int, k: int)
    requires
        is_most_specific(f, nets, a, i),
        is_most_specific(f, nets, a, k),
    ensures
        i == k,
{
    assert(net_contains(f, nets[i], a));
    assert(net_contains(f, nets[k], a));
}

/// When some network holds `a`, one of them is the most specific.
pub proof fn lemma_most_specific_exists(f: Family, nets: Seq<(u128, u8)>, a: u128)
    requires
        holds_any(f, nets, a),
    ensures
        exists|i: int| is_most_specific(f, nets, a, i),
    decreases nets.len(),
{
    let front = nets.drop_last();
    let last = nets.len() - 1;
    if holds_any(f, front, a) {
        lemma_most_specific_exists(f, front, a);
        let i = choose|i: int| is_most_specific(f, front, a, i);
        assert(front[i] == nets[i]);
        if net_contains(f, nets[last], a) && nets[last].1 > nets[i].1 {
            assert forall|j: int| 0 <= j < nets.len() && #[trigger] net_contains(f, nets[j], a) implies nets[j].1
                <= nets[last].1 by {
                if j < last {
                    assert(front[j] == nets[j]);
                    assert(net_contains(f, front[j], a));
                }
            }
            assert forall|j: int| 0 <= j < last && #[trigger] net_contains(f, nets[j], a) implies nets[j].1
                < nets[last].1 by {
                assert(front[j] == nets[j]);
                assert(net_contains(f, front[j], a));
            }
            assert(is_most_specific(f, nets, a, last));
        } else {
            assert forall|j: int| 0 <= j < nets.len() && #[trigger] net_contains(f, nets[j], a) implies nets[j].1
                <= nets[i].1 by {
                if j < last {
                    assert(front[j] == nets[j]);
                    assert(net_contains(f, front[j], a));
                }
            }
            assert forall|j: int| 0 <= j < i && #[trigger] net_contains(f, nets[j], a) implies nets[j].1
                < nets[i].1 by {
                assert(front[j] == nets[j]);
                assert(net_contains(f, front[j], a));
            }
            assert(is_most_specific(f, nets, a, i));
        }
    } else {
        let j0 = choose|j: int| 0 <= j < nets.len() && #[trigger] net_contains(f, nets[j], a);
        if j0 < last {
            assert(front[j0] == nets[j0]);
            assert(net_contains(f, front[j0], a));
        }
        assert forall|j: int| 0 <= j < last implies !#[trigger] net_contains(f, nets[j], a) by {
            assert(front[j] == nets[j]);
            if net_contains(f, nets[j], a) {
                assert(net_contains(f, front[j], a));
            }
        }
        assert(is_most_specific(f, nets, a, last));
    }
}

/// Longest-prefix selection: the most specific network holding `a`, the first declared on a tie.
pub fn most_specific(f: Family, nets: &Vec<(u128, u8)>, a: u128) -> (r: Option<usize>)
    requires
        forall|i: int| 0 <= i < nets@.len() ==> net_ok(f, #[trigger] nets@[i]),
    ensures
        r is Some ==> is_most_specific(f, nets@, a, r.unwrap() as int),
        r is None ==> !holds_any(f, nets@, a),
{
    let mut best: Option<usize> = None;
    let mut k: usize = 0;
    while k < nets.len()
        invariant
            k <= nets@.len(),
            forall|i: int| 0 <= i < nets@.len() ==> net_ok(f, #[trigger] nets@[i]),
            best is None ==> forall|j: int| 0 <= j < k ==> !net_contains(f, #[trigger] nets@[j], a),
            best is Some ==> {
                let b = best.unwrap() as int;
                &&& b < k
                &&& net_contains(f, nets@[b], a)
                &&& forall|j: int|
                    0 <= j < k && #[trigger] net_contains(f, nets@[j], a) ==> nets@[j].1 <= nets@[b].1
                &&& forall|j: int|
                    0 <= j < b && #[trigger] net_contains(f, nets@[j], a) ==> nets@[j].1 < nets@[b].1
            },
        decreases nets@.len() - k,
    {
        let (net, prefix) = nets[k];
        if contains(f, net, prefix, a) {
            match best {
                None => {
                    best = Some(k);
                },
                Some(b) => {
                    if prefix > nets[b].1 {
                        best = Some(k);
                    }
                },
            }
        }
        k = k + 1;
    }
    best
}

/// The views of a sequence of strings.
pub open spec fn texts(v: Seq<String>) -> Seq<Seq<char>> {
    v.map_values(|s: String| s@)
}

/// `cidrs[k]` is the first text that does not read as a network.
pub open spec fn first_bad_net(f: Family, cidrs: Seq<Seq<char>>, k: int) -> bool {
    &&& 0 <= k < cidrs.len()
    &&& net_of(f, cidrs[k]) is None
    &&& forall|j: int| 0 <= j < k ==> net_of(f, #[trigger] cidrs[j]) is Some
}

/// The networks that the texts read as.
pub open spec fn nets_of(f: Family, cidrs: Seq<Seq<char>>) -> Seq<(u128, u8)> {
    cidrs.map_values(|c: Seq<char>| net_of(f, c).unwrap())
}

/// Where `ip` is placed among the networks written as `cidrs`: the index of the most specific
/// one holding it; else the failure that comes first: an address that does not read, then the
/// first network that does not read, then `no_match`.
pub open spec fn lookup(f: Family, ip: Seq<char>, cidrs: Seq<Seq<char>>, no_match: ErrorView) -> Result<
    int,
    ErrorView,
> {
    if addr_of(f, ip) is None {
        Err(ErrorView::InvalidIpAddress(ip))
    } else if exists|k: int| first_bad_net(f, cidrs, k) {
        Err(ErrorView::InvalidCidr(cidrs[choose|k: int| first_bad_net(f, cidrs, k)]))
    } else if holds_any(f, nets_of(f, cidrs), addr_of(f, ip).unwrap()) {
        Ok(choose|i: int| is_most_specific(f, nets_of(f, cidrs), addr_of(f, ip).unwrap(), i))
    } else {
        Err(no_match)
    }
}

/// The subnet a lookup settles on is the one holding the address with the longest prefix, the
/// first declared among equals; and when the address and every network read and some network
/// holds the address, the lookup settles on one.
pub proof fn lemma_lookup_most_specific(f: Family, ip: Seq<char>, cidrs: Seq<Seq<char>>, no_match: ErrorView)
    ensures
        lookup(f, ip, cidrs, no_match) is Ok ==> is_most_specific(
            f,
            nets_of(f, cidrs),
            addr_of(f, ip).unwrap(),
            lookup(f, ip, cidrs, no_match)->Ok_0,
        ),
        addr_of(f, ip) is Some && (forall|k: int| 0 <= k < cidrs.len() ==> net_of(f, #[trigger] cidrs[k]) is Some)
            && holds_any(f, nets_of(f, cidrs), addr_of(f, ip).unwrap()) ==> lookup(f, ip, cidrs, no_match) is Ok,
{
    if addr_of(f, ip) is Some && holds_any(f, nets_of(f, cidrs), addr_of(f, ip).unwrap()) {
        lemma_most_specific_exists(f, nets_of(f, cidrs), addr_of(f, ip).unwrap());
    }
    if (forall|k: int| 0 <= k < cidrs.len() ==> net_of(f, #[trigger] cidrs[k]) is Some) {
        if exists|k: int| first_bad_net(f, cidrs, k) {
            let k = choose|k: int| first_bad_net(f, cidrs, k);
            assert(net_of(f, cidrs[k]) is Some);
        }
    }
}

/// When some text does not read as a network, a first such text exists.
pub proof fn lemma_first_bad_exists(f: Family, cidrs: Seq<Seq<char>>, k: int)
    requires
        0 <= k < cidrs.len(),
        net_of(f, cidrs[k]) is None,
    ensures
        exists|b: int| first_bad_net(f, cidrs, b),
    decreases cidrs.len(),
{
    let front = cidrs.drop_last();
    if exists|j: int| 0 <= j < front.len() && net_of(f, #[trigger] front[j]) is None {
        let j = choose|j: int| 0 <= j < front.len() && net_of(f, #[trigger] front[j]) is None;
        lemma_first_bad_exists(f, front, j);
        let b = choose|b: int| first_bad_net(f, front, b);
        assert forall|x: int| 0 <= x < b implies net_of(f, #[trigger] cidrs[x]) is Some by {
            assert(front[x] == cidrs[x]);
        }
        assert(front[b] == cidrs[b]);
        assert(first_bad_net(f, cidrs, b));
    } else {
        let last = cidrs.len() - 1;
        assert forall|x: int| 0 <= x < last implies net_of(f, #[trigger] cidrs[x]) is Some by {
            assert(front[x] == cidrs[x]);
        }
        if k < last {
            assert(front[k] == cidrs[k]);
        }
        assert(first_bad_net(f, cidrs, last));
    }
}

/// Whether a lookup settles on some network depends only on which networks are listed, not on
/// their order or repetition.
pub proof fn lemma_lookup_ok_same_networks(
    f: Family,
    ip: Seq<char>,
    c1: Seq<Seq<char>>,
    c2: Seq<Seq<char>>,
    n1: ErrorView,
    n2: ErrorView,
)
    requires
        lookup(f, ip, c1, n1) is Ok,
        forall|x: Seq<char>| c2.contains(x) ==> #[trigger] c1.contains(x),
        forall|x: Seq<char>| c1.contains(x) ==> #[trigger] c2.contains(x),
    ensures
        lookup(f, ip, c2, n2) is Ok,
{
    lemma_lookup_most_specific(f, ip, c1, n1);
    let a = addr_of(f, ip).unwrap();
    let i = lookup(f, ip, c1, n1)->Ok_0;
    assert(is_most_specific(f, nets_of(f, c1), a, i));
    assert forall|k: int| 0 <= k < c1.len() implies net_of(f, #[trigger] c1[k]) is Some by {
        if net_of(f, c1[k]) is None {
            lemma_first_bad_exists(f, c1, k);
        }
    }
    assert forall|k: int| 0 <= k < c2.len() implies net_of(f, #[trigger] c2[k]) is Some by {
        assert(c2.contains(c2[k]));
        assert(c1.contains(c2[k]));
        let j = choose|j: int| 0 <= j < c1.len() && c1[j] == c2[k];
        assert(net_of(f, c1[j]) is Some);
    }
    assert(c1.contains(c1[i]));
    assert(c2.contains(c1[i]));
    let k = choose|k: int| 0 <= k < c2.len() && c2[k] == c1[i];
    assert(nets_of(f, c2)[k] == nets_of(f, c1)[i]);
    assert(net_contains(f, nets_of(f, c2)[k], a));
    assert(holds_any(f, nets_of(f, c2), a));
    lemma_lookup_most_specific(f, ip, c2, n2);
}

/// Places `ip` among the networks written as `cidrs` (see [`lookup`]).
pub fn locate(f: Family, ip: &str, cidrs: &Vec<String>, no_match: MigrationError) -> (r: Result<
    usize,
    MigrationError,
>)
    ensures
        match lookup(f, ip@, texts(cidrs@), no_match@) {
            Ok(i) => r is Ok && r->Ok_0 == i,
            Err(e) => r is Err && r->Err_0@ == e,
        },
        r is Ok ==> r->Ok_0 < cidrs@.len(),
{
    let ghost cs = texts(cidrs@);
    let a = match parse_addr(f, ip) {
        Some(a) => a,
        None => {
            return Err(MigrationError::InvalidIpAddress(ip.to_string()));
        },
    };
    let mut nets: Vec<(u128, u8)> = Vec::new();
    let mut k: usize = 0;
    while k < cidrs.len()
        invariant
            k <= cidrs@.len(),
            cs == texts(cidrs@),
            addr_of(f, ip@) == Some(a),
            nets@.len() == k,
            forall|j: int| 0 <= j < k ==> net_of(f, #[trigger] cs[j]) is Some,
            forall|j: int| 0 <= j < k ==> nets@[j] == net_of(f, #[trigger] cs[j]).unwrap(),
            forall|j: int| 0 <= j < k ==> net_ok(f, #[trigger] nets@[j]),
        decreases cidrs@.len() - k,
    {
        match parse_net(f, cidrs[k].as_str()) {
            Some(n) => {
                assert(cs[k as int] == cidrs@[k as int]@);
                nets.push(n);
            },
            None => {
                proof {
                    assert(cs[k as int] == cidrs@[k as int]@);
                    assert(first_bad_net(f, cs, k as int));
                    let c = choose|c: int| first_bad_net(f, cs, c);
                    if c < k {
                        assert(net_of(f, cs[c]) is Some);
                    } else if c > k {
                        assert(net_of(f, cs[k as int]) is Some);
                    }
                }
                return Err(MigrationError::InvalidCidr(cidrs[k].clone()));
            },
        }
        k = k + 1;
    }
    proof {
        assert(nets@ =~= nets_of(f, cs));
        assert(!exists|c: int| first_bad_net(f, cs, c));
    }
    match most_specific(f, &nets, a) {
        Some(i) => {
            proof {
                let c = choose|c: int| is_most_specific(f, nets_of(f, cs), a, c);
                lemma_most_specific_unique(f, nets_of(f, cs), a, i as int, c);
            }
            Ok(i)
        },
        None => Err(no_match),
    }
}

/// How an address-in-network test comes out.
pub open spec fn in_subnet(f: Family, ip: Seq<char>, cidr: Seq<char>) -> Result<bool, ErrorView> {
    if addr_of(f, ip) is None {
        Err(ErrorView::InvalidIpAddress(ip))
    } else if net_of(f, cidr) is None {
        Err(ErrorView::InvalidCidr(cidr))
    } else {
        Ok(net_contains(f, net_of(f, cidr).unwrap(), addr_of(f, ip).unwrap()))
    }
}

/// Whether `ip` lies in the network `cidr` of the family.
pub fn ip_in_subnet_of(f: Family, ip: &str, cidr: &str) -> (r: Result<bool, MigrationError>)
    ensures
        match in_subnet(f, ip@, cidr@) {
            Ok(b) => r == Ok::<bool, MigrationError>(b),
            Err(e) => r is Err && r->Err_0@ == e,
        },
{
    let a = match parse_addr(f, ip) {
        Some(a) => a,
        None => {
            return Err(MigrationError::InvalidIpAddress(ip.to_string()));
        },
    };
    match parse_net(f, cidr) {
        Some((net, prefix)) => Ok(contains(f, net, prefix, a)),
        None => Err(MigrationError::InvalidCidr(cidr.to_string())),
    }
}

/// Whether the IPv4 address `ip` lies in the network `cidr`.
pub fn ip_in_subnet(ip: &str, cidr: &str) -> (r: Result<bool, MigrationError>)
    ensures
        match in_subnet(Family::V4, ip@, cidr@) {
            Ok(b) => r == Ok::<bool, MigrationError>(b),
            Err(e) => r is Err && r->Err_0@ == e,
        },
{
    ip_in_subnet_of(Family::V4, ip, cidr)
}

/// Whether the IPv6 address `ip` lies in the network `cidr`.
pub fn ip_in_subnet_v6(ip: &str, cidr: &str) -> (r: Result<bool, MigrationError>)
    ensures
        match in_subnet(Family::V6, ip@, cidr@) {
            Ok(b) => r == Ok::<bool, MigrationError>(b),
            Err(e) => r is Err && r->Err_0@ == e,
        },
{
    ip_in_subnet_of(Family::V6, ip, cidr)
}

} // verus!
