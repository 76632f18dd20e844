//! The small decisions taken while reading the legacy configuration: which interfaces have a
//! static network, and which option bundles are worth keeping.

use vstd::arithmetic::power2::pow2;
use vstd::prelude::*;

use crate::addr::{addr_of, parse_addr, Family};
use crate::errors::MigrationError;
use crate::resolve::{eq_ignore_ascii_case, same_ignoring_ascii_case};
use crate::text::{decimal, dotted, u8_of, distinct_nonempty, join, normalize_domain_search, tokens, Delims};
use crate::types::{IscDhcpOptionsV4, IscDhcpOptionsV6, IscRangeV4, IscRangeV6, IscStaticMap, IscStaticMapV6};

verus! {

/// Relies on std's `FromStr` for `u8` (see [`u8_of`]).
#[verifier::external_body]
fn parse_u8(s: &str) -> (r: Option<u8>)
    ensures
        r == u8_of(s@),
{
    s.parse::<u8>().ok()
}

/// The text `network/prefix` of the IPv4 network of the given length that holds an address, as
/// ipnet renders it: the address with its host bits cleared, dotted, then `/` and the length.
pub open spec fn ipv4_net_text_of(addr: u32, prefix: u8) -> Seq<char> {
    let host = pow2((32 - prefix) as nat);
    dotted(addr as nat / host * host) + seq!['/'] + decimal(prefix as nat)
}

/// The text `network/prefix` of the IPv6 network of the given length that holds an address, as
/// ipnet renders it.
pub uninterp spec fn ipv6_net_text_of(addr: u128, prefix: u8) -> Seq<char>;

/// The text of the network of the family.
pub open spec fn net_text(f: Family, addr: u128, prefix: u8) -> Seq<char> {
    match f {
        Family::V4 => ipv4_net_text_of(addr as u32, prefix),
        Family::V6 => ipv6_net_text_of(addr, prefix),
    }
}

/// Relies on ipnet's `Ipv4Net::new`, `trunc` and text form (`{addr}/{prefix_len}`, the address
/// in std's dotted form): the network of `prefix` bits holding `addr`.
#[verifier::external_body]
fn ipv4_net_text(addr: u32, prefix: u8) -> (r: String)
    requires
        prefix <= 32,
    ensures
        r@ == ipv4_net_text_of(addr, prefix),
{
    ipnet::Ipv4Net::new(addr.into(), prefix).unwrap().trunc().to_string()
}

/// Relies on ipnet's `Ipv6Net::new`, `trunc` and text form: the network of `prefix` bits
/// holding `addr`, written `network/prefix`.
#[verifier::external_body]
fn ipv6_net_text(addr: u128, prefix: u8) -> (r: String)
    requires
        prefix <= 128,
    ensures
        r@ == ipv6_net_text_of(addr, prefix),
{
    ipnet::Ipv6Net::new(addr.into(), prefix).unwrap().trunc().to_string()
}

/// The address is a placeholder for a dynamically configured interface.
pub open spec fn is_dynamic(f: Family, ip: Seq<char>) -> bool {
    match f {
        Family::V4 => same_ignoring_ascii_case(ip, "dhcp"@),
        Family::V6 => same_ignoring_ascii_case(ip, "dhcp6"@) || same_ignoring_ascii_case(ip, "track6"@),
    }
}

/// The width of the family as a prefix bound.
pub open spec fn max_prefix(f: Family) -> u8 {
    match f {
        Family::V4 => 32,
        Family::V6 => 128,
    }
}

/// The network an interface's static address and prefix length give: none when either is
/// empty, the address is a dynamic placeholder, or either does not read; a prefix longer than
/// the family allows is an error.
pub open spec fn interface_network(f: Family, ip: Seq<char>, prefix: Seq<char>) -> Result<
    Option<Seq<char>>,
    bool,
> {
    if ip.len() == 0 || prefix.len() == 0 || is_dynamic(f, ip) {
        Ok(None)
    } else {
        match u8_of(prefix) {
            None => Ok(None),
            Some(p) => match addr_of(f, ip) {
                None => Ok(None),
                Some(a) => if p > max_prefix(f) {
                    Err(false)
                } else {
                    Ok(Some(net_text(f, a, p)))
                },
            },
        }
    }
}

/// The network of an interface from its address and prefix-length texts (see
/// [`interface_network`]); the error is `InvalidCidr` of the prefix text.
pub fn interface_cidr(f: Family, ip: &str, prefix: &str) -> (r: Result<Option<String>, MigrationError>)
    ensures
        match interface_network(f, ip@, prefix@) {
            Ok(None) => r is Ok && r->Ok_0 is None,
            Ok(Some(c)) => r is Ok && r->Ok_0 is Some && r->Ok_0.unwrap()@ == c,
            Err(_) => r is Err && r->Err_0@ == crate::errors::ErrorView::InvalidCidr(prefix@),
        },
{
    if ip.is_empty() || prefix.is_empty() {
        return Ok(None);
    }
    let dynamic = match f {
        Family::V4 => eq_ignore_ascii_case(ip, "dhcp"),
        Family::V6 => eq_ignore_ascii_case(ip, "dhcp6") || eq_ignore_ascii_case(ip, "track6"),
    };
    if dynamic {
        return Ok(None);
    }
    let p = match parse_u8(prefix) {
        Some(p) => p,
        None => {
            return Ok(None);
        },
    };
    let a = match parse_addr(f, ip) {
        Some(a) => a,
        None => {
            return Ok(None);
        },
    };
    match f {
        Family::V4 => {
            if p > 32 {
                return Err(MigrationError::InvalidCidr(prefix.to_string()));
            }
            assert(a <= u32::MAX);
            Ok(Some(ipv4_net_text(a as u32, p)))
        },
        Family::V6 => {
            if p > 128 {
                return Err(MigrationError::InvalidCidr(prefix.to_string()));
            }
            Ok(Some(ipv6_net_text(a, p)))
        },
    }
}

/// The IPv4 bundle of an interface, kept only when it holds something; its domain-search list
/// is normalised to single spaces.
pub fn options_bundle_v4(
    iface: String,
    dns_servers: Vec<String>,
    routers: Option<String>,
    domain_name: Option<String>,
    domain_search: Option<String>,
    ntp_servers: Vec<String>,
) -> (r: Option<IscDhcpOptionsV4>)
    ensures
        r is None <==> dns_servers@.len() == 0 && ntp_servers@.len() == 0 && routers is None
            && domain_name is None && domain_search is None,
        r is Some ==> {
            let o = r.unwrap();
            &&& o.iface == iface
            &&& o.dns_servers == dns_servers
            &&& o.routers == routers
            &&& o.domain_name == domain_name
            &&& o.ntp_servers == ntp_servers
            &&& (o.domain_search is Some <==> domain_search is Some)
            &&& o.domain_search is Some ==> o.domain_search.unwrap()@ == join(
                distinct_nonempty(tokens(domain_search.unwrap()@, Delims::CommaSemicolonOrSpace)),
                seq![' '],
            )
        },
{
    if dns_servers.len() == 0 && ntp_servers.len() == 0 && routers.is_none() && domain_name.is_none()
        && domain_search.is_none() {
        return None;
    }
    let search = match &domain_search {
        Some(s) => Some(normalize_domain_search(s.as_str())),
        None => None,
    };
    Some(
        IscDhcpOptionsV4 {
            iface,
            dns_servers,
            routers,
            domain_name,
            domain_search: search,
            ntp_servers,
        },
    )
}

/// The IPv6 bundle of an interface, kept only when it holds something; its domain-search list
/// is normalised to single spaces.
pub fn options_bundle_v6(iface: String, dns_servers: Vec<String>, domain_search: Option<String>) -> (r:
    Option<IscDhcpOptionsV6>)
    ensures
        r is None <==> dns_servers@.len() == 0 && domain_search is None,
        r is Some ==> {
            let o = r.unwrap();
            &&& o.iface == iface
            &&& o.dns_servers == dns_servers
            &&& (o.domain_search is Some <==> domain_search is Some)
            &&& o.domain_search is Some ==> o.domain_search.unwrap()@ == join(
                distinct_nonempty(tokens(domain_search.unwrap()@, Delims::CommaSemicolonOrSpace)),
                seq![' '],
            )
        },
{
    if dns_servers.len() == 0 && domain_search.is_none() {
        return None;
    }
    let search = match &domain_search {
        Some(s) => Some(normalize_domain_search(s.as_str())),
        None => None,
    };
    Some(IscDhcpOptionsV6 { iface, dns_servers, domain_search: search })
}


/// An IPv4 static mapping, kept only when it has both a hardware address and an address.
pub fn static_map_v4(
    iface: String,
    mac: String,
    ipaddr: String,
    hostname: Option<String>,
    cid: Option<String>,
    descr: Option<String>,
) -> (r: Option<IscStaticMap>)
    ensures
        r is None <==> mac@.len() == 0 || ipaddr@.len() == 0,
        r is Some ==> r.unwrap() == (IscStaticMap { iface, mac, ipaddr, hostname, cid, descr }),
{
    if mac.as_str().is_empty() || ipaddr.as_str().is_empty() {
        return None;
    }
    Some(IscStaticMap { iface, mac, ipaddr, hostname, cid, descr })
}

/// An IPv6 static mapping, kept only when it has both a DUID and an address.
pub fn static_map_v6(
    iface: String,
    duid: String,
    ipaddr: String,
    hostname: Option<String>,
    descr: Option<String>,
    domain_search: Option<String>,
) -> (r: Option<IscStaticMapV6>)
    ensures
        r is None <==> duid@.len() == 0 || ipaddr@.len() == 0,
        r is Some ==> r.unwrap() == (IscStaticMapV6 { iface, duid, ipaddr, hostname, descr, domain_search }),
{
    if duid.as_str().is_empty() || ipaddr.as_str().is_empty() {
        return None;
    }
    Some(IscStaticMapV6 { iface, duid, ipaddr, hostname, descr, domain_search })
}

/// An IPv4 range, kept only when both ends are given.
pub fn range_v4(iface: String, from: String, to: String) -> (r: Option<IscRangeV4>)
    ensures
        r is None <==> from@.len() == 0 || to@.len() == 0,
        r is Some ==> r.unwrap() == (IscRangeV4 { iface, from, to }),
{
    if from.as_str().is_empty() || to.as_str().is_empty() {
        return None;
    }
    Some(IscRangeV4 { iface, from, to })
}

/// An IPv6 range, kept only when both ends are given.
pub fn range_v6(iface: String, from: String, to: String) -> (r: Option<IscRangeV6>)
    ensures
        r is None <==> from@.len() == 0 || to@.len() == 0,
        r is Some ==> r.unwrap() == (IscRangeV6 { iface, from, to }),
{
    if from.as_str().is_empty() || to.as_str().is_empty() {
        return None;
    }
    Some(IscRangeV6 { iface, from, to })
}

/// The key of an existing flat-backend range, or none when its interface or either end is
/// missing.
pub fn existing_range_key(iface: &str, start: &str, end: &str, prefix_len: &str, mask: &str) -> (r:
    Option<String>)
    ensures
        r is None <==> iface@.len() == 0 || start@.len() == 0 || end@.len() == 0,
        r is Some ==> r.unwrap()@ == crate::records::key_text(
            seq![iface@, start@, end@, prefix_len@, mask@],
        ),
{
    if iface.is_empty() || start.is_empty() || end.is_empty() {
        return None;
    }
    Some(crate::subnets::range_key(iface, start, end, prefix_len, mask))
}

} // verus!
