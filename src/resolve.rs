//! Which subnet, and which interface, an address belongs to.

use vstd::prelude::*;

use crate::addr::{
    addr_of, first_bad_net, holds_any, is_most_specific, lemma_most_specific_exists, locate, lookup,
    net_contains, net_of, nets_of, texts, Family,
};
use crate::errors::{ErrorView, MigrationError};
use crate::types::{IscStaticMap, IscStaticMapV6, Subnet, SubnetV6};

verus! {

/// ASCII upper-case letters folded to lower case; every other character kept.
pub open spec fn ascii_lower(c: char) -> char {
    if 'A' <= c && c <= 'Z' {
        ((c as u32) + 32) as char
    } else {
        c
    }
}

/// The two texts are equal when ASCII letters are compared without case.
pub open spec fn same_ignoring_ascii_case(a: Seq<char>, b: Seq<char>) -> bool {
    a.len() == b.len() && forall|i: int| 0 <= i < a.len() ==> ascii_lower(a[i]) == ascii_lower(b[i])
}

/// Relies on `str::eq_ignore_ascii_case`, which compares the texts with ASCII letters folded
/// to lower case.
#[verifier::external_body]
pub(crate) fn eq_ignore_ascii_case(a: &str, b: &str) -> (r: bool)
    ensures
        r == same_ignoring_ascii_case(a@, b@),
{
    a.eq_ignore_ascii_case(b)
}

/// The network texts of target subnets.
pub open spec fn subnet_cidrs(s: Seq<Subnet>) -> Seq<Seq<char>> {
    s.map_values(|x: Subnet| x.cidr@)
}

/// The network texts of target IPv6 subnets.
pub open spec fn subnet_cidrs_v6(s: Seq<SubnetV6>) -> Seq<Seq<char>> {
    s.map_values(|x: SubnetV6| x.cidr@)
}

/// The network texts of `(interface, network)` pairs.
pub open spec fn iface_cidrs(s: Seq<(String, String)>) -> Seq<Seq<char>> {
    s.map_values(|x: (String, String)| x.1@)
}

fn cidr_list(subnets: &[Subnet]) -> (r: Vec<String>)
    ensures
        texts(r@) == subnet_cidrs(subnets@),
{
    let mut r: Vec<String> = Vec::new();
    let mut k: usize = 0;
    while k < subnets.len()
        invariant
            k <= subnets@.len(),
            r@.len() == k,
            forall|j: int| 0 <= j < k ==> r@[j]@ == #[trigger] subnets@[j].cidr@,
        decreases subnets@.len() - k,
    {
        r.push(subnets[k].cidr.clone());
        k = k + 1;
    }
    assert(texts(r@) =~= subnet_cidrs(subnets@));
    r
}

fn cidr_list_v6(subnets: &[SubnetV6]) -> (r: Vec<String>)
    ensures
        texts(r@) == subnet_cidrs_v6(subnets@),
{
    let mut r: Vec<String> = Vec::new();
    let mut k: usize = 0;
    while k < subnets.len()
        invariant
            k <= subnets@.len(),
            r@.len() == k,
            forall|j: int| 0 <= j < k ==> r@[j]@ == #[trigger] subnets@[j].cidr@,
        decreases subnets@.len() - k,
    {
        r.push(subnets[k].cidr.clone());
        k = k + 1;
    }
    assert(texts(r@) =~= subnet_cidrs_v6(subnets@));
    r
}

fn iface_cidr_list(ifaces: &[(String, String)]) -> (r: Vec<String>)
    ensures
        texts(r@) == iface_cidrs(ifaces@),
{
    let mut r: Vec<String> = Vec::new();
    let mut k: usize = 0;
    while k < ifaces.len()
        invariant
            k <= ifaces@.len(),
            r@.len() == k,
            forall|j: int| 0 <= j < k ==> r@[j]@ == #[trigger] ifaces@[j].1@,
        decreases ifaces@.len() - k,
    {
        r.push(ifaces[k].1.clone());
        k = k + 1;
    }
    assert(texts(r@) =~= iface_cidrs(ifaces@));
    r
}

/// The identifier of the most specific subnet of the family holding `ip`, the first declared
/// on a tie.
pub fn find_subnet_in(f: Family, ip: &str, subnets: &[Subnet]) -> (r: Result<String, MigrationError>)
    ensures
        match lookup(f, ip@, subnet_cidrs(subnets@), ErrorView::NoMatchingSubnet(ip@)) {
            Ok(i) => r is Ok && 0 <= i < subnets@.len() && r->Ok_0@ == subnets@[i].uuid@,
            Err(e) => r is Err && r->Err_0@ == e,
        },
{
    let cidrs = cidr_list(subnets);
    assert(cidrs@.len() == texts(cidrs@).len());
    let no_match = MigrationError::NoMatchingSubnet(ip.to_string());
    match locate(f, ip, &cidrs, no_match) {
        Ok(i) => Ok(subnets[i].uuid.clone()),
        Err(e) => Err(e),
    }
}

/// The subnets of the IPv6 list, field for field.
pub fn as_subnets(v: &[SubnetV6]) -> (r: Vec<Subnet>)
    ensures
        r@.len() == v@.len(),
        forall|i: int|
            0 <= i < v@.len() ==> (#[trigger] r@[i]).uuid == v@[i].uuid && r@[i].cidr == v@[i].cidr
                && r@[i].iface == v@[i].iface,
        subnet_cidrs(r@) == subnet_cidrs_v6(v@),
{
    let mut r: Vec<Subnet> = Vec::new();
    let mut i: usize = 0;
    while i < v.len()
        invariant
            i <= v@.len(),
            r@.len() == i,
            forall|j: int|
                0 <= j < i ==> (#[trigger] r@[j]).uuid == v@[j].uuid && r@[j].cidr == v@[j].cidr
                    && r@[j].iface == v@[j].iface,
        decreases v@.len() - i,
    {
        r.push(
            Subnet {
                uuid: v[i].uuid.clone(),
                cidr: v[i].cidr.clone(),
                iface: crate::text::copy_text(&v[i].iface),
            },
        );
        i = i + 1;
    }
    assert(subnet_cidrs(r@) =~= subnet_cidrs_v6(v@));
    r
}

/// The identifier of the most specific IPv4 subnet holding `ip`, the first declared on a tie.
pub fn find_subnet_for_ip(ip: &str, subnets: &[Subnet]) -> (r: Result<String, MigrationError>)
    ensures
        match lookup(Family::V4, ip@, subnet_cidrs(subnets@), ErrorView::NoMatchingSubnet(ip@)) {
            Ok(i) => r is Ok && r->Ok_0@ == subnets@[i].uuid@,
            Err(e) => r is Err && r->Err_0@ == e,
        },
{
    let cidrs = cidr_list(subnets);
    assert(cidrs@.len() == texts(cidrs@).len());
    let no_match = MigrationError::NoMatchingSubnet(ip.to_string());
    match locate(Family::V4, ip, &cidrs, no_match) {
        Ok(i) => Ok(subnets[i].uuid.clone()),
        Err(e) => Err(e),
    }
}

/// The identifier of the most specific IPv6 subnet holding `ip`, the first declared on a tie.
pub fn find_subnet_for_ip_v6(ip: &str, subnets: &[SubnetV6]) -> (r: Result<String, MigrationError>)
    ensures
        match lookup(Family::V6, ip@, subnet_cidrs_v6(subnets@), ErrorView::NoMatchingSubnet(ip@)) {
            Ok(i) => r is Ok && r->Ok_0@ == subnets@[i].uuid@,
            Err(e) => r is Err && r->Err_0@ == e,
        },
{
    let cidrs = cidr_list_v6(subnets);
    assert(cidrs@.len() == texts(cidrs@).len());
    let no_match = MigrationError::NoMatchingSubnet(ip.to_string());
    match locate(Family::V6, ip, &cidrs, no_match) {
        Ok(i) => Ok(subnets[i].uuid.clone()),
        Err(e) => Err(e),
    }
}

/// The interface whose network is the most specific one holding `ip`.
pub fn iface_for(f: Family, ip: &str, ifaces: &[(String, String)]) -> (r: Result<
    String,
    MigrationError,
>)
    ensures
        match lookup(f, ip@, iface_cidrs(ifaces@), ErrorView::NoMatchingInterface(ip@)) {
            Ok(i) => r is Ok && r->Ok_0@ == ifaces@[i].0@,
            Err(e) => r is Err && r->Err_0@ == e,
        },
{
    let cidrs = iface_cidr_list(ifaces);
    assert(cidrs@.len() == texts(cidrs@).len());
    let no_match = MigrationError::NoMatchingInterface(ip.to_string());
    match locate(f, ip, &cidrs, no_match) {
        Ok(i) => Ok(ifaces[i].0.clone()),
        Err(e) => Err(e),
    }
}

/// The interface of an IPv4 address, from `(interface, network)` pairs in declaration order.
pub fn iface_for_ip(ip: &str, ifaces: &[(String, String)]) -> (r: Result<String, MigrationError>)
    ensures
        match lookup(Family::V4, ip@, iface_cidrs(ifaces@), ErrorView::NoMatchingInterface(ip@)) {
            Ok(i) => r is Ok && r->Ok_0@ == ifaces@[i].0@,
            Err(e) => r is Err && r->Err_0@ == e,
        },
{
    iface_for(Family::V4, ip, ifaces)
}

/// The interface of an IPv6 address, from `(interface, network)` pairs in declaration order.
pub fn iface_for_ip_v6(ip: &str, ifaces: &[(String, String)]) -> (r: Result<String, MigrationError>)
    ensures
        match lookup(Family::V6, ip@, iface_cidrs(ifaces@), ErrorView::NoMatchingInterface(ip@)) {
            Ok(i) => r is Ok && r->Ok_0@ == ifaces@[i].0@,
            Err(e) => r is Err && r->Err_0@ == e,
        },
{
    iface_for(Family::V6, ip, ifaces)
}

/// What checking one mapping's declared interface finds: nothing when the interface derived
/// from its address is the declared one (ASCII case aside), else the failure.
pub open spec fn iface_check(
    f: Family,
    ip: Seq<char>,
    declared: Seq<char>,
    ifaces: Seq<(String, String)>,
) -> Option<ErrorView> {
    match lookup(f, ip, iface_cidrs(ifaces), ErrorView::NoMatchingInterface(ip)) {
        Err(e) => Some(e),
        Ok(i) => if same_ignoring_ascii_case(ifaces[i].0@, declared) {
            None
        } else {
            Some(
                ErrorView::InterfaceMismatch {
                    ip: ip,
                    isc_iface: declared,
                    derived_iface: ifaces[i].0@,
                },
            )
        },
    }
}

/// Checks one mapping (see [`iface_check`]).
pub fn check_mapping_iface(
    f: Family,
    ip: &String,
    declared: &String,
    ifaces: &[(String, String)],
) -> (r: Result<(), MigrationError>)
    ensures
        match iface_check(f, ip@, declared@, ifaces@) {
            None => r is Ok,
            Some(e) => r is Err && r->Err_0@ == e,
        },
{
    let derived = iface_for(f, ip.as_str(), ifaces)?;
    if !eq_ignore_ascii_case(derived.as_str(), declared.as_str()) {
        return Err(
            MigrationError::InterfaceMismatch {
                ip: ip.clone(),
                isc_iface: declared.clone(),
                derived_iface: derived,
            },
        );
    }
    Ok(())
}

/// The interface checks of IPv4 mappings, in order.
pub open spec fn checks_v4(m: Seq<IscStaticMap>, ifaces: Seq<(String, String)>) -> Seq<
    Option<ErrorView>,
> {
    m.map_values(|x: IscStaticMap| iface_check(Family::V4, x.ipaddr@, x.iface@, ifaces))
}

/// The interface checks of IPv6 mappings, in order.
pub open spec fn checks_v6(m: Seq<IscStaticMapV6>, ifaces: Seq<(String, String)>) -> Seq<
    Option<ErrorView>,
> {
    m.map_values(|x: IscStaticMapV6| iface_check(Family::V6, x.ipaddr@, x.iface@, ifaces))
}

/// All checks pass.
pub open spec fn all_pass(c: Seq<Option<ErrorView>>) -> bool {
    forall|i: int| 0 <= i < c.len() ==> c[i] is None
}

/// `e` is the failure of the first check that fails.
pub open spec fn first_failure(c: Seq<Option<ErrorView>>, e: ErrorView) -> bool {
    exists|k: int|
        0 <= k < c.len() && (forall|j: int| 0 <= j < k ==> c[j] is None) && c[k] == Some(e)
}

/// A mapping whose address lies in some interface's network, but in none of the networks of
/// interfaces named as it declares, fails its check with an interface mismatch (given that
/// its address and every network read).
pub proof fn lemma_foreign_address_mismatch(
    f: Family,
    ip: Seq<char>,
    declared: Seq<char>,
    ifaces: Seq<(String, String)>,
)
    requires
        addr_of(f, ip) is Some,
        forall|k: int| 0 <= k < ifaces.len() ==> net_of(f, (#[trigger] ifaces[k]).1@) is Some,
        exists|k: int|
            0 <= k < ifaces.len() && net_contains(
                f,
                net_of(f, (#[trigger] ifaces[k]).1@).unwrap(),
                addr_of(f, ip).unwrap(),
            ),
        forall|k: int|
            0 <= k < ifaces.len() && same_ignoring_ascii_case((#[trigger] ifaces[k]).0@, declared)
                ==> !net_contains(f, net_of(f, ifaces[k].1@).unwrap(), addr_of(f, ip).unwrap()),
    ensures
        iface_check(f, ip, declared, ifaces) matches Some(ErrorView::InterfaceMismatch { .. }),
{
    let cs = iface_cidrs(ifaces);
    let a = addr_of(f, ip).unwrap();
    let nets = nets_of(f, cs);
    assert forall|k: int| 0 <= k < cs.len() implies net_of(f, #[trigger] cs[k]) is Some by {
        assert(cs[k] == ifaces[k].1@);
    }
    if exists|k: int| first_bad_net(f, cs, k) {
        let k = choose|k: int| first_bad_net(f, cs, k);
        assert(net_of(f, cs[k]) is Some);
    }
    let w = choose|k: int|
        0 <= k < ifaces.len() && net_contains(f, net_of(f, (#[trigger] ifaces[k]).1@).unwrap(), a);
    assert(nets[w] == net_of(f, cs[w]).unwrap());
    assert(cs[w] == ifaces[w].1@);
    assert(net_contains(f, nets[w], a));
    assert(holds_any(f, nets, a));
    lemma_most_specific_exists(f, nets, a);
    let i = choose|i: int| is_most_specific(f, nets, a, i);
    assert(nets[i] == net_of(f, cs[i]).unwrap());
    assert(cs[i] == ifaces[i].1@);
    assert(!same_ignoring_ascii_case(ifaces[i].0@, declared));
}

/// There is only one first failure.
pub proof fn lemma_first_failure_unique(c: Seq<Option<ErrorView>>, a: ErrorView, b: ErrorView)
    requires
        first_failure(c, a),
        first_failure(c, b),
    ensures
        a == b,
{
    let i = choose|k: int|
        0 <= k < c.len() && (forall|j: int| 0 <= j < k ==> c[j] is None) && c[k] == Some(a);
    let k = choose|k: int|
        0 <= k < c.len() && (forall|j: int| 0 <= j < k ==> c[j] is None) && c[k] == Some(b);
    if i < k {
        assert(c[i] is None);
    } else if k < i {
        assert(c[k] is None);
    }
}

/// Checks that every IPv4 mapping sits on the interface its address derives to; fails with
/// the first failure.
pub fn validate_mapping_ifaces_v4(mappings: &[IscStaticMap], ifaces: &[(String, String)]) -> (r:
    Result<(), MigrationError>)
    ensures
        r is Ok <==> all_pass(checks_v4(mappings@, ifaces@)),
        r is Err ==> first_failure(checks_v4(mappings@, ifaces@), r->Err_0@),
{
    let ghost c = checks_v4(mappings@, ifaces@);
    let mut k: usize = 0;
    while k < mappings.len()
        invariant
            k <= mappings@.len(),
            c == checks_v4(mappings@, ifaces@),
            forall|j: int| 0 <= j < k ==> c[j] is None,
        decreases mappings@.len() - k,
    {
        let m = &mappings[k];
        match check_mapping_iface(Family::V4, &m.ipaddr, &m.iface, ifaces) {
            Ok(()) => {},
            Err(e) => {
                assert(c[k as int] == Some(e@));
                return Err(e);
            },
        }
        k = k + 1;
    }
    Ok(())
}

/// Checks that every IPv6 mapping sits on the interface its address derives to; fails with
/// the first failure.
pub fn validate_mapping_ifaces_v6(mappings: &[IscStaticMapV6], ifaces: &[(String, String)]) -> (r:
    Result<(), MigrationError>)
    ensures
        r is Ok <==> all_pass(checks_v6(mappings@, ifaces@)),
        r is Err ==> first_failure(checks_v6(mappings@, ifaces@), r->Err_0@),
{
    let ghost c = checks_v6(mappings@, ifaces@);
    let mut k: usize = 0;
    while k < mappings.len()
        invariant
            k <= mappings@.len(),
            c == checks_v6(mappings@, ifaces@),
            forall|j: int| 0 <= j < k ==> c[j] is None,
        decreases mappings@.len() - k,
    {
        let m = &mappings[k];
        match check_mapping_iface(Family::V6, &m.ipaddr, &m.iface, ifaces) {
            Ok(()) => {},
            Err(e) => {
                assert(c[k as int] == Some(e@));
                return Err(e);
            },
        }
        k = k + 1;
    }
    Ok(())
}

} // verus!
