//! The migration engine: a read-only scan and a conversion plan for each backend.
//!
//! The engine reads what the document holds through plain values and returns what to write
//! back; walking and editing the document itself is left to the caller.

use vstd::prelude::*;

use crate::addr::{addr_of, lemma_lookup_ok_same_networks, lookup, net_contains, net_of, texts, Family};
use crate::errors::{ErrorView, MigrationError};
use crate::ledger::{admitted, count_true, keys_view, Key, SLOT_ADDRESS, SLOT_CLIENT, SLOT_HARDWARE};
use crate::options::{
    bundle_names, kea_fields_v4, kea_fields_v6, last_bundle_for, named_view, plan_follows,
    all_options_v4, all_options_v6, option_fields, option_key_parts, spec_view, spec_views,
    OptionView, dnsmasq_option_items, dnsmasq_option_specs_from_isc, kea_bundle_v4, kea_bundle_v6,
    plan_kea_options, OptionBundle, SubnetOptionPlan,
};
use crate::records::{fields_view, has_key, host_fields_v4, host_fields_v6, key_text, merge_keyed, KeyedChange, Record};
use crate::reserve::{
    resolves,
    claims_by_address, claims_by_address_duid, claims_by_address_hw, count_present, count_some,
    hosts_v4, hosts_v6, lemma_counts_agree, reservation_ok_v4, reservation_ok_v6, reservations_v4,
    reservations_v6, seed_keys, seed_ledger,
};
use crate::resolve::{
    all_pass, as_subnets, checks_v4, iface_check, lemma_foreign_address_mismatch,
    same_ignoring_ascii_case, subnet_cidrs, subnet_cidrs_v6, checks_v6, first_failure, validate_mapping_ifaces_v4,
    validate_mapping_ifaces_v6,
};
use crate::services::{enabled_interfaces, enabled_names, merge_interface_list, sorted_texts};
use crate::text::{distinct_nonempty, tokens, Delims};
use crate::subnets::{
    build_desired_subnets, copy_subnet, desired_cidrs, desired_subnets, desired_views, dnsmasq_range_items,
    all_range_parts, range_field_names, range_item_ok, ranges_view, ranges_view_v6,
    subnet_changes_follow, zip_fields, DesiredView, merge_desired_subnets, range_triples, range_triples_v6,
    subnets_after_merge, DesiredSubnet, SubnetChange,
};
use crate::types::{
    backend_name, Backend, IscDhcpOptionsV4, IscDhcpOptionsV6, IscRangeV4, IscRangeV6, IscStaticMap,
    IscStaticMapV6, MigrationOptions, MigrationStats, Subnet, SubnetV6,
};

verus! {

/// What the engine reads of the legacy configuration.
#[derive(Debug)]
pub struct SourceData {
    pub mappings: Vec<IscStaticMap>,
    pub mappings_v6: Vec<IscStaticMapV6>,
    pub ranges: Vec<IscRangeV4>,
    pub ranges_v6: Vec<IscRangeV6>,
    pub options_v4: Vec<IscDhcpOptionsV4>,
    pub options_v6: Vec<IscDhcpOptionsV6>,
    /// `(interface, network)` of every interface with a static IPv4 network, in order.
    pub iface_cidrs: Vec<(String, String)>,
    /// `(interface, network)` of every interface with a static IPv6 network, in order.
    pub iface_cidrs_v6: Vec<(String, String)>,
    /// Every legacy IPv4 service interface with its enable flag.
    pub flags_v4: Vec<(String, Option<String>)>,
    /// Every legacy IPv6 service interface with its enable flag.
    pub flags_v6: Vec<(String, Option<String>)>,
}

/// What the engine reads of the subnet-oriented target.
#[derive(Debug)]
pub struct KeaData {
    /// The IPv4 service section exists.
    pub has_dhcp4: bool,
    /// The IPv6 service section exists.
    pub has_dhcp6: bool,
    pub subnets: Vec<Subnet>,
    pub subnets_v6: Vec<SubnetV6>,
    pub reservation_ips: Vec<String>,
    pub reservation_ips_v6: Vec<String>,
    pub reservation_duids_v6: Vec<String>,
    /// `(subnet identifier, option name, value)` of the options IPv4 subnets already carry.
    pub option_values: Vec<(String, String, String)>,
    /// `(subnet identifier, option name, value)` of the options IPv6 subnets already carry.
    pub option_values_v6: Vec<(String, String, String)>,
    /// The IPv4 listening-interface list.
    pub interfaces: Option<String>,
    /// The IPv6 listening-interface list.
    pub interfaces_v6: Option<String>,
}

/// What a conversion to the subnet-oriented backend writes.
#[derive(Debug)]
pub struct KeaConversion {
    pub stats: MigrationStats,
    /// One entry per desired IPv4 subnet; `None` where it is skipped.
    pub subnet_changes: Vec<Option<SubnetChange>>,
    pub subnet_changes_v6: Vec<Option<SubnetChange>>,
    /// The new IPv4 listening-interface list, when it changes.
    pub interfaces: Option<Vec<String>>,
    pub interfaces_v6: Option<Vec<String>>,
    /// One entry per IPv4 subnet of `subnets`.
    pub option_plans: Vec<Option<SubnetOptionPlan>>,
    pub option_plans_v6: Vec<Option<SubnetOptionPlan>>,
    /// One entry per IPv4 mapping; `None` where it is skipped.
    pub reservations: Vec<Option<Record>>,
    pub reservations_v6: Vec<Option<Record>>,
    /// The IPv4 subnets once the new ones are merged.
    pub subnets: Vec<Subnet>,
    pub subnets_v6: Vec<Subnet>,
}

/// The ledger of IPv4 reservations already in the subnet-oriented target.
pub open spec fn kea_seed_v4(d: KeaData) -> Seq<(u8, Seq<char>)> {
    seed_keys(SLOT_ADDRESS, d.reservation_ips@)
}

/// The ledger of IPv6 reservations already in the subnet-oriented target.
pub open spec fn kea_seed_v6(d: KeaData) -> Seq<(u8, Seq<char>)> {
    seed_keys(SLOT_ADDRESS, d.reservation_ips_v6@) + seed_keys(SLOT_CLIENT, d.reservation_duids_v6@)
}

/// Which IPv4 mappings become reservations.
pub open spec fn kea_verdicts_v4(s: SourceData, d: KeaData) -> Seq<bool> {
    admitted(claims_by_address(s.mappings@), kea_seed_v4(d)).0
}

/// Which IPv6 mappings become reservations.
pub open spec fn kea_verdicts_v6(s: SourceData, d: KeaData) -> Seq<bool> {
    admitted(claims_by_address_duid(s.mappings_v6@), kea_seed_v6(d)).0
}

/// The target already holds a reservation.
pub open spec fn kea_has_records(d: KeaData) -> bool {
    d.reservation_ips@.len() > 0 || d.reservation_ips_v6@.len() > 0 || d.reservation_duids_v6@.len() > 0
}

/// A family with mappings but no target subnet needs its service section and subnet creation.
pub open spec fn kea_presence_ok(s: SourceData, d: KeaData, o: MigrationOptions) -> bool {
    &&& (s.mappings@.len() > 0 && d.subnets@.len() == 0 ==> d.has_dhcp4 && o.create_subnets)
    &&& (s.mappings_v6@.len() > 0 && d.subnets_v6@.len() == 0 ==> d.has_dhcp6 && o.create_subnets)
}

/// Every family with mappings has target subnets.
pub open spec fn kea_subnets_present(s: SourceData, d: KeaData) -> bool {
    &&& (s.mappings@.len() > 0 ==> d.subnets@.len() > 0)
    &&& (s.mappings_v6@.len() > 0 ==> d.subnets_v6@.len() > 0)
}

/// Every mapping the ledger accepts has a target subnet holding its address.
pub open spec fn kea_all_resolve(s: SourceData, d: KeaData) -> bool {
    &&& forall|j: int|
        0 <= j < s.mappings@.len() && #[trigger] kea_verdicts_v4(s, d)[j] ==> lookup(
            Family::V4,
            s.mappings@[j].ipaddr@,
            subnet_cidrs(d.subnets@),
            ErrorView::NoMatchingSubnet(s.mappings@[j].ipaddr@),
        ) is Ok
    &&& forall|j: int|
        0 <= j < s.mappings_v6@.len() && #[trigger] kea_verdicts_v6(s, d)[j] ==> lookup(
            Family::V6,
            s.mappings_v6@[j].ipaddr@,
            subnet_cidrs_v6(d.subnets_v6@),
            ErrorView::NoMatchingSubnet(s.mappings_v6@[j].ipaddr@),
        ) is Ok
}

/// The networks of desired subnets.
pub open spec fn view_cidrs(d: Seq<DesiredView>) -> Seq<Seq<char>> {
    d.map_values(|x: DesiredView| x.1)
}

/// The desired IPv4 subnets when they are asked for and build, else none.
pub open spec fn desired_v4_of(s: SourceData, want: bool) -> Seq<DesiredView> {
    if want && desired_subnets(Family::V4, ranges_view(s.ranges@), s.iface_cidrs@) is Ok {
        desired_subnets(Family::V4, ranges_view(s.ranges@), s.iface_cidrs@)->Ok_0
    } else {
        Seq::empty()
    }
}

/// The desired IPv6 subnets when they are asked for and build, else none.
pub open spec fn desired_v6_of(s: SourceData, want: bool) -> Seq<DesiredView> {
    if want && desired_subnets(Family::V6, ranges_view_v6(s.ranges_v6@), s.iface_cidrs_v6@) is Ok {
        desired_subnets(Family::V6, ranges_view_v6(s.ranges_v6@), s.iface_cidrs_v6@)->Ok_0
    } else {
        Seq::empty()
    }
}

/// The failure of building the desired subnets, IPv4 first, when they are asked for.
pub open spec fn desired_failure(s: SourceData, want: bool) -> Option<ErrorView> {
    if !want {
        None
    } else if desired_subnets(Family::V4, ranges_view(s.ranges@), s.iface_cidrs@) is Err {
        Some(desired_subnets(Family::V4, ranges_view(s.ranges@), s.iface_cidrs@)->Err_0)
    } else if desired_subnets(Family::V6, ranges_view_v6(s.ranges_v6@), s.iface_cidrs_v6@) is Err {
        Some(desired_subnets(Family::V6, ranges_view_v6(s.ranges_v6@), s.iface_cidrs_v6@)->Err_0)
    } else {
        None
    }
}

/// The first failing interface check, IPv4 mappings first.
pub open spec fn check_failure(s: SourceData) -> Option<ErrorView> {
    if !all_pass(checks_v4(s.mappings@, s.iface_cidrs@)) {
        Some(choose|e: ErrorView| first_failure(checks_v4(s.mappings@, s.iface_cidrs@), e))
    } else if !all_pass(checks_v6(s.mappings_v6@, s.iface_cidrs_v6@)) {
        Some(choose|e: ErrorView| first_failure(checks_v6(s.mappings_v6@, s.iface_cidrs_v6@), e))
    } else {
        None
    }
}

/// The backend-presence failure of the subnet-oriented backend, given how many subnets of each
/// family are to be created.
pub open spec fn kea_presence_failure(s: SourceData, d: KeaData, o: MigrationOptions, n4: nat, n6: nat) -> Option<
    ErrorView,
> {
    let kea = backend_name(Backend::Kea);
    if s.mappings@.len() > 0 && d.subnets@.len() == 0 && !d.has_dhcp4 {
        Some(ErrorView::BackendNotConfigured { backend: kea })
    } else if s.mappings@.len() > 0 && d.subnets@.len() == 0 && !o.create_subnets {
        Some(ErrorView::NoBackendSubnets { backend: kea })
    } else if s.mappings_v6@.len() > 0 && d.subnets_v6@.len() == 0 && !d.has_dhcp6 {
        Some(ErrorView::BackendV6NotConfigured { backend: kea })
    } else if s.mappings_v6@.len() > 0 && d.subnets_v6@.len() == 0 && !o.create_subnets {
        Some(ErrorView::NoBackendSubnetsV6 { backend: kea })
    } else if o.create_subnets && s.mappings@.len() > 0 && d.subnets@.len() == 0 && n4 == 0 {
        Some(ErrorView::NoRangesForSubnets { v6: false })
    } else if o.create_subnets && s.mappings_v6@.len() > 0 && d.subnets_v6@.len() == 0 && n6 == 0 {
        Some(ErrorView::NoRangesForSubnets { v6: true })
    } else {
        None
    }
}

/// The `fail_if_existing` failure of the subnet-oriented backend; the count is that of the
/// existing reservation addresses of both families, saturated.
pub open spec fn kea_existing_failure(d: KeaData, o: MigrationOptions) -> Option<ErrorView> {
    if o.fail_if_existing && kea_has_records(d) {
        let total = d.reservation_ips@.len() + d.reservation_ips_v6@.len();
        Some(
            ErrorView::ExistingRecordsFound {
                backend: Backend::Kea,
                count: if total < usize::MAX {
                    total
                } else {
                    usize::MAX as nat
                },
            },
        )
    } else {
        None
    }
}

/// The first failure of the phases before any record is built, in order: building the desired
/// subnets (when `want`), the interface checks, backend presence, `fail_if_existing`.
pub open spec fn kea_gate(s: SourceData, d: KeaData, o: MigrationOptions, want: bool) -> Option<ErrorView> {
    if desired_failure(s, want) is Some {
        desired_failure(s, want)
    } else if check_failure(s) is Some {
        check_failure(s)
    } else if kea_presence_failure(s, d, o, desired_v4_of(s, want).len(), desired_v6_of(s, want).len()) is Some {
        kea_presence_failure(s, d, o, desired_v4_of(s, want).len(), desired_v6_of(s, want).len())
    } else {
        kea_existing_failure(d, o)
    }
}

/// Every mapping the ledger accepts has its address in some network of the target once the
/// desired subnets are merged (when subnets are created); the networks read and the most
/// specific one is found.
pub open spec fn kea_resolve_ok(s: SourceData, d: KeaData, o: MigrationOptions, want: bool) -> bool {
    let n4 = subnet_cidrs(d.subnets@) + if o.create_subnets {
        view_cidrs(desired_v4_of(s, want))
    } else {
        Seq::empty()
    };
    let n6 = subnet_cidrs_v6(d.subnets_v6@) + if o.create_subnets {
        view_cidrs(desired_v6_of(s, want))
    } else {
        Seq::empty()
    };
    &&& forall|j: int|
        0 <= j < s.mappings@.len() && #[trigger] kea_verdicts_v4(s, d)[j] ==> lookup(
            Family::V4,
            s.mappings@[j].ipaddr@,
            n4,
            ErrorView::NoMatchingSubnet(s.mappings@[j].ipaddr@),
        ) is Ok
    &&& forall|j: int|
        0 <= j < s.mappings_v6@.len() && #[trigger] kea_verdicts_v6(s, d)[j] ==> lookup(
            Family::V6,
            s.mappings_v6@[j].ipaddr@,
            n6,
            ErrorView::NoMatchingSubnet(s.mappings_v6@[j].ipaddr@),
        ) is Ok
}

/// The interfaces of desired subnets.
pub open spec fn view_ifaces(d: Seq<DesiredView>) -> Seq<Seq<char>> {
    d.map_values(|x: DesiredView| x.0)
}

/// A listening-interface list merged with interfaces `new`: the old comma list's items and
/// the new ones, each once, ascending.
pub open spec fn merged_list(l: Seq<String>, old: Option<String>, new: Seq<Seq<char>>) -> bool {
    &&& texts(l).to_multiset() == distinct_nonempty(
        match old {
            Some(o) => tokens(o@, Delims::Comma),
            None => Seq::empty(),
        } + new,
    ).to_multiset()
    &&& sorted_texts(texts(l))
}

/// The subnet list of a family is not empty once desired subnets are merged in (when subnets
/// are created).
pub open spec fn merged_nonempty(existing: nat, o: MigrationOptions, desired: Seq<DesiredView>) -> bool {
    existing > 0 || (o.create_subnets && desired.len() > 0)
}

/// A list holds exactly the members of two others.
proof fn lemma_union_lookup(
    f: Family,
    ip: Seq<char>,
    a: Seq<Seq<char>>,
    b: Seq<Seq<char>>,
    r: Seq<Seq<char>>,
    nm: ErrorView,
)
    requires
        forall|c: Seq<char>| #[trigger] r.contains(c) <==> a.contains(c) || b.contains(c),
        lookup(f, ip, a + b, nm) is Ok,
    ensures
        lookup(f, ip, r, nm) is Ok,
{
    assert forall|c: Seq<char>| (a + b).contains(c) implies #[trigger] r.contains(c) by {
        let x = choose|x: int| 0 <= x < (a + b).len() && (a + b)[x] == c;
        if x < a.len() {
            assert(a[x] == c);
            assert(a.contains(c));
        } else {
            assert(b[x - a.len()] == c);
            assert(b.contains(c));
        }
    }
    assert forall|c: Seq<char>| r.contains(c) implies #[trigger] (a + b).contains(c) by {
        if a.contains(c) {
            let x = choose|x: int| 0 <= x < a.len() && a[x] == c;
            assert((a + b)[x] == c);
        } else {
            let x = choose|x: int| 0 <= x < b.len() && b[x] == c;
            assert((a + b)[a.len() + x] == c);
        }
    }
    lemma_lookup_ok_same_networks(f, ip, a + b, r, nm, nm);
}

/// A list holding exactly the members of two others is empty exactly when both are.
proof fn lemma_union_nonempty(a: Seq<Seq<char>>, b: Seq<Seq<char>>, r: Seq<Seq<char>>)
    requires
        forall|c: Seq<char>| #[trigger] r.contains(c) <==> a.contains(c) || b.contains(c),
    ensures
        r.len() > 0 <==> a.len() > 0 || b.len() > 0,
{
    if r.len() > 0 {
        assert(r.contains(r[0]));
    }
    if a.len() > 0 {
        assert(a.contains(a[0]));
        assert(r.contains(a[0]));
    }
    if b.len() > 0 {
        assert(b.contains(b[0]));
        assert(r.contains(b[0]));
    }
}

/// Enabling the subnet-oriented backend can be done: each family that ends up with subnets has
/// its service section.
pub open spec fn kea_enable_ok(s: SourceData, d: KeaData, o: MigrationOptions, want: bool) -> bool {
    !o.enable_backend || ((merged_nonempty(d.subnets@.len(), o, desired_v4_of(s, want)) ==> d.has_dhcp4)
        && (merged_nonempty(d.subnets_v6@.len(), o, desired_v6_of(s, want)) ==> d.has_dhcp6))
}

/// Counts that a finished scan or conversion reports for the subnet-oriented backend.
pub open spec fn kea_counts_ok(st: MigrationStats, s: SourceData, d: KeaData) -> bool {
    &&& st.isc_mappings_found == s.mappings@.len()
    &&& st.isc_mappings_v6_found == s.mappings_v6@.len()
    &&& st.reservations_to_create == count_true(kea_verdicts_v4(s, d))
    &&& st.reservations_skipped == s.mappings@.len() - count_true(kea_verdicts_v4(s, d))
    &&& st.reservations_v6_to_create == count_true(kea_verdicts_v6(s, d))
    &&& st.reservations_v6_skipped == s.mappings_v6@.len() - count_true(kea_verdicts_v6(s, d))
}

/// What holds of every run on the subnet-oriented backend, scan or conversion: it succeeds
/// only when every mapping sits on its interface and `fail_if_existing` finds nothing; when
/// neither subnets nor enabling are asked for, the first interface failure is the result; and
/// a success reports the ledger's counts.
pub open spec fn kea_run_ok(
    s: SourceData,
    d: KeaData,
    o: MigrationOptions,
    r: Result<MigrationStats, ErrorView>,
) -> bool {
    &&& r is Ok ==> all_pass(checks_v4(s.mappings@, s.iface_cidrs@)) && all_pass(
        checks_v6(s.mappings_v6@, s.iface_cidrs_v6@),
    )
    &&& r is Ok ==> !(o.fail_if_existing && kea_has_records(d))
    &&& r is Ok ==> kea_presence_ok(s, d, o)
    &&& forall|e: ErrorView|
        !o.create_subnets && !o.enable_backend && #[trigger] first_failure(
            checks_v4(s.mappings@, s.iface_cidrs@),
            e,
        ) ==> r == Err::<MigrationStats, ErrorView>(e)
    &&& (!o.create_subnets && !o.enable_backend && all_pass(checks_v4(s.mappings@, s.iface_cidrs@))
        && all_pass(checks_v6(s.mappings_v6@, s.iface_cidrs_v6@)) && kea_subnets_present(s, d) && !(
    o.fail_if_existing && kea_has_records(d)) && kea_all_resolve(s, d) ==> r is Ok)
    &&& r is Ok ==> kea_counts_ok(r->Ok_0, s, d)
}

fn empty_desired() -> (r: Vec<DesiredSubnet>)
    ensures
        r@.len() == 0,
{
    Vec::new()
}

fn copy_subnets(v: &[Subnet]) -> (r: Vec<Subnet>)
    ensures
        r@ == v@,
{
    let mut r: Vec<Subnet> = Vec::new();
    let mut i: usize = 0;
    while i < v.len()
        invariant
            i <= v@.len(),
            r@ == v@.take(i as int),
        decreases v@.len() - i,
    {
        r.push(copy_subnet(&v[i]));
        assert(r@ =~= v@.take(i + 1));
        i = i + 1;
    }
    assert(v@.take(v@.len() as int) =~= v@);
    r
}

fn kea_bundles_v4(o: &[IscDhcpOptionsV4]) -> (r: Vec<OptionBundle>)
    ensures
        bundle_names(r@) == o@.map_values(|x: IscDhcpOptionsV4| x.iface@),
        forall|i: int| 0 <= i < o@.len() ==> named_view((#[trigger] r@[i]).fields@) == kea_fields_v4(o@[i]),
{
    let mut r: Vec<OptionBundle> = Vec::new();
    let mut i: usize = 0;
    while i < o.len()
        invariant
            i <= o@.len(),
            r@.len() == i,
            forall|j: int| 0 <= j < i ==> (#[trigger] r@[j]).iface@ == o@[j].iface@ && named_view(r@[j].fields@) == kea_fields_v4(o@[j]),
        decreases o@.len() - i,
    {
        r.push(kea_bundle_v4(&o[i]));
        i = i + 1;
    }
    assert(bundle_names(r@) =~= o@.map_values(|x: IscDhcpOptionsV4| x.iface@));
    r
}

fn kea_bundles_v6(o: &[IscDhcpOptionsV6]) -> (r: Vec<OptionBundle>)
    ensures
        bundle_names(r@) == o@.map_values(|x: IscDhcpOptionsV6| x.iface@),
        forall|i: int| 0 <= i < o@.len() ==> named_view((#[trigger] r@[i]).fields@) == kea_fields_v6(o@[i]),
{
    let mut r: Vec<OptionBundle> = Vec::new();
    let mut i: usize = 0;
    while i < o.len()
        invariant
            i <= o@.len(),
            r@.len() == i,
            forall|j: int| 0 <= j < i ==> (#[trigger] r@[j]).iface@ == o@[j].iface@ && named_view(r@[j].fields@) == kea_fields_v6(o@[j]),
        decreases o@.len() - i,
    {
        r.push(kea_bundle_v6(&o[i]));
        i = i + 1;
    }
    assert(bundle_names(r@) =~= o@.map_values(|x: IscDhcpOptionsV6| x.iface@));
    r
}

fn desired_ifaces(d: &Vec<DesiredSubnet>) -> (r: Vec<String>)
    ensures
        texts(r@) == view_ifaces(desired_views(d@)),
        r@.len() == d@.len(),
        forall|i: int| 0 <= i < d@.len() ==> (#[trigger] r@[i])@ == d@[i].iface@,
{
    let mut r: Vec<String> = Vec::new();
    let mut i: usize = 0;
    while i < d.len()
        invariant
            i <= d@.len(),
            r@.len() == i,
            forall|j: int| 0 <= j < i ==> (#[trigger] r@[j])@ == d@[j].iface@,
        decreases d@.len() - i,
    {
        r.push(d[i].iface.clone());
        i = i + 1;
    }
    assert(texts(r@) =~= view_ifaces(desired_views(d@)));
    r
}

/// The backend-presence checks of the subnet-oriented backend: a family with mappings but
/// no subnet needs its service section, and then either existing subnets or, when subnets are
/// created, ranges to create them from.
fn kea_presence(
    src: &SourceData,
    data: &KeaData,
    options: &MigrationOptions,
    desired: &Vec<DesiredSubnet>,
    desired_v6: &Vec<DesiredSubnet>,
) -> (r: Result<(), MigrationError>)
    ensures
        r is Ok ==> kea_presence_ok(*src, *data, *options),
        kea_subnets_present(*src, *data) ==> r is Ok,
        r is Ok ==> kea_presence_failure(*src, *data, *options, desired@.len(), desired_v6@.len()) is None,
        r is Err ==> kea_presence_failure(*src, *data, *options, desired@.len(), desired_v6@.len())
            == Some(r->Err_0@),
{
    if src.mappings.len() > 0 && data.subnets.len() == 0 {
        if !data.has_dhcp4 {
            return Err(MigrationError::BackendNotConfigured { backend: Backend::Kea.name() });
        }
        if !options.create_subnets {
            return Err(MigrationError::NoBackendSubnets { backend: Backend::Kea.name() });
        }
    }
    if src.mappings_v6.len() > 0 && data.subnets_v6.len() == 0 {
        if !data.has_dhcp6 {
            return Err(MigrationError::BackendV6NotConfigured { backend: Backend::Kea.name() });
        }
        if !options.create_subnets {
            return Err(MigrationError::NoBackendSubnetsV6 { backend: Backend::Kea.name() });
        }
    }
    if options.create_subnets && src.mappings.len() > 0 && data.subnets.len() == 0 && desired.len()
        == 0 {
        return Err(MigrationError::NoRangesForSubnets { v6: false });
    }
    if options.create_subnets && src.mappings_v6.len() > 0 && data.subnets_v6.len() == 0
        && desired_v6.len() == 0 {
        return Err(MigrationError::NoRangesForSubnets { v6: true });
    }
    Ok(())
}

fn kea_existing(data: &KeaData, options: &MigrationOptions) -> (r: Result<(), MigrationError>)
    ensures
        r is Ok <==> !(options.fail_if_existing && kea_has_records(*data)),
        r is Err ==> kea_existing_failure(*data, *options) == Some(r->Err_0@),
{
    if options.fail_if_existing && (data.reservation_ips.len() > 0 || data.reservation_ips_v6.len() > 0
        || data.reservation_duids_v6.len() > 0) {
        let count = if data.reservation_ips.len() < usize::MAX - data.reservation_ips_v6.len() {
            data.reservation_ips.len() + data.reservation_ips_v6.len()
        } else {
            usize::MAX
        };
        return Err(MigrationError::ExistingRecordsFound { backend: Backend::Kea, count });
    }
    Ok(())
}

fn kea_seeds(data: &KeaData) -> (r: (Vec<Key>, Vec<Key>))
    ensures
        keys_view(r.0@) == kea_seed_v4(*data),
        keys_view(r.1@) == kea_seed_v6(*data),
{
    let mut seed4: Vec<Key> = Vec::new();
    seed_ledger(&mut seed4, SLOT_ADDRESS, data.reservation_ips.as_slice());
    let mut seed6: Vec<Key> = Vec::new();
    seed_ledger(&mut seed6, SLOT_ADDRESS, data.reservation_ips_v6.as_slice());
    seed_ledger(&mut seed6, SLOT_CLIENT, data.reservation_duids_v6.as_slice());
    assert(keys_view(seed4@) =~= kea_seed_v4(*data));
    assert(keys_view(seed6@) =~= kea_seed_v6(*data));
    (seed4, seed6)
}

fn kea_stats(
    src: &SourceData,
    data: &KeaData,
    reservations: &Vec<Option<Record>>,
    reservations_v6: &Vec<Option<Record>>,
    target_v4: usize,
    target_v6: usize,
) -> (r: MigrationStats)
    requires
        reservations@.len() == src.mappings@.len(),
        reservations_v6@.len() == src.mappings_v6@.len(),
        forall|j: int|
            0 <= j < src.mappings@.len() ==> ((#[trigger] reservations@[j]) is Some
                <==> kea_verdicts_v4(*src, *data)[j]),
        forall|j: int|
            0 <= j < src.mappings_v6@.len() ==> ((#[trigger] reservations_v6@[j]) is Some
                <==> kea_verdicts_v6(*src, *data)[j]),
    ensures
        kea_counts_ok(r, *src, *data),
        r.target_subnets_found == target_v4,
        r.target_subnets_v6_found == target_v6,
        count_some(reservations@) == r.reservations_to_create,
        count_some(reservations_v6@) == r.reservations_v6_to_create,
        r.interfaces_configured@.len() == 0,
        r.isc_disabled_v4@.len() == 0,
        r.isc_disabled_v6@.len() == 0,
        !r.backend_enabled_v4,
        !r.backend_enabled_v6,
{
    proof {
        crate::ledger::lemma_ledger_grows(claims_by_address(src.mappings@), kea_seed_v4(*data));
        crate::ledger::lemma_ledger_grows(claims_by_address_duid(src.mappings_v6@), kea_seed_v6(*data));
        lemma_counts_agree(reservations@, kea_verdicts_v4(*src, *data));
        lemma_counts_agree(reservations_v6@, kea_verdicts_v6(*src, *data));
        lemma_count_some_bound(reservations@);
        lemma_count_some_bound(reservations_v6@);
    }
    let made = count_present(reservations);
    let made_v6 = count_present(reservations_v6);
    let mut st = MigrationStats::default();
    st.isc_mappings_found = src.mappings.len();
    st.isc_mappings_v6_found = src.mappings_v6.len();
    st.target_subnets_found = target_v4;
    st.target_subnets_v6_found = target_v6;
    st.reservations_to_create = made;
    st.reservations_skipped = src.mappings.len() - made;
    st.reservations_v6_to_create = made_v6;
    st.reservations_v6_skipped = src.mappings_v6.len() - made_v6;
    st
}

/// Never more entries present than entries.
proof fn lemma_count_some_bound<T>(v: Seq<Option<T>>)
    ensures
        count_some(v) <= v.len(),
    decreases v.len(),
{
    if v.len() > 0 {
        lemma_count_some_bound(v.drop_last());
    }
}


fn placeholder_id() -> (r: String) {
    let mut id = "new-".to_string();
    let fresh = crate::records::new_uuid();
    id.append(fresh.as_str());
    id
}

/// The networks a scan adds as placeholders: each desired network, in order, unless it is
/// already among `present` or added before.
pub open spec fn placeholder_cidrs(present: Seq<Seq<char>>, d: Seq<Seq<char>>) -> Seq<Seq<char>>
    decreases d.len(),
{
    if d.len() == 0 {
        Seq::empty()
    } else {
        let p = placeholder_cidrs(present, d.drop_last());
        if (present + p).contains(d.last()) {
            p
        } else {
            p.push(d.last())
        }
    }
}

/// The subnets that resolution sees in a scan: the existing ones, in order, then one
/// placeholder per desired network not yet present, in desired order. The networks present
/// are exactly the existing and the desired ones.
fn effective_subnets(existing: &[Subnet], desired: &Vec<DesiredSubnet>) -> (r: Vec<Subnet>)
    ensures
        r@.len() >= existing@.len(),
        r@.subrange(0, existing@.len() as int) == existing@,
        subnet_cidrs(r@) == subnet_cidrs(existing@) + placeholder_cidrs(
            subnet_cidrs(existing@),
            desired_cidrs(desired@),
        ),
        forall|c: Seq<char>|
            #[trigger] subnet_cidrs(r@).contains(c) <==> subnet_cidrs(existing@).contains(c)
                || desired_cidrs(desired@).contains(c),
        desired@.len() == 0 ==> r@ == existing@,
{
    let mut r = copy_subnets(existing);
    let ghost e = subnet_cidrs(existing@);
    let ghost dc = desired_cidrs(desired@);
    let mut i: usize = 0;
    assert(dc.take(0) =~= Seq::<Seq<char>>::empty());
    assert(r@.subrange(0, existing@.len() as int) =~= existing@);
    assert(subnet_cidrs(r@) =~= e + placeholder_cidrs(e, dc.take(0)));
    while i < desired.len()
        invariant
            i <= desired@.len(),
            e == subnet_cidrs(existing@),
            dc == desired_cidrs(desired@),
            r@.len() >= existing@.len(),
            r@.subrange(0, existing@.len() as int) == existing@,
            subnet_cidrs(r@) == e + placeholder_cidrs(e, dc.take(i as int)),
            forall|c: Seq<char>|
                #[trigger] subnet_cidrs(r@).contains(c) <==> e.contains(c) || dc.take(i as int).contains(c),
            desired@.len() == 0 ==> r@ == existing@,
        decreases desired@.len() - i,
    {
        let mut present = false;
        let mut j: usize = 0;
        while j < r.len()
            invariant
                i < desired@.len(),
                j <= r@.len(),
                present <==> exists|y: int| 0 <= y < j && r@[y].cidr@ == desired@[i as int].cidr@,
            decreases r@.len() - j,
        {
            if r[j].cidr == desired[i].cidr {
                present = true;
            }
            j = j + 1;
        }
        let ghost before = r@;
        let ghost c0 = desired@[i as int].cidr@;
        proof {
            assert(dc.take(i + 1).drop_last() =~= dc.take(i as int));
            assert(dc.take(i + 1).last() == c0);
            assert(present == subnet_cidrs(before).contains(c0)) by {
                if present {
                    let y = choose|y: int| 0 <= y < j && before[y].cidr@ == c0;
                    assert(subnet_cidrs(before)[y] == c0);
                }
                if subnet_cidrs(before).contains(c0) {
                    let y = choose|y: int| 0 <= y < subnet_cidrs(before).len() && subnet_cidrs(before)[y] == c0;
                    assert(before[y].cidr@ == c0);
                }
            }
        }
        if !present {
            r.push(
                Subnet {
                    uuid: placeholder_id(),
                    cidr: desired[i].cidr.clone(),
                    iface: Some(desired[i].iface.clone()),
                },
            );
        }
        proof {
            assert(r@.subrange(0, existing@.len() as int) =~= existing@) by {
                assert forall|x: int| 0 <= x < existing@.len() implies r@[x] == before[x] by {}
                assert(before.subrange(0, existing@.len() as int) == existing@);
            }
            if !present {
                assert(subnet_cidrs(r@) =~= subnet_cidrs(before).push(c0));
            } else {
                assert(r@ == before);
            }
            assert(subnet_cidrs(r@) =~= e + placeholder_cidrs(e, dc.take(i + 1)));
            assert forall|c: Seq<char>|
                #[trigger] subnet_cidrs(r@).contains(c) <==> e.contains(c) || dc.take(i + 1).contains(c) by {
                let t = dc.take(i + 1);
                if t.contains(c) {
                    let x = choose|x: int| 0 <= x < t.len() && t[x] == c;
                    if x < i {
                        assert(dc.take(i as int)[x] == c);
                        assert(subnet_cidrs(before).contains(c));
                    } else {
                        assert(c == c0);
                    }
                }
                if subnet_cidrs(before).contains(c) && (e.contains(c) || dc.take(i as int).contains(c)) {
                    if dc.take(i as int).contains(c) {
                        let x = choose|x: int| 0 <= x < i && dc.take(i as int)[x] == c;
                        assert(t[x] == c);
                    }
                }
                if !present {
                    if subnet_cidrs(r@).contains(c) {
                        let x = choose|x: int| 0 <= x < subnet_cidrs(r@).len() && subnet_cidrs(r@)[x] == c;
                        if x < before.len() {
                            assert(subnet_cidrs(before)[x] == c);
                            assert(subnet_cidrs(before).contains(c));
                            if dc.take(i as int).contains(c) {
                                let y = choose|y: int| 0 <= y < i && dc.take(i as int)[y] == c;
                                assert(t[y] == c);
                            }
                        } else {
                            assert(t[i as int] == c);
                        }
                    }
                    if subnet_cidrs(before).contains(c) {
                        let x = choose|x: int| 0 <= x < before.len() && subnet_cidrs(before)[x] == c;
                        assert(subnet_cidrs(r@)[x] == c);
                    }
                    if c == c0 {
                        assert(subnet_cidrs(r@)[before.len() as int] == c);
                    }
                }
            }
        }
        i = i + 1;
    }
    proof {
        assert(dc.take(desired@.len() as int) =~= dc);
    }
    r
}

/// The desired subnets of both families, or none when not asked for.
fn kea_desired(src: &SourceData, want: bool) -> (r: Result<
    (Vec<DesiredSubnet>, Vec<DesiredSubnet>),
    MigrationError,
>)
    ensures
        !want ==> r is Ok && r->Ok_0.0@.len() == 0 && r->Ok_0.1@.len() == 0,
        want && r is Ok ==> desired_subnets(Family::V4, ranges_view(src.ranges@), src.iface_cidrs@)
            == Ok::<Seq<DesiredView>, ErrorView>(desired_views(r->Ok_0.0@)),
        want && r is Ok ==> desired_subnets(Family::V6, ranges_view_v6(src.ranges_v6@), src.iface_cidrs_v6@)
            == Ok::<Seq<DesiredView>, ErrorView>(desired_views(r->Ok_0.1@)),
        r is Ok ==> desired_failure(*src, want) is None && desired_views(r->Ok_0.0@) == desired_v4_of(
            *src,
            want,
        ) && desired_views(r->Ok_0.1@) == desired_v6_of(*src, want),
        r is Err ==> desired_failure(*src, want) == Some(r->Err_0@),
{
    if !want {
        let (a, b) = (empty_desired(), empty_desired());
        assert(desired_views(a@) =~= Seq::<DesiredView>::empty());
        assert(desired_views(b@) =~= Seq::<DesiredView>::empty());
        return Ok((a, b));
    }
    let d4 = build_desired_subnets(Family::V4, &range_triples(src.ranges.as_slice()), src.iface_cidrs.as_slice())?;
    let d6 = build_desired_subnets(Family::V6, &range_triples_v6(src.ranges_v6.as_slice()), src.iface_cidrs_v6.as_slice())?;
    Ok((d4, d6))
}

/// The interface checks of both families, IPv4 first.
fn validate_both(src: &SourceData) -> (r: Result<(), MigrationError>)
    ensures
        r is Ok <==> all_pass(checks_v4(src.mappings@, src.iface_cidrs@)) && all_pass(
            checks_v6(src.mappings_v6@, src.iface_cidrs_v6@),
        ),
        forall|e: ErrorView|
            #[trigger] first_failure(checks_v4(src.mappings@, src.iface_cidrs@), e) ==> r is Err
                && r->Err_0@ == e,
        r is Ok <==> check_failure(*src) is None,
        r is Err ==> check_failure(*src) == Some(r->Err_0@),
{
    let r4 = validate_mapping_ifaces_v4(src.mappings.as_slice(), src.iface_cidrs.as_slice());
    proof {
        if r4 is Err {
            let c4 = checks_v4(src.mappings@, src.iface_cidrs@);
            let e0 = choose|e: ErrorView| first_failure(c4, e);
            crate::resolve::lemma_first_failure_unique(c4, e0, r4->Err_0@);
            assert forall|e: ErrorView|
                #[trigger] first_failure(checks_v4(src.mappings@, src.iface_cidrs@), e) implies e
                    == r4->Err_0@ by {
                crate::resolve::lemma_first_failure_unique(
                    checks_v4(src.mappings@, src.iface_cidrs@),
                    e,
                    r4->Err_0@,
                );
            }
        } else {
            assert forall|e: ErrorView|
                !#[trigger] first_failure(checks_v4(src.mappings@, src.iface_cidrs@), e) by {
                if first_failure(checks_v4(src.mappings@, src.iface_cidrs@), e) {
                    let k = choose|k: int|
                        0 <= k < checks_v4(src.mappings@, src.iface_cidrs@).len() && (forall|j: int|
                            0 <= j < k ==> checks_v4(src.mappings@, src.iface_cidrs@)[j] is None)
                            && checks_v4(src.mappings@, src.iface_cidrs@)[k] == Some(e);
                    assert(checks_v4(src.mappings@, src.iface_cidrs@)[k] is None);
                }
            }
        }
    }
    r4?;
    let r6 = validate_mapping_ifaces_v6(src.mappings_v6.as_slice(), src.iface_cidrs_v6.as_slice());
    proof {
        if r6 is Err {
            let c6 = checks_v6(src.mappings_v6@, src.iface_cidrs_v6@);
            let e = choose|e: ErrorView| first_failure(c6, e);
            crate::resolve::lemma_first_failure_unique(c6, e, r6->Err_0@);
        }
    }
    r6?;
    Ok(())
}


/// The result of a scan, seen through its error.
pub open spec fn scan_view(r: Result<MigrationStats, MigrationError>) -> Result<MigrationStats, ErrorView> {
    match r {
        Ok(st) => Ok(st),
        Err(e) => Err(e@),
    }
}

/// The result of a conversion, seen through its statistics and its error.
pub open spec fn conversion_view(r: Result<KeaConversion, MigrationError>) -> Result<
    MigrationStats,
    ErrorView,
> {
    match r {
        Ok(c) => Ok(c.stats),
        Err(e) => Err(e@),
    }
}

/// Scans for a migration to the subnet-oriented backend without changing anything: the counts
/// that a conversion with the same input and options would report.
pub fn scan_kea(src: &SourceData, data: &KeaData, options: &MigrationOptions) -> (r: Result<
    MigrationStats,
    MigrationError,
>)
    ensures
        kea_run_ok(*src, *data, *options, scan_view(r)),
        kea_gate(*src, *data, *options, options.create_subnets) is Some ==> r is Err && r->Err_0@
            == kea_gate(*src, *data, *options, options.create_subnets)->Some_0,
        kea_gate(*src, *data, *options, options.create_subnets) is None && kea_resolve_ok(
            *src,
            *data,
            *options,
            options.create_subnets,
        ) ==> r is Ok,
        r is Ok ==> r->Ok_0.target_subnets_found == data.subnets@.len()
            && r->Ok_0.target_subnets_v6_found == data.subnets_v6@.len(),
{
    let (desired, desired_v6) = kea_desired(src, options.create_subnets)?;
    validate_both(src)?;
    kea_presence(src, data, options, &desired, &desired_v6)?;
    kea_existing(data, options)?;
    let (seed4, seed6) = kea_seeds(data);
    let subnets = effective_subnets(data.subnets.as_slice(), &desired);
    let v6_list = as_subnets(data.subnets_v6.as_slice());
    let subnets_v6 = effective_subnets(v6_list.as_slice(), &desired_v6);
    proof {
        let want = options.create_subnets;
        assert(view_cidrs(desired_views(desired@)) =~= desired_cidrs(desired@));
        assert(view_cidrs(desired_views(desired_v6@)) =~= desired_cidrs(desired_v6@));
        if kea_resolve_ok(*src, *data, *options, want) {
            let n4 = subnet_cidrs(data.subnets@) + if want { view_cidrs(desired_v4_of(*src, want)) } else { Seq::empty() };
            let n6 = subnet_cidrs_v6(data.subnets_v6@) + if want { view_cidrs(desired_v6_of(*src, want)) } else { Seq::empty() };
            let b4 = if want { view_cidrs(desired_v4_of(*src, want)) } else { Seq::empty() };
            let b6 = if want { view_cidrs(desired_v6_of(*src, want)) } else { Seq::empty() };
            assert(b4 == desired_cidrs(desired@));
            assert(b6 == desired_cidrs(desired_v6@));
            assert forall|j: int|
                0 <= j < src.mappings@.len() && #[trigger] admitted(
                    claims_by_address(src.mappings@),
                    keys_view(seed4@),
                ).0[j] implies resolves(
                Family::V4,
                src.mappings@[j].ipaddr@,
                subnets@,
            ) by {
                assert(kea_verdicts_v4(*src, *data)[j]);
                lemma_union_lookup(Family::V4, src.mappings@[j].ipaddr@, subnet_cidrs(data.subnets@), b4,
                    subnet_cidrs(subnets@), ErrorView::NoMatchingSubnet(src.mappings@[j].ipaddr@));
            }
            assert forall|j: int|
                0 <= j < src.mappings_v6@.len() && #[trigger] admitted(
                    claims_by_address_duid(src.mappings_v6@),
                    keys_view(seed6@),
                ).0[j] implies resolves(
                Family::V6,
                src.mappings_v6@[j].ipaddr@,
                subnets_v6@,
            ) by {
                assert(kea_verdicts_v6(*src, *data)[j]);
                lemma_union_lookup(Family::V6, src.mappings_v6@[j].ipaddr@, subnet_cidrs_v6(data.subnets_v6@), b6,
                    subnet_cidrs(subnets_v6@), ErrorView::NoMatchingSubnet(src.mappings_v6@[j].ipaddr@));
            }
        }
    }
    proof {
        if !options.create_subnets && kea_all_resolve(*src, *data) {
            assert(subnets@ == data.subnets@);
            assert(subnet_cidrs(subnets_v6@) == subnet_cidrs_v6(data.subnets_v6@));
            assert forall|j: int|
                0 <= j < src.mappings@.len() && #[trigger] admitted(
                    claims_by_address(src.mappings@),
                    keys_view(seed4@),
                ).0[j] implies resolves(Family::V4, src.mappings@[j].ipaddr@, subnets@) by {
                assert(kea_verdicts_v4(*src, *data)[j]);
            }
            assert forall|j: int|
                0 <= j < src.mappings_v6@.len() && #[trigger] admitted(
                    claims_by_address_duid(src.mappings_v6@),
                    keys_view(seed6@),
                ).0[j] implies resolves(Family::V6, src.mappings_v6@[j].ipaddr@, subnets_v6@) by {
                assert(kea_verdicts_v6(*src, *data)[j]);
            }
        }
    }
    let res = reservations_v4(src.mappings.as_slice(), subnets.as_slice(), &seed4)?;
    let res_v6 = reservations_v6(src.mappings_v6.as_slice(), subnets_v6.as_slice(), &seed6)?;
    let st = kea_stats(src, data, &res, &res_v6, data.subnets.len(), data.subnets_v6.len());
    Ok(st)
}

/// What a conversion to the subnet-oriented backend promises beyond [`kea_run_ok`]: one
/// reservation slot per mapping, filled exactly for the mappings the ledger accepts, each
/// reserved in the most specific subnet (after merging) holding its address.
pub open spec fn kea_conversion_ok(s: SourceData, d: KeaData, c: KeaConversion) -> bool {
    &&& c.reservations@.len() == s.mappings@.len()
    &&& c.reservations_v6@.len() == s.mappings_v6@.len()
    &&& forall|j: int|
        0 <= j < s.mappings@.len() ==> ((#[trigger] c.reservations@[j]) is Some <==> kea_verdicts_v4(
            s,
            d,
        )[j]) && (c.reservations@[j] is Some ==> reservation_ok_v4(
            c.reservations@[j].unwrap(),
            s.mappings@[j],
            c.subnets@,
        ))
    &&& forall|j: int|
        0 <= j < s.mappings_v6@.len() ==> ((#[trigger] c.reservations_v6@[j]) is Some
            <==> kea_verdicts_v6(s, d)[j]) && (c.reservations_v6@[j] is Some ==> reservation_ok_v6(
            c.reservations_v6@[j].unwrap(),
            s.mappings_v6@[j],
            c.subnets_v6@,
        ))
    &&& count_some(c.reservations@) == c.stats.reservations_to_create
    &&& count_some(c.reservations_v6@) == c.stats.reservations_v6_to_create
}

/// The merge of the desired subnets of both families, when subnets are created.
fn kea_merge(
    data: &KeaData,
    v6_list: &Vec<Subnet>,
    desired: &Vec<DesiredSubnet>,
    desired_v6: &Vec<DesiredSubnet>,
    options: &MigrationOptions,
) -> (r: (
    Vec<Option<SubnetChange>>,
    Vec<Option<SubnetChange>>,
    Vec<Subnet>,
    Vec<Subnet>,
    Option<Vec<String>>,
    Option<Vec<String>>,
))
    requires
        subnet_cidrs(v6_list@) == subnet_cidrs_v6(data.subnets_v6@),
    ensures
        !options.create_subnets ==> r.0@.len() == 0 && r.1@.len() == 0 && r.2@ == data.subnets@
            && r.3@ == v6_list@ && r.4 is None && r.5 is None,
        options.create_subnets ==> subnet_changes_follow(
            r.0@,
            desired_views(desired@),
            subnet_cidrs(data.subnets@),
            options.force_subnets,
            false,
        ),
        options.create_subnets ==> subnet_changes_follow(
            r.1@,
            desired_views(desired_v6@),
            subnet_cidrs_v6(data.subnets_v6@),
            options.force_subnets,
            true,
        ),
        options.create_subnets ==> forall|c: Seq<char>|
            #[trigger] subnet_cidrs(r.2@).contains(c) <==> subnet_cidrs(data.subnets@).contains(c)
                || desired_cidrs(desired@).contains(c),
        options.create_subnets ==> forall|c: Seq<char>|
            #[trigger] subnet_cidrs(r.3@).contains(c) <==> subnet_cidrs_v6(data.subnets_v6@).contains(c)
                || desired_cidrs(desired_v6@).contains(c),
        options.create_subnets && desired@.len() > 0 ==> r.4 is Some && merged_list(
            r.4->Some_0@,
            data.interfaces,
            view_ifaces(desired_views(desired@)),
        ),
        options.create_subnets && desired_v6@.len() > 0 ==> r.5 is Some && merged_list(
            r.5->Some_0@,
            data.interfaces_v6,
            view_ifaces(desired_views(desired_v6@)),
        ),
        desired@.len() == 0 ==> r.4 is None,
        desired_v6@.len() == 0 ==> r.5 is None,
{
    if !options.create_subnets {
        return (
            Vec::new(),
            Vec::new(),
            copy_subnets(data.subnets.as_slice()),
            copy_subnets(v6_list.as_slice()),
            None,
            None,
        );
    }
    let changes = merge_desired_subnets(false, data.subnets.as_slice(), desired, options.force_subnets);
    let changes_v6 = merge_desired_subnets(true, v6_list.as_slice(), desired_v6, options.force_subnets);
    let subnets = subnets_after_merge(false, data.subnets.as_slice(), desired, &changes, options.force_subnets);
    let subnets_v6 = subnets_after_merge(true, v6_list.as_slice(), desired_v6, &changes_v6, options.force_subnets);
    let interfaces = if desired.len() > 0 {
        Some(merge_interface_list(&data.interfaces, desired_ifaces(desired).as_slice()))
    } else {
        None
    };
    let interfaces_v6 = if desired_v6.len() > 0 {
        Some(merge_interface_list(&data.interfaces_v6, desired_ifaces(desired_v6).as_slice()))
    } else {
        None
    };
    (changes, changes_v6, subnets, subnets_v6, interfaces, interfaces_v6)
}

/// Option plans of subnets `subnets` from IPv4 bundles `opts`: a subnet gets a plan exactly
/// when some bundle's interface has its network, and the plan follows the last such bundle.
pub open spec fn kea_options_follow_v4(
    plans: Seq<Option<SubnetOptionPlan>>,
    subnets: Seq<Subnet>,
    opts: Seq<IscDhcpOptionsV4>,
    ifaces: Seq<(String, String)>,
    existing: Seq<(String, String, String)>,
    force: bool,
) -> bool {
    let names = opts.map_values(|x: IscDhcpOptionsV4| x.iface@);
    &&& plans.len() == subnets.len()
    &&& forall|i: int|
        0 <= i < subnets.len() ==> {
            &&& ((#[trigger] plans[i]) is Some <==> exists|b: int| last_bundle_for(names, ifaces, subnets[i].cidr@, b))
            &&& plans[i] is Some ==> exists|b: int|
                last_bundle_for(names, ifaces, subnets[i].cidr@, b) && plan_follows(
                    plans[i].unwrap(),
                    subnets[i],
                    kea_fields_v4(opts[b]),
                    existing,
                    force,
                    false,
                )
        }
}

/// Option plans of subnets `subnets` from IPv6 bundles `opts` (see [`kea_options_follow_v4`]).
pub open spec fn kea_options_follow_v6(
    plans: Seq<Option<SubnetOptionPlan>>,
    subnets: Seq<Subnet>,
    opts: Seq<IscDhcpOptionsV6>,
    ifaces: Seq<(String, String)>,
    existing: Seq<(String, String, String)>,
    force: bool,
) -> bool {
    let names = opts.map_values(|x: IscDhcpOptionsV6| x.iface@);
    &&& plans.len() == subnets.len()
    &&& forall|i: int|
        0 <= i < subnets.len() ==> {
            &&& ((#[trigger] plans[i]) is Some <==> exists|b: int| last_bundle_for(names, ifaces, subnets[i].cidr@, b))
            &&& plans[i] is Some ==> exists|b: int|
                last_bundle_for(names, ifaces, subnets[i].cidr@, b) && plan_follows(
                    plans[i].unwrap(),
                    subnets[i],
                    kea_fields_v6(opts[b]),
                    existing,
                    force,
                    true,
                )
        }
}

/// The listening interfaces a run configures: those of the desired subnets of both families,
/// each once, ascending.
pub open spec fn configured_ok(l: Seq<String>, d4: Seq<DesiredView>, d6: Seq<DesiredView>) -> bool {
    &&& texts(l).to_multiset() == distinct_nonempty(view_ifaces(d4) + view_ifaces(d6)).to_multiset()
    &&& sorted_texts(texts(l))
}

/// The legacy interfaces a run switches off: those whose service flag is on, each once,
/// ascending.
pub open spec fn disabled_ok(l: Seq<String>, flags: Seq<(String, Option<String>)>) -> bool {
    &&& texts(l).to_multiset() == distinct_nonempty(enabled_names(flags)).to_multiset()
    &&& sorted_texts(texts(l))
}

/// Switches the services of the subnet-oriented backend and records the listening interfaces
/// configured, given how many subnets each family ends up with.
fn kea_switch(
    src: &SourceData,
    data: &KeaData,
    options: &MigrationOptions,
    n4: usize,
    n6: usize,
    desired: &Vec<DesiredSubnet>,
    desired_v6: &Vec<DesiredSubnet>,
    stats: &mut MigrationStats,
) -> (r: Result<(), MigrationError>)
    requires
        old(stats).interfaces_configured@.len() == 0,
        old(stats).isc_disabled_v4@.len() == 0,
        old(stats).isc_disabled_v6@.len() == 0,
        !old(stats).backend_enabled_v4,
        !old(stats).backend_enabled_v6,
    ensures
        final(stats).isc_mappings_found == old(stats).isc_mappings_found,
        final(stats).isc_mappings_v6_found == old(stats).isc_mappings_v6_found,
        final(stats).isc_ranges_found == old(stats).isc_ranges_found,
        final(stats).isc_ranges_v6_found == old(stats).isc_ranges_v6_found,
        final(stats).target_subnets_found == old(stats).target_subnets_found,
        final(stats).target_subnets_v6_found == old(stats).target_subnets_v6_found,
        final(stats).reservations_to_create == old(stats).reservations_to_create,
        final(stats).reservations_v6_to_create == old(stats).reservations_v6_to_create,
        final(stats).reservations_skipped == old(stats).reservations_skipped,
        final(stats).reservations_v6_skipped == old(stats).reservations_v6_skipped,
        r is Err <==> options.enable_backend && ((n4 > 0 && !data.has_dhcp4) || (n6 > 0 && !data.has_dhcp6)),
        r is Err ==> r->Err_0@ == (ErrorView::EnableFailed {
            backend: Backend::Kea,
            v6: !(n4 > 0 && !data.has_dhcp4),
        }),
        final(stats).backend_enabled_v4 == (options.enable_backend && n4 > 0 && data.has_dhcp4),
        final(stats).backend_enabled_v6 == (options.enable_backend && n6 > 0 && data.has_dhcp6),
        options.enable_backend ==> disabled_ok(final(stats).isc_disabled_v4@, src.flags_v4@)
            && disabled_ok(final(stats).isc_disabled_v6@, src.flags_v6@),
        !options.enable_backend ==> final(stats).isc_disabled_v4@.len() == 0
            && final(stats).isc_disabled_v6@.len() == 0,
        r is Ok && options.create_subnets ==> configured_ok(
            final(stats).interfaces_configured@,
            desired_views(desired@),
            desired_views(desired_v6@),
        ),
        !options.create_subnets ==> final(stats).interfaces_configured@.len() == 0,
{
    if options.enable_backend {
        stats.isc_disabled_v4 = enabled_interfaces(src.flags_v4.as_slice());
        stats.isc_disabled_v6 = enabled_interfaces(src.flags_v6.as_slice());
        stats.backend_enabled_v4 = n4 > 0 && data.has_dhcp4;
        stats.backend_enabled_v6 = n6 > 0 && data.has_dhcp6;
        if n4 > 0 && !data.has_dhcp4 {
            return Err(MigrationError::EnableFailed { backend: Backend::Kea, v6: false });
        }
        if n6 > 0 && !data.has_dhcp6 {
            return Err(MigrationError::EnableFailed { backend: Backend::Kea, v6: true });
        }
    }
    if options.create_subnets {
        let mut names = desired_ifaces(desired);
        let mut more = desired_ifaces(desired_v6);
        let ghost a = names@;
        let ghost b = more@;
        names.append(&mut more);
        assert(texts(names@) =~= texts(a) + texts(b));
        assert(Seq::<Seq<char>>::empty() + texts(names@) =~= texts(names@));
        let none: Option<String> = None;
        stats.interfaces_configured = merge_interface_list(&none, names.as_slice());
    }
    Ok(())
}

/// Desired subnets are built when subnets are created or the backend is enabled.
pub open spec fn kea_want(o: MigrationOptions) -> bool {
    o.create_subnets || o.enable_backend
}

/// Converts to the subnet-oriented backend: the subnets, options and reservations to write and
/// the services to switch, or the failure that stops the run.
pub fn convert_kea(src: &SourceData, data: &KeaData, options: &MigrationOptions) -> (r: Result<
    KeaConversion,
    MigrationError,
>)
    ensures
        kea_run_ok(*src, *data, *options, conversion_view(r)),
        r is Ok ==> kea_conversion_ok(*src, *data, r->Ok_0),
        r is Ok && !options.create_subnets ==> r->Ok_0.subnets@ == data.subnets@,
        kea_gate(*src, *data, *options, kea_want(*options)) is Some ==> r is Err && r->Err_0@ == kea_gate(
            *src,
            *data,
            *options,
            kea_want(*options),
        )->Some_0,
        kea_gate(*src, *data, *options, kea_want(*options)) is None && kea_resolve_ok(*src, *data, *options, kea_want(*options))
            && kea_enable_ok(*src, *data, *options, kea_want(*options)) ==> r is Ok,
        kea_gate(*src, *data, *options, kea_want(*options)) is None && kea_resolve_ok(*src, *data, *options, kea_want(*options))
            && !kea_enable_ok(*src, *data, *options, kea_want(*options)) ==> r is Err && r->Err_0@ == (ErrorView::EnableFailed {
            backend: Backend::Kea,
            v6: !(merged_nonempty(data.subnets@.len(), *options, desired_v4_of(*src, kea_want(*options))) && !data.has_dhcp4),
        }),
        r is Ok ==> r->Ok_0.stats.backend_enabled_v4 == (options.enable_backend && r->Ok_0.subnets@.len() > 0
            && data.has_dhcp4),
        r is Ok ==> r->Ok_0.stats.backend_enabled_v6 == (options.enable_backend && r->Ok_0.subnets_v6@.len() > 0
            && data.has_dhcp6),
        r is Ok && options.enable_backend ==> disabled_ok(r->Ok_0.stats.isc_disabled_v4@, src.flags_v4@)
            && disabled_ok(r->Ok_0.stats.isc_disabled_v6@, src.flags_v6@),
        r is Ok && !options.enable_backend ==> r->Ok_0.stats.isc_disabled_v4@.len() == 0
            && r->Ok_0.stats.isc_disabled_v6@.len() == 0,
        r is Ok && options.create_subnets ==> configured_ok(
            r->Ok_0.stats.interfaces_configured@,
            desired_v4_of(*src, kea_want(*options)),
            desired_v6_of(*src, kea_want(*options)),
        ),
        r is Ok && !options.create_subnets ==> r->Ok_0.stats.interfaces_configured@.len() == 0,
        r is Ok && options.create_subnets && desired_v4_of(*src, kea_want(*options)).len() > 0 ==> r->Ok_0.interfaces is Some
            && merged_list(r->Ok_0.interfaces->Some_0@, data.interfaces, view_ifaces(desired_v4_of(*src, kea_want(*options)))),
        r is Ok && options.create_subnets && desired_v6_of(*src, kea_want(*options)).len() > 0 ==> r->Ok_0.interfaces_v6 is Some
            && merged_list(
            r->Ok_0.interfaces_v6->Some_0@,
            data.interfaces_v6,
            view_ifaces(desired_v6_of(*src, kea_want(*options))),
        ),
        r is Ok && !(options.create_subnets && desired_v4_of(*src, kea_want(*options)).len() > 0) ==> r->Ok_0.interfaces is None,
        r is Ok && !(options.create_subnets && desired_v6_of(*src, kea_want(*options)).len() > 0) ==> r->Ok_0.interfaces_v6 is None,
        r is Ok && options.create_subnets ==> forall|c: Seq<char>|
            #[trigger] subnet_cidrs(r->Ok_0.subnets@).contains(c) <==> subnet_cidrs(data.subnets@).contains(c)
                || view_cidrs(desired_v4_of(*src, kea_want(*options))).contains(c),
        r is Ok && options.create_subnets ==> forall|c: Seq<char>|
            #[trigger] subnet_cidrs(r->Ok_0.subnets_v6@).contains(c) <==> subnet_cidrs_v6(data.subnets_v6@).contains(c)
                || view_cidrs(desired_v6_of(*src, kea_want(*options))).contains(c),
        r is Ok && !options.create_subnets ==> r->Ok_0.subnet_changes@.len() == 0
            && r->Ok_0.subnet_changes_v6@.len() == 0 && r->Ok_0.interfaces is None
            && r->Ok_0.interfaces_v6 is None,
        r is Ok && !options.create_options ==> r->Ok_0.option_plans@.len() == 0
            && r->Ok_0.option_plans_v6@.len() == 0,
        r is Ok && options.create_options ==> kea_options_follow_v4(
            r->Ok_0.option_plans@,
            r->Ok_0.subnets@,
            src.options_v4@,
            src.iface_cidrs@,
            data.option_values@,
            options.force_options,
        ),
        r is Ok && options.create_options ==> kea_options_follow_v6(
            r->Ok_0.option_plans_v6@,
            r->Ok_0.subnets_v6@,
            src.options_v6@,
            src.iface_cidrs_v6@,
            data.option_values_v6@,
            options.force_options,
        ),
        r is Ok && options.create_subnets ==> desired_subnets(
            Family::V4,
            ranges_view(src.ranges@),
            src.iface_cidrs@,
        ) is Ok && subnet_changes_follow(
            r->Ok_0.subnet_changes@,
            desired_subnets(Family::V4, ranges_view(src.ranges@), src.iface_cidrs@)->Ok_0,
            subnet_cidrs(data.subnets@),
            options.force_subnets,
            false,
        ),
        r is Ok && options.create_subnets ==> desired_subnets(
            Family::V6,
            ranges_view_v6(src.ranges_v6@),
            src.iface_cidrs_v6@,
        ) is Ok && subnet_changes_follow(
            r->Ok_0.subnet_changes_v6@,
            desired_subnets(Family::V6, ranges_view_v6(src.ranges_v6@), src.iface_cidrs_v6@)->Ok_0,
            subnet_cidrs_v6(data.subnets_v6@),
            options.force_subnets,
            true,
        ),
{
    let want_desired = options.create_subnets || options.enable_backend;
    let (desired, desired_v6) = kea_desired(src, want_desired)?;
    validate_both(src)?;
    kea_presence(src, data, options, &desired, &desired_v6)?;
    kea_existing(data, options)?;
    let v6_list = as_subnets(data.subnets_v6.as_slice());
    let (subnet_changes, subnet_changes_v6, subnets, subnets_v6, interfaces, interfaces_v6) =
        kea_merge(data, &v6_list, &desired, &desired_v6, options);
    let mut option_plans: Vec<Option<SubnetOptionPlan>> = Vec::new();
    let mut option_plans_v6: Vec<Option<SubnetOptionPlan>> = Vec::new();
    if options.create_options {
        let b4 = kea_bundles_v4(src.options_v4.as_slice());
        let b6 = kea_bundles_v6(src.options_v6.as_slice());
        option_plans = plan_kea_options(false, subnets.as_slice(), &b4, src.iface_cidrs.as_slice(), data.option_values.as_slice(), options.force_options);
        option_plans_v6 = plan_kea_options(true, subnets_v6.as_slice(), &b6, src.iface_cidrs_v6.as_slice(), data.option_values_v6.as_slice(), options.force_options);
        proof {
            assert forall|b: int| 0 <= b < src.options_v4@.len() implies named_view(
                (#[trigger] b4@[b]).fields@,
            ) == kea_fields_v4(src.options_v4@[b]) by {}
            assert forall|b: int| 0 <= b < src.options_v6@.len() implies named_view(
                (#[trigger] b6@[b]).fields@,
            ) == kea_fields_v6(src.options_v6@[b]) by {}
        }
    }
    let (seed4, seed6) = kea_seeds(data);
    proof {
        let want = kea_want(*options);
        assert(view_cidrs(desired_views(desired@)) =~= desired_cidrs(desired@));
        assert(view_cidrs(desired_views(desired_v6@)) =~= desired_cidrs(desired_v6@));
        let b4 = if options.create_subnets { view_cidrs(desired_v4_of(*src, want)) } else { Seq::empty() };
        let b6 = if options.create_subnets { view_cidrs(desired_v6_of(*src, want)) } else { Seq::empty() };
        assert forall|c: Seq<char>| #[trigger] subnet_cidrs(subnets@).contains(c) <==> subnet_cidrs(
            data.subnets@,
        ).contains(c) || b4.contains(c) by {}
        assert forall|c: Seq<char>| #[trigger] subnet_cidrs(subnets_v6@).contains(c) <==> subnet_cidrs_v6(
            data.subnets_v6@,
        ).contains(c) || b6.contains(c) by {}
        lemma_union_nonempty(subnet_cidrs(data.subnets@), b4, subnet_cidrs(subnets@));
        lemma_union_nonempty(subnet_cidrs_v6(data.subnets_v6@), b6, subnet_cidrs(subnets_v6@));
        if kea_resolve_ok(*src, *data, *options, want) {
            assert forall|j: int|
                0 <= j < src.mappings@.len() && #[trigger] admitted(
                    claims_by_address(src.mappings@),
                    keys_view(seed4@),
                ).0[j] implies resolves(Family::V4, src.mappings@[j].ipaddr@, subnets@) by {
                assert(kea_verdicts_v4(*src, *data)[j]);
                lemma_union_lookup(Family::V4, src.mappings@[j].ipaddr@, subnet_cidrs(data.subnets@), b4,
                    subnet_cidrs(subnets@), ErrorView::NoMatchingSubnet(src.mappings@[j].ipaddr@));
            }
            assert forall|j: int|
                0 <= j < src.mappings_v6@.len() && #[trigger] admitted(
                    claims_by_address_duid(src.mappings_v6@),
                    keys_view(seed6@),
                ).0[j] implies resolves(Family::V6, src.mappings_v6@[j].ipaddr@, subnets_v6@) by {
                assert(kea_verdicts_v6(*src, *data)[j]);
                lemma_union_lookup(Family::V6, src.mappings_v6@[j].ipaddr@, subnet_cidrs_v6(data.subnets_v6@), b6,
                    subnet_cidrs(subnets_v6@), ErrorView::NoMatchingSubnet(src.mappings_v6@[j].ipaddr@));
            }
        }
        if !options.create_subnets && !options.enable_backend && kea_all_resolve(*src, *data) {
            assert(subnets@ == data.subnets@);
            assert(subnet_cidrs(subnets_v6@) == subnet_cidrs_v6(data.subnets_v6@));
            assert forall|j: int|
                0 <= j < src.mappings@.len() && #[trigger] admitted(
                    claims_by_address(src.mappings@),
                    keys_view(seed4@),
                ).0[j] implies resolves(Family::V4, src.mappings@[j].ipaddr@, subnets@) by {
                assert(kea_verdicts_v4(*src, *data)[j]);
            }
            assert forall|j: int|
                0 <= j < src.mappings_v6@.len() && #[trigger] admitted(
                    claims_by_address_duid(src.mappings_v6@),
                    keys_view(seed6@),
                ).0[j] implies resolves(Family::V6, src.mappings_v6@[j].ipaddr@, subnets_v6@) by {
                assert(kea_verdicts_v6(*src, *data)[j]);
            }
        }
    }
    let reservations = reservations_v4(src.mappings.as_slice(), subnets.as_slice(), &seed4)?;
    let reservations_v6 = reservations_v6(src.mappings_v6.as_slice(), subnets_v6.as_slice(), &seed6)?;
    let mut stats = kea_stats(src, data, &reservations, &reservations_v6, subnets.len(), subnets_v6.len());
    kea_switch(src, data, options, subnets.len(), subnets_v6.len(), &desired, &desired_v6, &mut stats)?;
    Ok(
        KeaConversion {
            stats,
            subnet_changes,
            subnet_changes_v6,
            interfaces,
            interfaces_v6,
            option_plans,
            option_plans_v6,
            reservations,
            reservations_v6,
            subnets,
            subnets_v6,
        },
    )
}

/// A scan reports, for each family, exactly as many records to create as a conversion with the
/// same input and options appends.
pub proof fn lemma_scan_matches_convert(
    s: SourceData,
    d: KeaData,
    o: MigrationOptions,
    scan: MigrationStats,
    conv: KeaConversion,
)
    requires
        kea_run_ok(s, d, o, Ok(scan)),
        kea_run_ok(s, d, o, Ok(conv.stats)),
        kea_conversion_ok(s, d, conv),
    ensures
        scan.reservations_to_create == count_some(conv.reservations@),
        scan.reservations_v6_to_create == count_some(conv.reservations_v6@),
{
}


/// What the engine reads of the flat target.
#[derive(Debug)]
pub struct DnsmasqData {
    /// The service section exists.
    pub present: bool,
    pub host_ips: Vec<String>,
    pub host_macs: Vec<String>,
    pub host_client_ids: Vec<String>,
    /// The keys of the ranges already declared.
    pub range_keys: Vec<String>,
    /// The keys of the options already set.
    pub option_keys: Vec<String>,
    /// The listening-interface list.
    pub interfaces: Option<String>,
}

/// What a conversion to the flat backend writes.
#[derive(Debug)]
pub struct DnsmasqConversion {
    pub stats: MigrationStats,
    /// The ranges to add, IPv4 then IPv6; `None` where one is skipped.
    pub ranges: Vec<Option<KeyedChange>>,
    /// The options to add; `None` where one is skipped.
    pub options: Vec<Option<KeyedChange>>,
    /// One entry per IPv4 mapping; `None` where it is skipped.
    pub hosts: Vec<Option<Record>>,
    pub hosts_v6: Vec<Option<Record>>,
    /// The new listening-interface list, when it changes.
    pub interfaces: Option<Vec<String>>,
    /// The service is switched on.
    pub enable: bool,
}

/// The ledger of hosts already in the flat target.
pub open spec fn flat_seed(d: DnsmasqData) -> Seq<(u8, Seq<char>)> {
    seed_keys(SLOT_ADDRESS, d.host_ips@) + seed_keys(SLOT_HARDWARE, d.host_macs@) + seed_keys(
        SLOT_CLIENT,
        d.host_client_ids@,
    )
}

/// The IPv4 run of the flat ledger.
pub open spec fn flat_run_v4(s: SourceData, d: DnsmasqData) -> (Seq<bool>, Seq<(u8, Seq<char>)>) {
    admitted(claims_by_address_hw(s.mappings@), flat_seed(d))
}

/// The IPv6 run of the flat ledger, after the IPv4 one.
pub open spec fn flat_run_v6(s: SourceData, d: DnsmasqData) -> (Seq<bool>, Seq<(u8, Seq<char>)>) {
    admitted(claims_by_address_duid(s.mappings_v6@), flat_run_v4(s, d).1)
}

/// The flat target already holds a host (or a range, when ranges are to be created).
pub open spec fn flat_has_records(d: DnsmasqData, o: MigrationOptions) -> bool {
    d.host_ips@.len() > 0 || d.host_macs@.len() > 0 || d.host_client_ids@.len() > 0 || (
    o.create_subnets && d.range_keys@.len() > 0)
}

/// What holds of every run on the flat backend, scan or conversion (see [`kea_run_ok`]).
pub open spec fn flat_run_ok(
    s: SourceData,
    d: DnsmasqData,
    o: MigrationOptions,
    r: Result<MigrationStats, ErrorView>,
) -> bool {
    &&& r is Ok ==> all_pass(checks_v4(s.mappings@, s.iface_cidrs@)) && all_pass(
        checks_v6(s.mappings_v6@, s.iface_cidrs_v6@),
    )
    &&& r is Ok ==> !(o.fail_if_existing && flat_has_records(d, o))
    &&& r is Ok ==> (s.mappings@.len() > 0 || s.mappings_v6@.len() > 0 ==> d.present)
    &&& (!o.create_subnets && !o.enable_backend && all_pass(checks_v4(s.mappings@, s.iface_cidrs@))
        && all_pass(checks_v6(s.mappings_v6@, s.iface_cidrs_v6@)) && d.present && !(
    o.fail_if_existing && flat_has_records(d, o)) ==> r is Ok)
    &&& forall|e: ErrorView|
        !o.create_subnets && !o.enable_backend && #[trigger] first_failure(
            checks_v4(s.mappings@, s.iface_cidrs@),
            e,
        ) ==> r == Err::<MigrationStats, ErrorView>(e)
    &&& r is Ok ==> {
        let st = r->Ok_0;
        &&& st.isc_mappings_found == s.mappings@.len()
        &&& st.isc_mappings_v6_found == s.mappings_v6@.len()
        &&& st.reservations_to_create == count_true(flat_run_v4(s, d).0)
        &&& st.reservations_skipped == s.mappings@.len() - count_true(flat_run_v4(s, d).0)
        &&& st.reservations_v6_to_create == count_true(flat_run_v6(s, d).0)
        &&& st.reservations_v6_skipped == s.mappings_v6@.len() - count_true(flat_run_v6(s, d).0)
    }
}

fn flat_seed_of(data: &DnsmasqData) -> (r: Vec<Key>)
    ensures
        keys_view(r@) == flat_seed(*data),
{
    let mut seed: Vec<Key> = Vec::new();
    seed_ledger(&mut seed, SLOT_ADDRESS, data.host_ips.as_slice());
    seed_ledger(&mut seed, SLOT_HARDWARE, data.host_macs.as_slice());
    seed_ledger(&mut seed, SLOT_CLIENT, data.host_client_ids.as_slice());
    seed
}

fn flat_existing(data: &DnsmasqData, options: &MigrationOptions) -> (r: Result<(), MigrationError>)
    ensures
        r is Ok <==> !(options.fail_if_existing && flat_has_records(*data, *options)),
        r is Err ==> flat_existing_failure(*data, *options) == Some(r->Err_0@),
{
    if options.fail_if_existing && (data.host_ips.len() > 0 || data.host_macs.len() > 0
        || data.host_client_ids.len() > 0 || (options.create_subnets && data.range_keys.len() > 0)) {
        return Err(
            MigrationError::ExistingRecordsFound { backend: Backend::Dnsmasq, count: data.host_ips.len() },
        );
    }
    Ok(())
}

/// The hosts of both families through the shared flat ledger, with the statistics they give.
fn flat_hosts(src: &SourceData, data: &DnsmasqData) -> (r: (MigrationStats, Vec<Option<Record>>, Vec<Option<Record>>))
    ensures
        r.0.isc_mappings_found == src.mappings@.len(),
        r.0.isc_mappings_v6_found == src.mappings_v6@.len(),
        r.0.reservations_to_create == count_true(flat_run_v4(*src, *data).0),
        r.0.reservations_skipped == src.mappings@.len() - count_true(flat_run_v4(*src, *data).0),
        r.0.reservations_v6_to_create == count_true(flat_run_v6(*src, *data).0),
        r.0.reservations_v6_skipped == src.mappings_v6@.len() - count_true(flat_run_v6(*src, *data).0),
        r.0.interfaces_configured@.len() == 0,
        r.0.isc_disabled_v4@.len() == 0,
        r.0.isc_disabled_v6@.len() == 0,
        !r.0.backend_enabled_v4,
        !r.0.backend_enabled_v6,
        r.1@.len() == src.mappings@.len(),
        r.2@.len() == src.mappings_v6@.len(),
        forall|j: int|
            0 <= j < src.mappings@.len() ==> ((#[trigger] r.1@[j]) is Some <==> flat_run_v4(*src, *data).0[j]),
        forall|j: int|
            0 <= j < src.mappings_v6@.len() ==> ((#[trigger] r.2@[j]) is Some <==> flat_run_v6(*src, *data).0[j]),
        forall|j: int|
            0 <= j < src.mappings@.len() && (#[trigger] r.1@[j]) is Some ==> r.1@[j].unwrap().tag@ == "hosts"@
                && fields_view(r.1@[j].unwrap().fields@) == host_fields_v4(src.mappings@[j]),
        forall|j: int|
            0 <= j < src.mappings_v6@.len() && (#[trigger] r.2@[j]) is Some ==> r.2@[j].unwrap().tag@ == "hosts"@
                && fields_view(r.2@[j].unwrap().fields@) == host_fields_v6(src.mappings_v6@[j]),
{
    let mut taken = flat_seed_of(data);
    let hosts = hosts_v4(src.mappings.as_slice(), &mut taken);
    let hosts6 = hosts_v6(src.mappings_v6.as_slice(), &mut taken);
    proof {
        crate::ledger::lemma_ledger_grows(claims_by_address_hw(src.mappings@), flat_seed(*data));
        crate::ledger::lemma_ledger_grows(claims_by_address_duid(src.mappings_v6@), flat_run_v4(*src, *data).1);
        lemma_counts_agree(hosts@, flat_run_v4(*src, *data).0);
        lemma_counts_agree(hosts6@, flat_run_v6(*src, *data).0);
        lemma_count_some_bound(hosts@);
        lemma_count_some_bound(hosts6@);
    }
    let made = count_present(&hosts);
    let made6 = count_present(&hosts6);
    let mut st = MigrationStats::default();
    st.isc_mappings_found = src.mappings.len();
    st.isc_mappings_v6_found = src.mappings_v6.len();
    st.reservations_to_create = made;
    st.reservations_skipped = src.mappings.len() - made;
    st.reservations_v6_to_create = made6;
    st.reservations_v6_skipped = src.mappings_v6.len() - made6;
    (st, hosts, hosts6)
}

fn flat_presence(
    src: &SourceData,
    data: &DnsmasqData,
    desired: &Vec<DesiredSubnet>,
    desired_v6: &Vec<DesiredSubnet>,
    option_count: usize,
) -> (r: Result<(), MigrationError>)
    ensures
        r is Ok ==> (src.mappings@.len() > 0 || src.mappings_v6@.len() > 0 ==> data.present),
        data.present ==> r is Ok,
        r is Ok ==> flat_presence_failure(*src, *data, desired@.len(), desired_v6@.len(), option_count as nat)
            is None,
        r is Err ==> flat_presence_failure(*src, *data, desired@.len(), desired_v6@.len(), option_count as nat)
            == Some(r->Err_0@),
{
    if (src.mappings.len() > 0 || src.mappings_v6.len() > 0 || desired.len() > 0 || desired_v6.len()
        > 0 || option_count > 0) && !data.present {
        return Err(MigrationError::BackendNotConfigured { backend: Backend::Dnsmasq.name() });
    }
    Ok(())
}

/// The options of the flat backend merged into a target holding option keys `existing`: one
/// entry per option, skipped when its key exists and `force` is off, else a new element that
/// replaces any existing one under that key.
pub open spec fn option_changes_follow(
    c: Seq<Option<KeyedChange>>,
    opts: Seq<OptionView>,
    existing: Seq<String>,
    force: bool,
) -> bool {
    &&& c.len() == opts.len()
    &&& forall|i: int|
        0 <= i < opts.len() ==> {
            let key = key_text(option_key_parts(opts[i]));
            let present = has_key(existing, key);
            &&& ((#[trigger] c[i]) is None <==> present && !force)
            &&& c[i] is Some ==> {
                &&& c[i].unwrap().key@ == key
                &&& c[i].unwrap().replace == present
                &&& c[i].unwrap().record.tag@ == "dhcp_options"@
                &&& fields_view(c[i].unwrap().record.fields@) == option_fields(opts[i])
            }
        }
}

/// The ranges of the flat backend, given by their key parts, merged into a target holding range
/// keys `existing`: one entry per range, skipped when its key exists and `force` is off, else a
/// new element that replaces any existing one under that key.
pub open spec fn range_changes_follow(
    c: Seq<Option<KeyedChange>>,
    parts: Seq<Seq<Seq<char>>>,
    existing: Seq<String>,
    force: bool,
) -> bool {
    &&& c.len() == parts.len()
    &&& forall|i: int|
        0 <= i < parts.len() ==> {
            let key = key_text(parts[i]);
            let present = has_key(existing, key);
            &&& ((#[trigger] c[i]) is None <==> present && !force)
            &&& c[i] is Some ==> {
                &&& c[i].unwrap().key@ == key
                &&& c[i].unwrap().replace == present
                &&& c[i].unwrap().record.tag@ == "dhcp_ranges"@
                &&& fields_view(c[i].unwrap().record.fields@) == zip_fields(range_field_names(), parts[i])
            }
        }
}

/// How many options the flat backend is asked to create.
pub open spec fn flat_option_count(s: SourceData, o: MigrationOptions) -> nat {
    if o.create_options {
        (all_options_v4(s.options_v4@) + all_options_v6(s.options_v6@)).len()
    } else {
        0
    }
}

/// The flat backend is missing while there is something to write into it.
pub open spec fn flat_presence_failure(s: SourceData, d: DnsmasqData, n4: nat, n6: nat, nopt: nat) -> Option<
    ErrorView,
> {
    if (s.mappings@.len() > 0 || s.mappings_v6@.len() > 0 || n4 > 0 || n6 > 0 || nopt > 0) && !d.present {
        Some(ErrorView::BackendNotConfigured { backend: backend_name(Backend::Dnsmasq) })
    } else {
        None
    }
}

/// The `fail_if_existing` failure of the flat backend; the count is that of the existing host
/// addresses.
pub open spec fn flat_existing_failure(d: DnsmasqData, o: MigrationOptions) -> Option<ErrorView> {
    if o.fail_if_existing && flat_has_records(d, o) {
        Some(ErrorView::ExistingRecordsFound { backend: Backend::Dnsmasq, count: d.host_ips@.len() })
    } else {
        None
    }
}

/// The first failure of the phases before any record is built on the flat backend: building
/// the desired subnets (when `want`), the interface checks, backend presence,
/// `fail_if_existing`.
pub open spec fn flat_gate(s: SourceData, d: DnsmasqData, o: MigrationOptions, want: bool) -> Option<ErrorView> {
    if desired_failure(s, want) is Some {
        desired_failure(s, want)
    } else if check_failure(s) is Some {
        check_failure(s)
    } else if flat_presence_failure(
        s,
        d,
        desired_v4_of(s, want).len(),
        desired_v6_of(s, want).len(),
        flat_option_count(s, o),
    ) is Some {
        flat_presence_failure(
            s,
            d,
            desired_v4_of(s, want).len(),
            desired_v6_of(s, want).len(),
            flat_option_count(s, o),
        )
    } else {
        flat_existing_failure(d, o)
    }
}

/// The ranges to create, when subnets are created, have networks that read.
pub open spec fn flat_ranges_ok(s: SourceData, o: MigrationOptions, want: bool) -> bool {
    !o.create_subnets || (all_range_parts(Family::V4, desired_v4_of(s, want)) is Some && all_range_parts(
        Family::V6,
        desired_v6_of(s, want),
    ) is Some)
}

/// The flat backend ends up with ranges, new or existing.
pub open spec fn flat_has_ranges(s: SourceData, d: DnsmasqData, want: bool) -> bool {
    desired_v4_of(s, want).len() > 0 || desired_v6_of(s, want).len() > 0 || d.range_keys@.len() > 0
}

/// Records the listening interfaces of the flat backend and switches the services.
fn flat_switch(
    src: &SourceData,
    data: &DnsmasqData,
    options: &MigrationOptions,
    desired: &Vec<DesiredSubnet>,
    desired_v6: &Vec<DesiredSubnet>,
    stats: &mut MigrationStats,
) -> (r: Result<(Option<Vec<String>>, bool), MigrationError>)
    requires
        old(stats).interfaces_configured@.len() == 0,
        old(stats).isc_disabled_v4@.len() == 0,
        old(stats).isc_disabled_v6@.len() == 0,
        !old(stats).backend_enabled_v4,
        !old(stats).backend_enabled_v6,
    ensures
        final(stats).isc_mappings_found == old(stats).isc_mappings_found,
        final(stats).isc_mappings_v6_found == old(stats).isc_mappings_v6_found,
        final(stats).reservations_to_create == old(stats).reservations_to_create,
        final(stats).reservations_v6_to_create == old(stats).reservations_v6_to_create,
        final(stats).reservations_skipped == old(stats).reservations_skipped,
        final(stats).reservations_v6_skipped == old(stats).reservations_v6_skipped,
        r is Err <==> options.enable_backend && (desired@.len() > 0 || desired_v6@.len() > 0
            || data.range_keys@.len() > 0) && !data.present,
        r is Err ==> r->Err_0@ == (ErrorView::EnableFailed { backend: Backend::Dnsmasq, v6: false }),
        r is Ok ==> r->Ok_0.1 == (options.enable_backend && (desired@.len() > 0 || desired_v6@.len() > 0
            || data.range_keys@.len() > 0)),
        r is Ok ==> final(stats).backend_enabled_v4 == r->Ok_0.1 && final(stats).backend_enabled_v6
            == r->Ok_0.1,
        r is Ok && options.enable_backend ==> disabled_ok(final(stats).isc_disabled_v4@, src.flags_v4@)
            && disabled_ok(final(stats).isc_disabled_v6@, src.flags_v6@),
        r is Ok && !options.enable_backend ==> final(stats).isc_disabled_v4@.len() == 0
            && final(stats).isc_disabled_v6@.len() == 0,
        r is Ok && options.create_subnets && (desired@.len() > 0 || desired_v6@.len() > 0) ==> r->Ok_0.0 is Some
            && merged_list(
            r->Ok_0.0->Some_0@,
            data.interfaces,
            view_ifaces(desired_views(desired@)) + view_ifaces(desired_views(desired_v6@)),
        ) && configured_ok(
            final(stats).interfaces_configured@,
            desired_views(desired@),
            desired_views(desired_v6@),
        ),
        r is Ok && !(options.create_subnets && (desired@.len() > 0 || desired_v6@.len() > 0)) ==> r->Ok_0.0
            is None && final(stats).interfaces_configured@.len() == 0,
{
    let mut interfaces: Option<Vec<String>> = None;
    if options.create_subnets && (desired.len() > 0 || desired_v6.len() > 0) {
        let mut names = desired_ifaces(desired);
        let mut more = desired_ifaces(desired_v6);
        let ghost a = names@;
        let ghost b = more@;
        names.append(&mut more);
        assert(texts(names@) =~= texts(a) + texts(b));
        assert(Seq::<Seq<char>>::empty() + texts(names@) =~= texts(names@));
        let merged = merge_interface_list(&data.interfaces, names.as_slice());
        let none: Option<String> = None;
        stats.interfaces_configured = merge_interface_list(&none, names.as_slice());
        interfaces = Some(merged);
    }
    let mut enable = false;
    if options.enable_backend {
        stats.isc_disabled_v4 = enabled_interfaces(src.flags_v4.as_slice());
        stats.isc_disabled_v6 = enabled_interfaces(src.flags_v6.as_slice());
        let has_ranges = desired.len() > 0 || desired_v6.len() > 0 || data.range_keys.len() > 0;
        if has_ranges {
            if !data.present {
                return Err(MigrationError::EnableFailed { backend: Backend::Dnsmasq, v6: false });
            }
            enable = true;
            stats.backend_enabled_v4 = true;
            stats.backend_enabled_v6 = true;
        }
    }
    Ok((interfaces, enable))
}

/// Scans for a migration to the flat backend without changing anything.
pub fn scan_dnsmasq(src: &SourceData, data: &DnsmasqData, options: &MigrationOptions) -> (r: Result<
    MigrationStats,
    MigrationError,
>)
    ensures
        flat_run_ok(*src, *data, *options, scan_view(r)),
        flat_gate(*src, *data, *options, options.create_subnets) is Some ==> r is Err && r->Err_0@
            == flat_gate(*src, *data, *options, options.create_subnets)->Some_0,
        flat_gate(*src, *data, *options, options.create_subnets) is None ==> r is Ok,
{
    let (desired, desired_v6) = kea_desired(src, options.create_subnets)?;
    let option_count: usize = if options.create_options {
        let specs = dnsmasq_option_specs_from_isc(src.options_v4.as_slice(), src.options_v6.as_slice());
        assert(spec_views(specs@).len() == specs@.len());
        specs.len()
    } else {
        0
    };
    assert(option_count as nat == flat_option_count(*src, *options));
    validate_both(src)?;
    flat_presence(src, data, &desired, &desired_v6, option_count)?;
    flat_existing(data, options)?;
    let (st, _hosts, _hosts6) = flat_hosts(src, data);
    Ok(st)
}

/// Converts to the flat backend: the ranges, options and hosts to write and the services to
/// switch, or the failure that stops the run.
pub fn convert_dnsmasq(src: &SourceData, data: &DnsmasqData, options: &MigrationOptions) -> (r: Result<
    DnsmasqConversion,
    MigrationError,
>)
    ensures
        flat_run_ok(
            *src,
            *data,
            *options,
            match r {
                Ok(c) => Ok(c.stats),
                Err(e) => Err(e@),
            },
        ),
        r is Ok ==> r->Ok_0.hosts@.len() == src.mappings@.len() && r->Ok_0.hosts_v6@.len()
            == src.mappings_v6@.len(),
        r is Ok ==> forall|j: int|
            0 <= j < src.mappings@.len() ==> ((#[trigger] r->Ok_0.hosts@[j]) is Some <==> flat_run_v4(
                *src,
                *data,
            ).0[j]),
        r is Ok ==> forall|j: int|
            0 <= j < src.mappings_v6@.len() ==> ((#[trigger] r->Ok_0.hosts_v6@[j]) is Some
                <==> flat_run_v6(*src, *data).0[j]),
        r is Ok && !options.create_subnets ==> r->Ok_0.ranges@.len() == 0,
        flat_gate(*src, *data, *options, kea_want(*options)) is Some ==> r is Err && r->Err_0@ == flat_gate(
            *src,
            *data,
            *options,
            kea_want(*options),
        )->Some_0,
        flat_gate(*src, *data, *options, kea_want(*options)) is None && flat_ranges_ok(*src, *options, kea_want(*options)) && (
        !options.enable_backend || !flat_has_ranges(*src, *data, kea_want(*options)) || data.present) ==> r is Ok,
        flat_gate(*src, *data, *options, kea_want(*options)) is None && !flat_ranges_ok(*src, *options, kea_want(*options)) ==> r is Err,
        flat_gate(*src, *data, *options, kea_want(*options)) is None && flat_ranges_ok(*src, *options, kea_want(*options))
            && options.enable_backend && flat_has_ranges(*src, *data, kea_want(*options)) && !data.present ==> r is Err
            && r->Err_0@ == (ErrorView::EnableFailed { backend: Backend::Dnsmasq, v6: false }),
        r is Ok ==> r->Ok_0.enable == (options.enable_backend && flat_has_ranges(*src, *data, kea_want(*options)))
            && r->Ok_0.stats.backend_enabled_v4 == r->Ok_0.enable && r->Ok_0.stats.backend_enabled_v6
            == r->Ok_0.enable,
        r is Ok && options.enable_backend ==> disabled_ok(r->Ok_0.stats.isc_disabled_v4@, src.flags_v4@)
            && disabled_ok(r->Ok_0.stats.isc_disabled_v6@, src.flags_v6@),
        r is Ok && !options.enable_backend ==> r->Ok_0.stats.isc_disabled_v4@.len() == 0
            && r->Ok_0.stats.isc_disabled_v6@.len() == 0,
        r is Ok && options.create_subnets && (desired_v4_of(*src, kea_want(*options)).len() > 0 || desired_v6_of(*src, kea_want(*options)).len()
            > 0) ==> r->Ok_0.interfaces is Some && merged_list(
            r->Ok_0.interfaces->Some_0@,
            data.interfaces,
            view_ifaces(desired_v4_of(*src, kea_want(*options))) + view_ifaces(desired_v6_of(*src, kea_want(*options))),
        ) && configured_ok(
            r->Ok_0.stats.interfaces_configured@,
            desired_v4_of(*src, kea_want(*options)),
            desired_v6_of(*src, kea_want(*options)),
        ),
        r is Ok && !(options.create_subnets && (desired_v4_of(*src, kea_want(*options)).len() > 0 || desired_v6_of(*src, kea_want(*options)).len()
            > 0)) ==> r->Ok_0.interfaces is None && r->Ok_0.stats.interfaces_configured@.len() == 0,
        r is Ok ==> forall|j: int|
            0 <= j < src.mappings@.len() && (#[trigger] r->Ok_0.hosts@[j]) is Some ==> r->Ok_0.hosts@[j].unwrap().tag@
                == "hosts"@ && fields_view(r->Ok_0.hosts@[j].unwrap().fields@) == host_fields_v4(src.mappings@[j]),
        r is Ok ==> forall|j: int|
            0 <= j < src.mappings_v6@.len() && (#[trigger] r->Ok_0.hosts_v6@[j]) is Some
                ==> r->Ok_0.hosts_v6@[j].unwrap().tag@ == "hosts"@ && fields_view(
                r->Ok_0.hosts_v6@[j].unwrap().fields@,
            ) == host_fields_v6(src.mappings_v6@[j]),
        r is Ok && options.create_subnets ==> desired_subnets(
            Family::V4,
            ranges_view(src.ranges@),
            src.iface_cidrs@,
        ) is Ok && desired_subnets(Family::V6, ranges_view_v6(src.ranges_v6@), src.iface_cidrs_v6@) is Ok
            && all_range_parts(
            Family::V4,
            desired_subnets(Family::V4, ranges_view(src.ranges@), src.iface_cidrs@)->Ok_0,
        ) is Some && all_range_parts(
            Family::V6,
            desired_subnets(Family::V6, ranges_view_v6(src.ranges_v6@), src.iface_cidrs_v6@)->Ok_0,
        ) is Some && range_changes_follow(
            r->Ok_0.ranges@,
            all_range_parts(
                Family::V4,
                desired_subnets(Family::V4, ranges_view(src.ranges@), src.iface_cidrs@)->Ok_0,
            )->Some_0 + all_range_parts(
                Family::V6,
                desired_subnets(Family::V6, ranges_view_v6(src.ranges_v6@), src.iface_cidrs_v6@)->Ok_0,
            )->Some_0,
            data.range_keys@,
            options.force_subnets,
        ),
        r is Ok && !options.create_options ==> r->Ok_0.options@.len() == 0,
        r is Ok && options.create_options ==> option_changes_follow(
            r->Ok_0.options@,
            all_options_v4(src.options_v4@) + all_options_v6(src.options_v6@),
            data.option_keys@,
            options.force_options,
        ),
{
    let want_desired = options.create_subnets || options.enable_backend;
    let (desired, desired_v6) = kea_desired(src, want_desired)?;
    let specs = if options.create_options {
        dnsmasq_option_specs_from_isc(src.options_v4.as_slice(), src.options_v6.as_slice())
    } else {
        Vec::new()
    };
    assert(options.create_options ==> spec_views(specs@) == all_options_v4(src.options_v4@)
        + all_options_v6(src.options_v6@));
    validate_both(src)?;
    flat_presence(src, data, &desired, &desired_v6, specs.len())?;
    flat_existing(data, options)?;
    let mut ranges: Vec<Option<KeyedChange>> = Vec::new();
    if options.create_subnets {
        let mut items = dnsmasq_range_items(Family::V4, &desired)?;
        let mut items6 = dnsmasq_range_items(Family::V6, &desired_v6)?;
        let ghost p4 = all_range_parts(Family::V4, desired_views(desired@))->Some_0;
        let ghost p6 = all_range_parts(Family::V6, desired_views(desired_v6@))->Some_0;
        let ghost before4 = items@;
        let ghost before6 = items6@;
        items.append(&mut items6);
        let ghost all = items@;
        ranges = merge_keyed(items, data.range_keys.as_slice(), options.force_subnets);
        proof {
            let parts = p4 + p6;
            assert(all =~= before4 + before6);
            assert forall|i: int| 0 <= i < parts.len() implies range_item_ok(#[trigger] all[i], parts[i]) by {
                if i < p4.len() {
                    assert(all[i] == before4[i]);
                } else {
                    assert(all[i] == before6[i - p4.len()]);
                }
            }
            assert forall|i: int| 0 <= i < parts.len() implies {
                let key = key_text(parts[i]);
                let present = has_key(data.range_keys@, key);
                &&& ((#[trigger] ranges@[i]) is None <==> present && !options.force_subnets)
                &&& ranges@[i] is Some ==> {
                    &&& ranges@[i].unwrap().key@ == key
                    &&& ranges@[i].unwrap().replace == present
                    &&& ranges@[i].unwrap().record.tag@ == "dhcp_ranges"@
                    &&& fields_view(ranges@[i].unwrap().record.fields@) == zip_fields(range_field_names(), parts[i])
                }
            } by {
                assert(range_item_ok(all[i], parts[i]));
            }
        }
    }
    let mut option_changes: Vec<Option<KeyedChange>> = Vec::new();
    if options.create_options {
        let items = dnsmasq_option_items(&specs);
        let ghost item_view = items@;
        option_changes = merge_keyed(items, data.option_keys.as_slice(), options.force_options);
        proof {
            let opts = all_options_v4(src.options_v4@) + all_options_v6(src.options_v6@);
            assert forall|i: int| 0 <= i < opts.len() implies opts[i] == spec_view(
                #[trigger] specs@[i],
            ) by {
                assert(spec_views(specs@)[i] == spec_view(specs@[i]));
            }
            assert forall|i: int| 0 <= i < opts.len() implies {
                let key = key_text(option_key_parts(opts[i]));
                let present = has_key(data.option_keys@, key);
                &&& ((#[trigger] option_changes@[i]) is None <==> present && !options.force_options)
                &&& option_changes@[i] is Some ==> {
                    &&& option_changes@[i].unwrap().key@ == key
                    &&& option_changes@[i].unwrap().replace == present
                    &&& option_changes@[i].unwrap().record.tag@ == "dhcp_options"@
                    &&& fields_view(option_changes@[i].unwrap().record.fields@) == option_fields(opts[i])
                }
            } by {
                assert(opts[i] == spec_view(specs@[i]));
                assert(item_view[i].0@ == key_text(option_key_parts(spec_view(specs@[i]))));
            }
        }
    }
    let (mut stats, hosts, hosts_v6) = flat_hosts(src, data);
    let (interfaces, enable) = flat_switch(src, data, options, &desired, &desired_v6, &mut stats)?;
    Ok(
        DnsmasqConversion {
            stats,
            ranges,
            options: option_changes,
            hosts,
            hosts_v6,
            interfaces,
            enable,
        },
    )
}


/// Counts what the configuration holds, without any check: mappings and ranges of both
/// families, and the subnet-oriented target's subnets (none for the flat backend).
pub fn scan_counts(src: &SourceData, data: &KeaData, backend: &Backend) -> (r: MigrationStats)
    ensures
        r.isc_mappings_found == src.mappings@.len(),
        r.isc_mappings_v6_found == src.mappings_v6@.len(),
        r.isc_ranges_found == src.ranges@.len(),
        r.isc_ranges_v6_found == src.ranges_v6@.len(),
        r.target_subnets_found == if *backend == Backend::Kea {
            data.subnets@.len()
        } else {
            0
        },
        r.target_subnets_v6_found == if *backend == Backend::Kea {
            data.subnets_v6@.len()
        } else {
            0
        },
        r.reservations_to_create == 0,
        r.reservations_v6_to_create == 0,
        r.reservations_skipped == 0,
        r.reservations_v6_skipped == 0,
{
    let mut st = MigrationStats::default();
    st.isc_mappings_found = src.mappings.len();
    st.isc_mappings_v6_found = src.mappings_v6.len();
    st.isc_ranges_found = src.ranges.len();
    st.isc_ranges_v6_found = src.ranges_v6.len();
    match backend {
        Backend::Kea => {
            st.target_subnets_found = data.subnets.len();
            st.target_subnets_v6_found = data.subnets_v6.len();
        },
        Backend::Dnsmasq => {},
    }
    st
}


/// The keys a conversion to the subnet-oriented backend leaves taken, per family.
pub open spec fn kea_taken_after(s: SourceData, d: KeaData) -> (Seq<(u8, Seq<char>)>, Seq<(u8, Seq<char>)>) {
    (
        admitted(claims_by_address(s.mappings@), kea_seed_v4(d)).1,
        admitted(claims_by_address_duid(s.mappings_v6@), kea_seed_v6(d)).1,
    )
}

/// Converting again creates nothing: when the target read for a second run (`after`) still
/// holds every reservation the first run found or created, the second run accepts no mapping
/// of either family.
pub proof fn lemma_kea_second_run_creates_nothing(s: SourceData, before: KeaData, after: KeaData)
    requires
        forall|x: (u8, Seq<char>)|
            kea_taken_after(s, before).0.contains(x) ==> #[trigger] kea_seed_v4(after).contains(x),
        forall|x: (u8, Seq<char>)|
            kea_taken_after(s, before).1.contains(x) ==> #[trigger] kea_seed_v6(after).contains(x),
    ensures
        count_true(kea_verdicts_v4(s, after)) == 0,
        count_true(kea_verdicts_v6(s, after)) == 0,
{
    let c4 = claims_by_address(s.mappings@);
    let c6 = claims_by_address_duid(s.mappings_v6@);
    assert forall|i: int| 0 <= i < c4.len() implies (#[trigger] c4[i]).len() > 0 by {}
    assert forall|i: int| 0 <= i < c6.len() implies (#[trigger] c6[i]).len() > 0 by {}
    crate::ledger::lemma_rerun_accepts_nothing(c4, kea_seed_v4(before), kea_seed_v4(after));
    crate::ledger::lemma_rerun_accepts_nothing(c6, kea_seed_v6(before), kea_seed_v6(after));
}

/// Converting again creates nothing on the flat backend either: when the target read for a
/// second run still holds every host key the first run found or created, no mapping of either
/// family is accepted.
pub proof fn lemma_flat_second_run_creates_nothing(s: SourceData, before: DnsmasqData, after: DnsmasqData)
    requires
        forall|x: (u8, Seq<char>)|
            flat_run_v6(s, before).1.contains(x) ==> #[trigger] flat_seed(after).contains(x),
    ensures
        count_true(flat_run_v4(s, after).0) == 0,
        count_true(flat_run_v6(s, after).0) == 0,
{
    let c4 = claims_by_address_hw(s.mappings@);
    let c6 = claims_by_address_duid(s.mappings_v6@);
    assert forall|i: int| 0 <= i < c4.len() implies (#[trigger] c4[i]).len() > 0 by {}
    assert forall|i: int| 0 <= i < c6.len() implies (#[trigger] c6[i]).len() > 0 by {}
    crate::ledger::lemma_ledger_grows(c6, flat_run_v4(s, before).1);
    assert forall|x: (u8, Seq<char>)| flat_run_v4(s, before).1.contains(x) implies #[trigger] flat_seed(
        after,
    ).contains(x) by {
        assert(flat_run_v6(s, before).1.contains(x));
    }
    crate::ledger::lemma_rerun_accepts_nothing(c4, flat_seed(before), flat_seed(after));
    crate::ledger::lemma_ledger_grows(c6, flat_run_v4(s, after).1);
    crate::ledger::lemma_ledger_grows(c4, flat_seed(after));
    assert forall|x: (u8, Seq<char>)| flat_run_v6(s, before).1.contains(x) implies #[trigger] flat_run_v4(
        s,
        after,
    ).1.contains(x) by {
        assert(flat_seed(after).contains(x));
    }
    crate::ledger::lemma_rerun_accepts_nothing(c6, flat_run_v4(s, before).1, flat_run_v4(s, after).1);
}

/// On the flat backend too, a scan reports as many hosts to create as a conversion with the
/// same input and options appends.
pub proof fn lemma_flat_scan_matches_convert(
    s: SourceData,
    d: DnsmasqData,
    o: MigrationOptions,
    scan: MigrationStats,
    conv: DnsmasqConversion,
)
    requires
        flat_run_ok(s, d, o, Ok(scan)),
        conv.hosts@.len() == s.mappings@.len(),
        conv.hosts_v6@.len() == s.mappings_v6@.len(),
        forall|j: int|
            0 <= j < s.mappings@.len() ==> ((#[trigger] conv.hosts@[j]) is Some <==> flat_run_v4(s, d).0[j]),
        forall|j: int|
            0 <= j < s.mappings_v6@.len() ==> ((#[trigger] conv.hosts_v6@[j]) is Some <==> flat_run_v6(
                s,
                d,
            ).0[j]),
    ensures
        scan.reservations_to_create == count_some(conv.hosts@),
        scan.reservations_v6_to_create == count_some(conv.hosts_v6@),
{
    crate::ledger::lemma_ledger_grows(claims_by_address_hw(s.mappings@), flat_seed(d));
    crate::ledger::lemma_ledger_grows(claims_by_address_duid(s.mappings_v6@), flat_run_v4(s, d).1);
    lemma_counts_agree(conv.hosts@, flat_run_v4(s, d).0);
    lemma_counts_agree(conv.hosts_v6@, flat_run_v6(s, d).0);
}


/// A mapping whose address lies in some interface's network, but in none of the networks of
/// the interface it is declared under, fails the whole run on the subnet-oriented backend (so
/// no record is produced); when it is the first mapping to fail its check and the desired
/// subnets (if asked for) build, the failure is an interface mismatch, whatever the flags.
/// `r` is the result of a scan (`want` = subnet creation) or a conversion (`want` = subnet
/// creation or enabling), whose contracts give the two hypotheses on it.
pub proof fn lemma_kea_foreign_address_fails(
    s: SourceData,
    d: KeaData,
    o: MigrationOptions,
    want: bool,
    r: Result<MigrationStats, ErrorView>,
    j: int,
)
    requires
        kea_run_ok(s, d, o, r),
        kea_gate(s, d, o, want) is Some ==> r == Err::<MigrationStats, ErrorView>(kea_gate(s, d, o, want)->Some_0),
        0 <= j < s.mappings@.len(),
        addr_of(Family::V4, s.mappings@[j].ipaddr@) is Some,
        forall|k: int|
            0 <= k < s.iface_cidrs@.len() ==> net_of(Family::V4, (#[trigger] s.iface_cidrs@[k]).1@) is Some,
        exists|k: int|
            0 <= k < s.iface_cidrs@.len() && net_contains(
                Family::V4,
                net_of(Family::V4, (#[trigger] s.iface_cidrs@[k]).1@).unwrap(),
                addr_of(Family::V4, s.mappings@[j].ipaddr@).unwrap(),
            ),
        forall|k: int|
            0 <= k < s.iface_cidrs@.len() && same_ignoring_ascii_case(
                (#[trigger] s.iface_cidrs@[k]).0@,
                s.mappings@[j].iface@,
            ) ==> !net_contains(
                Family::V4,
                net_of(Family::V4, s.iface_cidrs@[k].1@).unwrap(),
                addr_of(Family::V4, s.mappings@[j].ipaddr@).unwrap(),
            ),
    ensures
        r is Err,
        desired_failure(s, want) is None && (forall|x: int|
            0 <= x < j ==> (#[trigger] checks_v4(s.mappings@, s.iface_cidrs@)[x]) is None) ==> r matches Err(
            ErrorView::InterfaceMismatch { .. },
        ),
{
    let m = s.mappings@[j];
    let c = checks_v4(s.mappings@, s.iface_cidrs@);
    lemma_foreign_address_mismatch(Family::V4, m.ipaddr@, m.iface@, s.iface_cidrs@);
    assert(c[j] == iface_check(Family::V4, m.ipaddr@, m.iface@, s.iface_cidrs@));
    assert(!all_pass(c));
    if desired_failure(s, want) is None && (forall|x: int| 0 <= x < j ==> (#[trigger] c[x]) is None) {
        let e = c[j].unwrap();
        assert(first_failure(c, e));
        let e2 = choose|e: ErrorView| first_failure(c, e);
        crate::resolve::lemma_first_failure_unique(c, e, e2);
        assert(check_failure(s) == Some(e));
    }
}

} // verus!
