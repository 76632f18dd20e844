//! Turning accepted mappings into target records, through the duplicate ledger.

use vstd::prelude::*;

use crate::addr::{lookup, Family};
use crate::errors::{ErrorView, MigrationError};
use crate::ledger::{admitted, claims_view, count_true, keys_view, run_claims, Key, SLOT_ADDRESS, SLOT_CLIENT, SLOT_HARDWARE};
use crate::records::{
    create_dnsmasq_host_element, create_dnsmasq_host_element_v6, create_reservation_element,
    create_reservation_element_v6, fields_view, host_fields_v4, host_fields_v6,
    reservation_fields_v4, reservation_fields_v6, Record,
};
use crate::resolve::{find_subnet_in, subnet_cidrs};
use crate::types::{IscStaticMap, IscStaticMapV6, Subnet};

verus! {

/// IPv4 mappings claiming their address only.
pub open spec fn claims_by_address(m: Seq<IscStaticMap>) -> Seq<Seq<(u8, Seq<char>)>> {
    m.map_values(|x: IscStaticMap| seq![(SLOT_ADDRESS, x.ipaddr@)])
}

/// IPv4 mappings claiming their address and their hardware address.
pub open spec fn claims_by_address_hw(m: Seq<IscStaticMap>) -> Seq<Seq<(u8, Seq<char>)>> {
    m.map_values(|x: IscStaticMap| seq![(SLOT_ADDRESS, x.ipaddr@), (SLOT_HARDWARE, x.mac@)])
}

/// IPv6 mappings claiming their address and their DUID.
pub open spec fn claims_by_address_duid(m: Seq<IscStaticMapV6>) -> Seq<Seq<(u8, Seq<char>)>> {
    m.map_values(|x: IscStaticMapV6| seq![(SLOT_ADDRESS, x.ipaddr@), (SLOT_CLIENT, x.duid@)])
}

/// Existing target values as ledger keys of one set.
pub open spec fn seed_keys(slot: u8, v: Seq<String>) -> Seq<(u8, Seq<char>)> {
    v.map_values(|s: String| (slot, s@))
}

/// Adds existing target values to the ledger under one set.
pub fn seed_ledger(taken: &mut Vec<Key>, slot: u8, values: &[String])
    ensures
        keys_view(final(taken)@) == keys_view(old(taken)@) + seed_keys(slot, values@),
{
    let ghost start = keys_view(taken@);
    let mut i: usize = 0;
    while i < values.len()
        invariant
            i <= values@.len(),
            keys_view(taken@) == start + seed_keys(slot, values@).take(i as int),
        decreases values@.len() - i,
    {
        let ghost before = keys_view(taken@);
        taken.push((slot, values[i].clone()));
        proof {
            assert(keys_view(taken@) =~= before.push((slot, values@[i as int]@)));
            assert(seed_keys(slot, values@).take(i + 1) =~= seed_keys(slot, values@).take(i as int).push(
                (slot, values@[i as int]@),
            ));
        }
        i = i + 1;
    }
    assert(seed_keys(slot, values@).take(values@.len() as int) =~= seed_keys(slot, values@));
}

fn address_claims(m: &[IscStaticMap]) -> (r: Vec<Vec<Key>>)
    ensures
        claims_view(r@) == claims_by_address(m@),
{
    let mut r: Vec<Vec<Key>> = Vec::new();
    let mut i: usize = 0;
    while i < m.len()
        invariant
            i <= m@.len(),
            r@.len() == i,
            forall|j: int| 0 <= j < i ==> claims_view(r@)[j] == #[trigger] claims_by_address(m@)[j],
        decreases m@.len() - i,
    {
        let mut c: Vec<Key> = Vec::new();
        c.push((SLOT_ADDRESS, m[i].ipaddr.clone()));
        assert(keys_view(c@) =~= seq![(SLOT_ADDRESS, m@[i as int].ipaddr@)]);
        r.push(c);
        i = i + 1;
    }
    assert(claims_view(r@) =~= claims_by_address(m@));
    r
}

fn address_hw_claims(m: &[IscStaticMap]) -> (r: Vec<Vec<Key>>)
    ensures
        claims_view(r@) == claims_by_address_hw(m@),
{
    let mut r: Vec<Vec<Key>> = Vec::new();
    let mut i: usize = 0;
    while i < m.len()
        invariant
            i <= m@.len(),
            r@.len() == i,
            forall|j: int| 0 <= j < i ==> claims_view(r@)[j] == #[trigger] claims_by_address_hw(m@)[j],
        decreases m@.len() - i,
    {
        let mut c: Vec<Key> = Vec::new();
        c.push((SLOT_ADDRESS, m[i].ipaddr.clone()));
        c.push((SLOT_HARDWARE, m[i].mac.clone()));
        assert(keys_view(c@) =~= seq![(SLOT_ADDRESS, m@[i as int].ipaddr@), (SLOT_HARDWARE, m@[i as int].mac@)]);
        r.push(c);
        i = i + 1;
    }
    assert(claims_view(r@) =~= claims_by_address_hw(m@));
    r
}

fn address_duid_claims(m: &[IscStaticMapV6]) -> (r: Vec<Vec<Key>>)
    ensures
        claims_view(r@) == claims_by_address_duid(m@),
{
    let mut r: Vec<Vec<Key>> = Vec::new();
    let mut i: usize = 0;
    while i < m.len()
        invariant
            i <= m@.len(),
            r@.len() == i,
            forall|j: int| 0 <= j < i ==> claims_view(r@)[j] == #[trigger] claims_by_address_duid(m@)[j],
        decreases m@.len() - i,
    {
        let mut c: Vec<Key> = Vec::new();
        c.push((SLOT_ADDRESS, m[i].ipaddr.clone()));
        c.push((SLOT_CLIENT, m[i].duid.clone()));
        assert(keys_view(c@) =~= seq![(SLOT_ADDRESS, m@[i as int].ipaddr@), (SLOT_CLIENT, m@[i as int].duid@)]);
        r.push(c);
        i = i + 1;
    }
    assert(claims_view(r@) =~= claims_by_address_duid(m@));
    r
}

/// The reservation for IPv4 mapping `m` in the most specific subnet holding its address.
pub open spec fn reservation_ok_v4(rec: Record, m: IscStaticMap, subnets: Seq<Subnet>) -> bool {
    match lookup(Family::V4, m.ipaddr@, subnet_cidrs(subnets), ErrorView::NoMatchingSubnet(m.ipaddr@)) {
        Ok(i) => rec.tag@ == "reservation"@ && fields_view(rec.fields@) == reservation_fields_v4(
            m,
            subnets[i].uuid@,
        ),
        Err(_) => false,
    }
}

/// The reservation for IPv6 mapping `m` in the most specific subnet holding its address.
pub open spec fn reservation_ok_v6(rec: Record, m: IscStaticMapV6, subnets: Seq<Subnet>) -> bool {
    match lookup(Family::V6, m.ipaddr@, subnet_cidrs(subnets), ErrorView::NoMatchingSubnet(m.ipaddr@)) {
        Ok(i) => rec.tag@ == "reservation"@ && fields_view(rec.fields@) == reservation_fields_v6(
            m,
            subnets[i].uuid@,
        ),
        Err(_) => false,
    }
}

/// The address of an accepted mapping resolves to a subnet.
pub open spec fn resolves(f: Family, ip: Seq<char>, subnets: Seq<Subnet>) -> bool {
    lookup(f, ip, subnet_cidrs(subnets), ErrorView::NoMatchingSubnet(ip)) is Ok
}

/// How many entries are present.
pub open spec fn count_some<T>(v: Seq<Option<T>>) -> nat
    decreases v.len(),
{
    if v.len() == 0 {
        0
    } else {
        count_some(v.drop_last()) + if v.last() is Some {
            1nat
        } else {
            0nat
        }
    }
}

/// Counts the present entries.
pub fn count_present<T>(v: &Vec<Option<T>>) -> (r: usize)
    ensures
        r == count_some(v@),
{
    let mut n: usize = 0;
    let mut i: usize = 0;
    while i < v.len()
        invariant
            i <= v@.len(),
            n == count_some(v@.take(i as int)),
            n <= i,
        decreases v@.len() - i,
    {
        proof {
            assert(v@.take(i + 1).drop_last() =~= v@.take(i as int));
        }
        if v[i].is_some() {
            n = n + 1;
        }
        i = i + 1;
    }
    assert(v@.take(v@.len() as int) =~= v@);
    n
}

/// Entries are present exactly where the verdicts accept, so both count the same.
pub proof fn lemma_counts_agree<T>(v: Seq<Option<T>>, b: Seq<bool>)
    requires
        v.len() == b.len(),
        forall|j: int| 0 <= j < v.len() ==> ((#[trigger] v[j]) is Some <==> b[j]),
    ensures
        count_some(v) == count_true(b),
    decreases v.len(),
{
    if v.len() > 0 {
        let (v2, b2) = (v.drop_last(), b.drop_last());
        assert forall|j: int| 0 <= j < v2.len() implies ((#[trigger] v2[j]) is Some <==> b2[j]) by {
            assert(v2[j] == v[j]);
            assert(b2[j] == b[j]);
        }
        lemma_counts_agree(v2, b2);
    }
}

/// Reservations for IPv4 mappings: the ledger, seeded with `seed`, decides which mappings are
/// accepted; each accepted one is reserved in the most specific subnet holding its address.
/// Fails when an accepted mapping's address resolves to no subnet.
pub fn reservations_v4(mappings: &[IscStaticMap], subnets: &[Subnet], seed: &Vec<Key>) -> (r: Result<
    Vec<Option<Record>>,
    MigrationError,
>)
    ensures
        r is Ok <==> forall|j: int|
            0 <= j < mappings@.len() && #[trigger] admitted(claims_by_address(mappings@), keys_view(seed@)).0[j]
                ==> resolves(Family::V4, mappings@[j].ipaddr@, subnets@),
        r is Ok ==> r.unwrap()@.len() == mappings@.len(),
        r is Ok ==> forall|j: int|
            0 <= j < mappings@.len() ==> ((#[trigger] r.unwrap()@[j]) is Some <==> admitted(
                claims_by_address(mappings@),
                keys_view(seed@),
            ).0[j]) && (r.unwrap()@[j] is Some ==> reservation_ok_v4(r.unwrap()@[j].unwrap(), mappings@[j], subnets@)),
        r is Err ==> exists|j: int|
            0 <= j < mappings@.len() && #[trigger] admitted(claims_by_address(mappings@), keys_view(seed@)).0[j]
                && lookup(
                Family::V4,
                mappings@[j].ipaddr@,
                subnet_cidrs(subnets@),
                ErrorView::NoMatchingSubnet(mappings@[j].ipaddr@),
            ) == Err::<int, ErrorView>(r->Err_0@),
{
    let claims = address_claims(mappings);
    let mut taken: Vec<Key> = Vec::new();
    let mut k: usize = 0;
    while k < seed.len()
        invariant
            k <= seed@.len(),
            taken@ == seed@.take(k as int),
        decreases seed@.len() - k,
    {
        taken.push((seed[k].0, seed[k].1.clone()));
        assert(taken@ =~= seed@.take(k + 1));
        k = k + 1;
    }
    assert(taken@ =~= seed@);
    let verdicts = run_claims(&claims, &mut taken);
    let ghost v = admitted(claims_by_address(mappings@), keys_view(seed@)).0;
    proof {
        crate::ledger::lemma_ledger_grows(claims_by_address(mappings@), keys_view(seed@));
    }
    let mut out: Vec<Option<Record>> = Vec::new();
    let mut j: usize = 0;
    while j < mappings.len()
        invariant
            j <= mappings@.len(),
            verdicts@ == v,
            v == admitted(claims_by_address(mappings@), keys_view(seed@)).0,
            v.len() == mappings@.len(),
            out@.len() == j,
            forall|x: int|
                0 <= x < j ==> ((#[trigger] out@[x]) is Some <==> v[x]) && (out@[x] is Some
                    ==> reservation_ok_v4(out@[x].unwrap(), mappings@[x], subnets@)),
            forall|x: int| 0 <= x < j && #[trigger] v[x] ==> resolves(Family::V4, mappings@[x].ipaddr@, subnets@),
        decreases mappings@.len() - j,
    {
        if verdicts[j] {
            let m = &mappings[j];
            let uuid = match find_subnet_in(Family::V4, m.ipaddr.as_str(), subnets) {
                Ok(u) => u,
                Err(e) => {
                    proof {
                        assert(v[j as int]);
                        assert(lookup(
                            Family::V4,
                            m.ipaddr@,
                            subnet_cidrs(subnets@),
                            ErrorView::NoMatchingSubnet(m.ipaddr@),
                        ) == Err::<int, ErrorView>(e@));
                        assert(!resolves(Family::V4, mappings@[j as int].ipaddr@, subnets@));
                        assert(!(forall|x: int|
                            0 <= x < mappings@.len() && #[trigger] v[x] ==> resolves(
                                Family::V4,
                                mappings@[x].ipaddr@,
                                subnets@,
                            )));
                    }
                    return Err(e);
                },
            };
            let rec = create_reservation_element(m, uuid.as_str());
            out.push(Some(rec));
        } else {
            out.push(None);
        }
        j = j + 1;
    }
    Ok(out)
}

/// Reservations for IPv6 mappings, as for IPv4 but claiming both address and DUID.
pub fn reservations_v6(mappings: &[IscStaticMapV6], subnets: &[Subnet], seed: &Vec<Key>) -> (r: Result<
    Vec<Option<Record>>,
    MigrationError,
>)
    ensures
        r is Ok <==> forall|j: int|
            0 <= j < mappings@.len() && #[trigger] admitted(claims_by_address_duid(mappings@), keys_view(seed@)).0[j]
                ==> resolves(Family::V6, mappings@[j].ipaddr@, subnets@),
        r is Ok ==> r.unwrap()@.len() == mappings@.len(),
        r is Ok ==> forall|j: int|
            0 <= j < mappings@.len() ==> ((#[trigger] r.unwrap()@[j]) is Some <==> admitted(
                claims_by_address_duid(mappings@),
                keys_view(seed@),
            ).0[j]) && (r.unwrap()@[j] is Some ==> reservation_ok_v6(r.unwrap()@[j].unwrap(), mappings@[j], subnets@)),
        r is Err ==> exists|j: int|
            0 <= j < mappings@.len() && #[trigger] admitted(claims_by_address_duid(mappings@), keys_view(seed@)).0[j]
                && lookup(
                Family::V6,
                mappings@[j].ipaddr@,
                subnet_cidrs(subnets@),
                ErrorView::NoMatchingSubnet(mappings@[j].ipaddr@),
            ) == Err::<int, ErrorView>(r->Err_0@),
{
    let claims = address_duid_claims(mappings);
    let mut taken: Vec<Key> = Vec::new();
    let mut k: usize = 0;
    while k < seed.len()
        invariant
            k <= seed@.len(),
            taken@ == seed@.take(k as int),
        decreases seed@.len() - k,
    {
        taken.push((seed[k].0, seed[k].1.clone()));
        assert(taken@ =~= seed@.take(k + 1));
        k = k + 1;
    }
    assert(taken@ =~= seed@);
    let verdicts = run_claims(&claims, &mut taken);
    let ghost v = admitted(claims_by_address_duid(mappings@), keys_view(seed@)).0;
    proof {
        crate::ledger::lemma_ledger_grows(claims_by_address_duid(mappings@), keys_view(seed@));
    }
    let mut out: Vec<Option<Record>> = Vec::new();
    let mut j: usize = 0;
    while j < mappings.len()
        invariant
            j <= mappings@.len(),
            verdicts@ == v,
            v == admitted(claims_by_address_duid(mappings@), keys_view(seed@)).0,
            v.len() == mappings@.len(),
            out@.len() == j,
            forall|x: int|
                0 <= x < j ==> ((#[trigger] out@[x]) is Some <==> v[x]) && (out@[x] is Some
                    ==> reservation_ok_v6(out@[x].unwrap(), mappings@[x], subnets@)),
            forall|x: int| 0 <= x < j && #[trigger] v[x] ==> resolves(Family::V6, mappings@[x].ipaddr@, subnets@),
        decreases mappings@.len() - j,
    {
        if verdicts[j] {
            let m = &mappings[j];
            let uuid = match find_subnet_in(Family::V6, m.ipaddr.as_str(), subnets) {
                Ok(u) => u,
                Err(e) => {
                    proof {
                        assert(v[j as int]);
                        assert(lookup(
                            Family::V6,
                            m.ipaddr@,
                            subnet_cidrs(subnets@),
                            ErrorView::NoMatchingSubnet(m.ipaddr@),
                        ) == Err::<int, ErrorView>(e@));
                        assert(!resolves(Family::V6, mappings@[j as int].ipaddr@, subnets@));
                        assert(!(forall|x: int|
                            0 <= x < mappings@.len() && #[trigger] v[x] ==> resolves(
                                Family::V6,
                                mappings@[x].ipaddr@,
                                subnets@,
                            )));
                    }
                    return Err(e);
                },
            };
            let rec = create_reservation_element_v6(m, uuid.as_str());
            out.push(Some(rec));
        } else {
            out.push(None);
        }
        j = j + 1;
    }
    Ok(out)
}

/// Flat host entries for IPv4 mappings, claiming address and hardware address against the
/// shared ledger `taken`, which the accepted ones extend.
pub fn hosts_v4(mappings: &[IscStaticMap], taken: &mut Vec<Key>) -> (r: Vec<Option<Record>>)
    ensures
        ({
            let run = admitted(claims_by_address_hw(mappings@), keys_view(old(taken)@));
            &&& keys_view(final(taken)@) == run.1
            &&& r@.len() == mappings@.len()
            &&& forall|j: int|
                0 <= j < mappings@.len() ==> ((#[trigger] r@[j]) is Some <==> run.0[j]) && (r@[j] is Some
                    ==> r@[j].unwrap().tag@ == "hosts"@ && fields_view(r@[j].unwrap().fields@)
                    == host_fields_v4(mappings@[j]))
        }),
{
    let claims = address_hw_claims(mappings);
    let verdicts = run_claims(&claims, taken);
    proof {
        crate::ledger::lemma_ledger_grows(claims_by_address_hw(mappings@), keys_view(old(taken)@));
    }
    let mut out: Vec<Option<Record>> = Vec::new();
    let mut j: usize = 0;
    while j < mappings.len()
        invariant
            j <= mappings@.len(),
            verdicts@.len() == mappings@.len(),
            out@.len() == j,
            forall|x: int|
                0 <= x < j ==> ((#[trigger] out@[x]) is Some <==> verdicts@[x]) && (out@[x] is Some
                    ==> out@[x].unwrap().tag@ == "hosts"@ && fields_view(out@[x].unwrap().fields@)
                    == host_fields_v4(mappings@[x])),
        decreases mappings@.len() - j,
    {
        if verdicts[j] {
            out.push(Some(create_dnsmasq_host_element(&mappings[j])));
        } else {
            out.push(None);
        }
        j = j + 1;
    }
    out
}

/// Flat host entries for IPv6 mappings, claiming address and DUID against the shared ledger
/// `taken`, which the accepted ones extend.
pub fn hosts_v6(mappings: &[IscStaticMapV6], taken: &mut Vec<Key>) -> (r: Vec<Option<Record>>)
    ensures
        ({
            let run = admitted(claims_by_address_duid(mappings@), keys_view(old(taken)@));
            &&& keys_view(final(taken)@) == run.1
            &&& r@.len() == mappings@.len()
            &&& forall|j: int|
                0 <= j < mappings@.len() ==> ((#[trigger] r@[j]) is Some <==> run.0[j]) && (r@[j] is Some
                    ==> r@[j].unwrap().tag@ == "hosts"@ && fields_view(r@[j].unwrap().fields@)
                    == host_fields_v6(mappings@[j]))
        }),
{
    let claims = address_duid_claims(mappings);
    let verdicts = run_claims(&claims, taken);
    proof {
        crate::ledger::lemma_ledger_grows(claims_by_address_duid(mappings@), keys_view(old(taken)@));
    }
    let mut out: Vec<Option<Record>> = Vec::new();
    let mut j: usize = 0;
    while j < mappings.len()
        invariant
            j <= mappings@.len(),
            verdicts@.len() == mappings@.len(),
            out@.len() == j,
            forall|x: int|
                0 <= x < j ==> ((#[trigger] out@[x]) is Some <==> verdicts@[x]) && (out@[x] is Some
                    ==> out@[x].unwrap().tag@ == "hosts"@ && fields_view(out@[x].unwrap().fields@)
                    == host_fields_v6(mappings@[x])),
        decreases mappings@.len() - j,
    {
        if verdicts[j] {
            out.push(Some(create_dnsmasq_host_element_v6(&mappings[j])));
        } else {
            out.push(None);
        }
        j = j + 1;
    }
    out
}

} // verus!
