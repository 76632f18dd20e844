//! Subnets to create from the legacy ranges, and how they merge into the target.

use vstd::arithmetic::power2::pow2;
use vstd::prelude::*;

use crate::addr::{in_subnet, ip_in_subnet_of, net_of, parse_net, Family};
use crate::errors::{ErrorView, MigrationError};
use crate::records::{fields_view, join_key, key_text, new_uuid, Record};
use crate::resolve::subnet_cidrs;
use crate::text::{copy_text, decimal, dotted, join, join_with, u8_text};
use crate::types::{IscRangeV4, IscRangeV6, Subnet};
use crate::addr::texts;

verus! {

/// A subnet to create: the interface it serves, its network, and its ranges in order.
#[derive(Debug)]
pub struct DesiredSubnet {
    pub iface: String,
    pub cidr: String,
    pub ranges: Vec<(String, String)>,
}

/// A range as its interface, first and last address.
pub type RangeText = (Seq<char>, Seq<char>, Seq<char>);

/// The value of a desired subnet.
pub type DesiredView = (Seq<char>, Seq<char>, Seq<(Seq<char>, Seq<char>)>);

/// The value of a list of `(String, String)` pairs.
pub open spec fn pairs_view(p: Seq<(String, String)>) -> Seq<(Seq<char>, Seq<char>)> {
    p.map_values(|x: (String, String)| (x.0@, x.1@))
}

/// The value of a desired subnet.
pub open spec fn desired_view(d: DesiredSubnet) -> DesiredView {
    (d.iface@, d.cidr@, pairs_view(d.ranges@))
}

/// The values of a list of desired subnets.
pub open spec fn desired_views(d: Seq<DesiredSubnet>) -> Seq<DesiredView> {
    d.map_values(|x: DesiredSubnet| desired_view(x))
}

/// The values of `(interface, first, last)` triples.
pub open spec fn triples_view(r: Seq<(String, String, String)>) -> Seq<RangeText> {
    r.map_values(|x: (String, String, String)| (x.0@, x.1@, x.2@))
}

/// The values of IPv4 ranges.
pub open spec fn ranges_view(r: Seq<IscRangeV4>) -> Seq<RangeText> {
    r.map_values(|x: IscRangeV4| (x.iface@, x.from@, x.to@))
}

/// The values of IPv6 ranges.
pub open spec fn ranges_view_v6(r: Seq<IscRangeV6>) -> Seq<RangeText> {
    r.map_values(|x: IscRangeV6| (x.iface@, x.from@, x.to@))
}

/// The network of the first `(interface, network)` pair named `iface`.
pub open spec fn cidr_of_iface(ifaces: Seq<(String, String)>, iface: Seq<char>) -> Option<Seq<char>>
    decreases ifaces.len(),
{
    if ifaces.len() == 0 {
        None
    } else if ifaces[0].0@ == iface {
        Some(ifaces[0].1@)
    } else {
        cidr_of_iface(ifaces.drop_first(), iface)
    }
}

/// The network of the interface that serves range `r`, once both its ends are checked to lie
/// in it; else the failure.
pub open spec fn range_home(f: Family, r: RangeText, ifaces: Seq<(String, String)>) -> Result<
    Seq<char>,
    ErrorView,
> {
    match cidr_of_iface(ifaces, r.0) {
        None => Err(ErrorView::NoInterfaceCidrForRange { iface: r.0, v6: f == Family::V6 }),
        Some(c) => match in_subnet(f, r.1, c) {
            Err(e) => Err(e),
            Ok(false) => Err(
                ErrorView::RangeOutsideSubnet { from: r.1, to: r.2, iface: r.0, cidr: c, v6: f == Family::V6 },
            ),
            Ok(true) => match in_subnet(f, r.2, c) {
                Err(e) => Err(e),
                Ok(false) => Err(
                    ErrorView::RangeOutsideSubnet {
                        from: r.1,
                        to: r.2,
                        iface: r.0,
                        cidr: c,
                        v6: f == Family::V6,
                    },
                ),
                Ok(true) => Ok(c),
            },
        },
    }
}

/// The index of the group for `iface`, if there is one.
pub open spec fn group_index(d: Seq<DesiredView>, iface: Seq<char>) -> Option<int>
    decreases d.len(),
{
    if d.len() == 0 {
        None
    } else if d.last().0 == iface {
        match group_index(d.drop_last(), iface) {
            Some(i) => Some(i),
            None => Some(d.len() - 1),
        }
    } else {
        group_index(d.drop_last(), iface)
    }
}

/// Adds a range to the group of its interface, opening the group at the end when there is none.
pub open spec fn add_to_group(d: Seq<DesiredView>, r: RangeText, cidr: Seq<char>) -> Seq<DesiredView> {
    match group_index(d, r.0) {
        Some(i) => d.update(i, (d[i].0, d[i].1, d[i].2.push((r.1, r.2)))),
        None => d.push((r.0, cidr, seq![(r.1, r.2)])),
    }
}

/// The subnets to create from ranges, one per interface in the order interfaces first appear,
/// each holding its ranges in order; or the first failure.
pub open spec fn desired_subnets(f: Family, ranges: Seq<RangeText>, ifaces: Seq<(String, String)>) -> Result<
    Seq<DesiredView>,
    ErrorView,
>
    decreases ranges.len(),
{
    if ranges.len() == 0 {
        Ok(Seq::empty())
    } else {
        match desired_subnets(f, ranges.drop_last(), ifaces) {
            Err(e) => Err(e),
            Ok(d) => match range_home(f, ranges.last(), ifaces) {
                Err(e) => Err(e),
                Ok(c) => Ok(add_to_group(d, ranges.last(), c)),
            },
        }
    }
}

pub(crate) fn cidr_for_iface(ifaces: &[(String, String)], iface: &String) -> (r: Option<String>)
    ensures
        match cidr_of_iface(ifaces@, iface@) {
            Some(c) => r is Some && r.unwrap()@ == c,
            None => r is None,
        },
{
    let mut i: usize = 0;
    assert(ifaces@.subrange(0, ifaces@.len() as int) =~= ifaces@);
    while i < ifaces.len()
        invariant
            i <= ifaces@.len(),
            cidr_of_iface(ifaces@, iface@) == cidr_of_iface(ifaces@.subrange(i as int, ifaces@.len() as int), iface@),
        decreases ifaces@.len() - i,
    {
        let ghost rest = ifaces@.subrange(i as int, ifaces@.len() as int);
        assert(rest[0] == ifaces@[i as int]);
        if ifaces[i].0 == *iface {
            return Some(ifaces[i].1.clone());
        }
        assert(rest.drop_first() =~= ifaces@.subrange(i + 1, ifaces@.len() as int));
        i = i + 1;
    }
    None
}

fn find_group(d: &Vec<DesiredSubnet>, iface: &String) -> (r: Option<usize>)
    ensures
        r is Some <==> group_index(desired_views(d@), iface@) is Some,
        r is Some ==> group_index(desired_views(d@), iface@) == Some(r.unwrap() as int),
{
    let ghost dv = desired_views(d@);
    let mut i: usize = 0;
    while i < d.len()
        invariant
            i <= d@.len(),
            dv == desired_views(d@),
            group_index(dv.take(i as int), iface@) is None,
        decreases d@.len() - i,
    {
        proof {
            assert(dv.take(i + 1).drop_last() =~= dv.take(i as int));
            assert(dv.take(i + 1).last() == desired_view(d@[i as int]));
        }
        if d[i].iface == *iface {
            proof {
                lemma_group_index_prefix(dv, iface@, i as int);
            }
            return Some(i);
        }
        i = i + 1;
    }
    assert(dv.take(d@.len() as int) =~= dv);
    None
}

proof fn lemma_group_index_prefix(d: Seq<DesiredView>, iface: Seq<char>, i: int)
    requires
        0 <= i < d.len(),
        d[i].0 == iface,
        group_index(d.take(i), iface) is None,
    ensures
        group_index(d, iface) == Some(i),
    decreases d.len(),
{
    if d.len() - 1 == i {
        assert(d.drop_last() =~= d.take(i));
    } else {
        assert(d.drop_last().take(i) =~= d.take(i));
        lemma_group_index_prefix(d.drop_last(), iface, i);
    }
}

proof fn lemma_group_index_bound(d: Seq<DesiredView>, iface: Seq<char>)
    ensures
        group_index(d, iface) is Some ==> 0 <= group_index(d, iface).unwrap() < d.len(),
    decreases d.len(),
{
    if d.len() > 0 {
        lemma_group_index_bound(d.drop_last(), iface);
    }
}

/// A failure on a prefix of the ranges is the failure on all of them.
proof fn lemma_failure_stays(f: Family, rv: Seq<RangeText>, ifaces: Seq<(String, String)>, n: int)
    requires
        0 <= n <= rv.len(),
    ensures
        desired_subnets(f, rv.take(n), ifaces) is Err ==> desired_subnets(f, rv, ifaces)
            == desired_subnets(f, rv.take(n), ifaces),
    decreases rv.len() - n,
{
    if n < rv.len() {
        lemma_failure_stays(f, rv, ifaces, n + 1);
        assert(rv.take(n + 1).drop_last() =~= rv.take(n));
    } else {
        assert(rv.take(n) =~= rv);
    }
}

/// Groups ranges, given as `(interface, first, last)`, into the subnets to create (see
/// [`desired_subnets`]).
pub fn build_desired_subnets(
    f: Family,
    ranges: &Vec<(String, String, String)>,
    ifaces: &[(String, String)],
) -> (r: Result<Vec<DesiredSubnet>, MigrationError>)
    ensures
        match desired_subnets(
            f,
            triples_view(ranges@),
            ifaces@,
        ) {
            Ok(d) => r is Ok && desired_views(r->Ok_0@) == d,
            Err(e) => r is Err && r->Err_0@ == e,
        },
{
    let ghost rv = triples_view(ranges@);
    let mut out: Vec<DesiredSubnet> = Vec::new();
    let mut k: usize = 0;
    assert(rv.take(0) =~= Seq::<RangeText>::empty());
    assert(desired_views(out@) =~= Seq::<DesiredView>::empty());
    while k < ranges.len()
        invariant
            k <= ranges@.len(),
            rv == triples_view(ranges@),
            desired_subnets(f, rv.take(k as int), ifaces@) == Ok::<Seq<DesiredView>, ErrorView>(
                desired_views(out@),
            ),
        decreases ranges@.len() - k,
    {
        proof {
            assert(rv.take(k + 1).drop_last() =~= rv.take(k as int));
            assert(rv.take(k + 1).last() == rv[k as int]);
        }
        let (iface, from, to) = (&ranges[k].0, &ranges[k].1, &ranges[k].2);
        proof {
            lemma_failure_stays(f, rv, ifaces@, k + 1);
        }
        let cidr = match cidr_for_iface(ifaces, iface) {
            Some(c) => c,
            None => {
                return Err(
                    MigrationError::NoInterfaceCidrForRange { iface: iface.clone(), v6: f == Family::V6 },
                );
            },
        };
        let from_in = ip_in_subnet_of(f, from.as_str(), cidr.as_str())?;
        if !from_in {
            return Err(
                MigrationError::RangeOutsideSubnet {
                    from: from.clone(),
                    to: to.clone(),
                    iface: iface.clone(),
                    cidr: cidr,
                    v6: f == Family::V6,
                },
            );
        }
        let to_in = ip_in_subnet_of(f, to.as_str(), cidr.as_str())?;
        if !to_in {
            return Err(
                MigrationError::RangeOutsideSubnet {
                    from: from.clone(),
                    to: to.clone(),
                    iface: iface.clone(),
                    cidr: cidr,
                    v6: f == Family::V6,
                },
            );
        }
        let ghost before = desired_views(out@);
        assert(rv[k as int] == (iface@, from@, to@));
        match find_group(&out, iface) {
            Some(j) => {
                proof {
                    lemma_group_index_bound(before, iface@);
                }
                let ghost old_out = out@;
                let mut g = out.remove(j);
                g.ranges.push((from.clone(), to.clone()));
                out.insert(j, g);
                proof {
                    assert(pairs_view(g.ranges@) =~= before[j as int].2.push((from@, to@)));
                    assert(out@ =~= old_out.update(j as int, g));
                    assert(before[j as int] == desired_view(old_out[j as int]));
                    assert(desired_view(g) == (before[j as int].0, before[j as int].1, before[j as int].2.push((from@, to@))));
                    assert(group_index(before, iface@) == Some(j as int));
                    assert(desired_views(out@) =~= before.update(j as int, desired_view(g)));
                    assert(desired_views(out@) =~= add_to_group(before, rv[k as int], cidr@));
                }
            },
            None => {
                let mut rs: Vec<(String, String)> = Vec::new();
                rs.push((from.clone(), to.clone()));
                out.push(DesiredSubnet { iface: iface.clone(), cidr: cidr, ranges: rs });
                proof {
                    assert(pairs_view(rs@) =~= seq![(from@, to@)]);
                    assert(desired_views(out@) =~= add_to_group(before, rv[k as int], cidr@));
                }
            },
        }
        k = k + 1;
    }
    assert(rv.take(ranges@.len() as int) =~= rv);
    Ok(out)
}

/// The ranges as `(interface, first, last)`.
pub fn range_triples(ranges: &[IscRangeV4]) -> (r: Vec<(String, String, String)>)
    ensures
        triples_view(r@) == ranges_view(ranges@),
{
    let mut r: Vec<(String, String, String)> = Vec::new();
    let mut i: usize = 0;
    while i < ranges.len()
        invariant
            i <= ranges@.len(),
            r@.len() == i,
            forall|j: int| 0 <= j < i ==> triples_view(r@)[j] == #[trigger] ranges_view(ranges@)[j],
        decreases ranges@.len() - i,
    {
        r.push((ranges[i].iface.clone(), ranges[i].from.clone(), ranges[i].to.clone()));
        i = i + 1;
    }
    assert(triples_view(r@) =~= ranges_view(ranges@));
    r
}

/// The IPv6 ranges as `(interface, first, last)`.
pub fn range_triples_v6(ranges: &[IscRangeV6]) -> (r: Vec<(String, String, String)>)
    ensures
        triples_view(r@) == ranges_view_v6(ranges@),
{
    let mut r: Vec<(String, String, String)> = Vec::new();
    let mut i: usize = 0;
    while i < ranges.len()
        invariant
            i <= ranges@.len(),
            r@.len() == i,
            forall|j: int| 0 <= j < i ==> triples_view(r@)[j] == #[trigger] ranges_view_v6(ranges@)[j],
        decreases ranges@.len() - i,
    {
        r.push((ranges[i].iface.clone(), ranges[i].from.clone(), ranges[i].to.clone()));
        i = i + 1;
    }
    assert(triples_view(r@) =~= ranges_view_v6(ranges@));
    r
}


/// A pool as `first-last`.
pub open spec fn pool_text(r: (Seq<char>, Seq<char>)) -> Seq<char> {
    r.0 + seq!['-'] + r.1
}

/// The pools of a subnet as `first-last` items joined with commas.
pub open spec fn pools_text(rs: Seq<(Seq<char>, Seq<char>)>) -> Seq<char> {
    join(rs.map_values(|r: (Seq<char>, Seq<char>)| pool_text(r)), seq![','])
}

/// Renders the pools of a subnet (see [`pools_text`]).
pub fn render_pools(ranges: &Vec<(String, String)>) -> (r: String)
    ensures
        r@ == pools_text(pairs_view(ranges@)),
{
    let mut items: Vec<String> = Vec::new();
    let mut i: usize = 0;
    proof {
        reveal_strlit("-");
        reveal_strlit(",");
        assert("-"@ =~= seq!['-']);
        assert(","@ =~= seq![',']);
    }
    while i < ranges.len()
        invariant
            i <= ranges@.len(),
            items@.len() == i,
            "-"@ == seq!['-'],
            forall|j: int|
                0 <= j < i ==> (#[trigger] items@[j])@ == pool_text((ranges@[j].0@, ranges@[j].1@)),
        decreases ranges@.len() - i,
    {
        let mut item = ranges[i].0.clone();
        item.append("-");
        item.append(ranges[i].1.as_str());
        items.push(item);
        i = i + 1;
    }
    assert(texts(items@) =~= pairs_view(ranges@).map_values(
        |r: (Seq<char>, Seq<char>)| pool_text(r),
    ));
    join_with(&items, ",")
}

/// The fields of a new target subnet; an IPv6 one also names its interface.
pub open spec fn subnet_fields(v6: bool, d: DesiredView) -> Seq<(Seq<char>, Seq<char>)> {
    let base = seq![("subnet"@, d.1), ("pools"@, pools_text(d.2))];
    if v6 {
        base.push(("interface"@, d.0))
    } else {
        base
    }
}

/// The tag of a target subnet of the family.
pub open spec fn subnet_tag(v6: bool) -> Seq<char> {
    if v6 {
        "subnet6"@
    } else {
        "subnet4"@
    }
}

/// The target subnet element for a desired subnet.
pub fn create_kea_subnet_element(v6: bool, d: &DesiredSubnet) -> (r: Record)
    ensures
        r.tag@ == subnet_tag(v6),
        fields_view(r.fields@) == subnet_fields(v6, desired_view(*d)),
{
    let pools = render_pools(&d.ranges);
    let mut fields: Vec<(String, String)> = Vec::new();
    fields.push(("subnet".to_string(), d.cidr.clone()));
    fields.push(("pools".to_string(), pools));
    if v6 {
        fields.push(("interface".to_string(), d.iface.clone()));
    }
    assert(fields_view(fields@) =~= subnet_fields(v6, desired_view(*d)));
    let tag = if v6 {
        "subnet6".to_string()
    } else {
        "subnet4".to_string()
    };
    Record { tag, uuid: new_uuid(), fields }
}

/// A subnet of the target list has network `cidr`.
pub open spec fn has_cidr(existing: Seq<Subnet>, cidr: Seq<char>) -> bool {
    exists|i: int| 0 <= i < existing.len() && (#[trigger] existing[i]).cidr@ == cidr
}

fn any_with_cidr(existing: &[Subnet], cidr: &String) -> (r: bool)
    ensures
        r == has_cidr(existing@, cidr@),
        r == subnet_cidrs(existing@).contains(cidr@),
{
    proof {
        assert forall|k: int| 0 <= k < existing@.len() implies subnet_cidrs(existing@)[k]
            == (#[trigger] existing@[k]).cidr@ by {}
    }
    let mut i: usize = 0;
    while i < existing.len()
        invariant
            i <= existing@.len(),
            forall|j: int| 0 <= j < i ==> (#[trigger] existing@[j]).cidr@ != cidr@,
        decreases existing@.len() - i,
    {
        if existing[i].cidr == *cidr {
            assert(subnet_cidrs(existing@)[i as int] == cidr@);
            return true;
        }
        i = i + 1;
    }
    false
}

/// One desired subnet merged into the target: the element to add, and whether the target's
/// subnets with the same network are removed first.
#[derive(Debug)]
pub struct SubnetChange {
    pub replace: bool,
    pub record: Record,
}

/// The merge of desired subnets `d` into a target holding networks `existing`: one entry per
/// desired subnet, skipped when its network exists and `force` is off, else a new element that
/// replaces any existing one with that network.
pub open spec fn subnet_changes_follow(
    c: Seq<Option<SubnetChange>>,
    d: Seq<DesiredView>,
    existing: Seq<Seq<char>>,
    force: bool,
    v6: bool,
) -> bool {
    &&& c.len() == d.len()
    &&& forall|i: int|
        0 <= i < d.len() ==> {
            let present = existing.contains(d[i].1);
            &&& ((#[trigger] c[i]) is None <==> present && !force)
            &&& c[i] is Some ==> {
                &&& c[i].unwrap().replace == present
                &&& c[i].unwrap().record.tag@ == subnet_tag(v6)
                &&& fields_view(c[i].unwrap().record.fields@) == subnet_fields(v6, d[i])
            }
        }
}

/// Merges desired subnets into the target: a subnet whose network the target already has is
/// skipped (`None`), or replaced when `force` is set; any other is added.
pub fn merge_desired_subnets(
    v6: bool,
    existing: &[Subnet],
    desired: &Vec<DesiredSubnet>,
    force: bool,
) -> (r: Vec<Option<SubnetChange>>)
    ensures
        r@.len() == desired@.len(),
        forall|i: int|
            0 <= i < desired@.len() ==> {
                let present = has_cidr(existing@, (#[trigger] desired@[i]).cidr@);
                &&& (r@[i] is None <==> present && !force)
                &&& r@[i] is Some ==> {
                    let c = r@[i].unwrap();
                    &&& c.replace == present
                    &&& c.record.tag@ == subnet_tag(v6)
                    &&& fields_view(c.record.fields@) == subnet_fields(v6, desired_view(desired@[i]))
                }
            },
        subnet_changes_follow(r@, desired_views(desired@), subnet_cidrs(existing@), force, v6),
{
    let mut r: Vec<Option<SubnetChange>> = Vec::new();
    let mut i: usize = 0;
    while i < desired.len()
        invariant
            i <= desired@.len(),
            r@.len() == i,
            forall|j: int|
                0 <= j < i ==> {
                    let present = has_cidr(existing@, (#[trigger] desired@[j]).cidr@);
                    &&& (r@[j] is None <==> present && !force)
                    &&& r@[j] is Some ==> {
                        let c = r@[j].unwrap();
                        &&& c.replace == present
                        &&& c.record.tag@ == subnet_tag(v6)
                        &&& fields_view(c.record.fields@) == subnet_fields(
                            v6,
                            desired_view(desired@[j]),
                        )
                    }
                },
            subnet_changes_follow(r@, desired_views(desired@).take(i as int), subnet_cidrs(existing@), force, v6),
        decreases desired@.len() - i,
    {
        let ghost before = r@;
        let present = any_with_cidr(existing, &desired[i].cidr);
        if present && !force {
            r.push(None);
        } else {
            let record = create_kea_subnet_element(v6, &desired[i]);
            r.push(Some(SubnetChange { replace: present, record }));
        }
        proof {
            let d = desired_views(desired@);
            assert(d.take(i + 1) =~= d.take(i as int).push(desired_view(desired@[i as int])));
            assert forall|x: int| 0 <= x < i + 1 implies d.take(i + 1)[x] == d[x] by {}
        }
        i = i + 1;
    }
    proof {
        assert(desired_views(desired@).take(desired@.len() as int) =~= desired_views(desired@));
    }
    r
}

/// A copy of a subnet.
pub fn copy_subnet(s: &Subnet) -> (r: Subnet)
    ensures
        r == *s,
{
    Subnet { uuid: s.uuid.clone(), cidr: s.cidr.clone(), iface: copy_text(&s.iface) }
}

/// Some applied change replaces the target's subnets with network `cidr`.
pub open spec fn replaced(desired: Seq<DesiredSubnet>, changes: Seq<Option<SubnetChange>>, cidr: Seq<
    char,
>) -> bool {
    exists|j: int|
        0 <= j < desired.len() && #[trigger] changes[j] is Some && changes[j].unwrap().replace
            && desired[j].cidr@ == cidr
}

/// The existing subnets among the first `n` that no change replaces, in order.
pub open spec fn kept_upto(
    existing: Seq<Subnet>,
    desired: Seq<DesiredSubnet>,
    changes: Seq<Option<SubnetChange>>,
    n: int,
) -> Seq<Subnet>
    decreases n,
{
    if n <= 0 {
        Seq::empty()
    } else {
        let k = kept_upto(existing, desired, changes, n - 1);
        if replaced(desired, changes, existing[n - 1].cidr@) {
            k
        } else {
            k.push(existing[n - 1])
        }
    }
}

/// The subnet that applied change `j` adds.
pub open spec fn added_subnet(v6: bool, d: DesiredSubnet, c: SubnetChange) -> Subnet {
    Subnet {
        uuid: c.record.uuid,
        cidr: d.cidr,
        iface: if v6 {
            Some(d.iface)
        } else {
            None
        },
    }
}

/// The subnets that the first `n` changes add, in desired order.
pub open spec fn added_upto(
    v6: bool,
    desired: Seq<DesiredSubnet>,
    changes: Seq<Option<SubnetChange>>,
    n: int,
) -> Seq<Subnet>
    decreases n,
{
    if n <= 0 {
        Seq::empty()
    } else {
        let a = added_upto(v6, desired, changes, n - 1);
        match changes[n - 1] {
            Some(c) => a.push(added_subnet(v6, desired[n - 1], c)),
            None => a,
        }
    }
}

/// The network texts of the desired subnets.
pub open spec fn desired_cidrs(d: Seq<DesiredSubnet>) -> Seq<Seq<char>> {
    d.map_values(|x: DesiredSubnet| x.cidr@)
}

/// The changes are those of a merge into `existing`: a desired subnet is skipped exactly when
/// its network exists and `force` is off, and replaces exactly when its network exists.
pub open spec fn changes_match(
    existing: Seq<Subnet>,
    desired: Seq<DesiredSubnet>,
    changes: Seq<Option<SubnetChange>>,
    force: bool,
) -> bool {
    &&& changes.len() == desired.len()
    &&& forall|j: int|
        0 <= j < desired.len() ==> {
            let present = has_cidr(existing, (#[trigger] desired[j]).cidr@);
            &&& (changes[j] is None <==> present && !force)
            &&& changes[j] is Some ==> changes[j].unwrap().replace == present
        }
}

/// The target's subnets after a merge: those not replaced, in order, then the added ones in
/// desired order. The networks present are exactly the existing and the desired ones.
pub fn subnets_after_merge(
    v6: bool,
    existing: &[Subnet],
    desired: &Vec<DesiredSubnet>,
    changes: &Vec<Option<SubnetChange>>,
    force: bool,
) -> (r: Vec<Subnet>)
    requires
        changes_match(existing@, desired@, changes@, force),
    ensures
        r@ == kept_upto(existing@, desired@, changes@, existing@.len() as int) + added_upto(
            v6,
            desired@,
            changes@,
            desired@.len() as int,
        ),
        forall|c: Seq<char>|
            #[trigger] subnet_cidrs(r@).contains(c) <==> subnet_cidrs(existing@).contains(c)
                || desired_cidrs(desired@).contains(c),
{
    let mut kept: Vec<Subnet> = Vec::new();
    let mut i: usize = 0;
    while i < existing.len()
        invariant
            i <= existing@.len(),
            changes_match(existing@, desired@, changes@, force),
            kept@ == kept_upto(existing@, desired@, changes@, i as int),
        decreases existing@.len() - i,
    {
        let mut hit = false;
        let mut j: usize = 0;
        while j < desired.len()
            invariant
                i < existing@.len(),
                j <= desired@.len(),
                changes@.len() == desired@.len(),
                hit <==> exists|y: int|
                    0 <= y < j && #[trigger] changes@[y] is Some && changes@[y].unwrap().replace
                        && desired@[y].cidr@ == existing@[i as int].cidr@,
            decreases desired@.len() - j,
        {
            match &changes[j] {
                Some(c) => {
                    if c.replace && desired[j].cidr == existing[i].cidr {
                        hit = true;
                    }
                },
                None => {},
            }
            j = j + 1;
        }
        assert(hit == replaced(desired@, changes@, existing@[i as int].cidr@));
        if !hit {
            kept.push(copy_subnet(&existing[i]));
        }
        i = i + 1;
    }
    let ghost base = kept@;
    let mut j: usize = 0;
    while j < desired.len()
        invariant
            j <= desired@.len(),
            changes_match(existing@, desired@, changes@, force),
            base == kept_upto(existing@, desired@, changes@, existing@.len() as int),
            kept@ == base + added_upto(v6, desired@, changes@, j as int),
        decreases desired@.len() - j,
    {
        match &changes[j] {
            Some(c) => {
                let iface = if v6 {
                    Some(desired[j].iface.clone())
                } else {
                    None
                };
                kept.push(Subnet { uuid: c.record.uuid.clone(), cidr: desired[j].cidr.clone(), iface });
                assert(kept@ =~= base + added_upto(v6, desired@, changes@, j + 1));
            },
            None => {},
        }
        j = j + 1;
    }
    proof {
        lemma_merge_networks(v6, existing@, desired@, changes@, force);
    }
    kept
}

/// Every network of `kept_upto` is existing and not replaced, and every existing network that
/// is not replaced is kept.
proof fn lemma_kept_networks(
    existing: Seq<Subnet>,
    desired: Seq<DesiredSubnet>,
    changes: Seq<Option<SubnetChange>>,
    n: int,
)
    requires
        0 <= n <= existing.len(),
    ensures
        forall|c: Seq<char>|
            #[trigger] subnet_cidrs(kept_upto(existing, desired, changes, n)).contains(c) <==> (exists|i: int|
                0 <= i < n && existing[i].cidr@ == c) && !replaced(desired, changes, c),
    decreases n,
{
    if n > 0 {
        lemma_kept_networks(existing, desired, changes, n - 1);
        let k = kept_upto(existing, desired, changes, n - 1);
        let k2 = kept_upto(existing, desired, changes, n);
        assert forall|c: Seq<char>| #[trigger] subnet_cidrs(k2).contains(c) <==> (exists|i: int|
            0 <= i < n && existing[i].cidr@ == c) && !replaced(desired, changes, c) by {
            if replaced(desired, changes, existing[n - 1].cidr@) {
                assert(k2 == k);
                if (exists|i: int| 0 <= i < n && existing[i].cidr@ == c) && !replaced(desired, changes, c) {
                    let i = choose|i: int| 0 <= i < n && existing[i].cidr@ == c;
                    if i == n - 1 {
                    } else {
                        assert(exists|x: int| 0 <= x < n - 1 && existing[x].cidr@ == c);
                    }
                }
                if subnet_cidrs(k2).contains(c) {
                    let i = choose|i: int| 0 <= i < n - 1 && existing[i].cidr@ == c;
                    assert(0 <= i < n && existing[i].cidr@ == c);
                }
            } else {
                assert(k2 == k.push(existing[n - 1]));
                assert(subnet_cidrs(k2) =~= subnet_cidrs(k).push(existing[n - 1].cidr@));
                if subnet_cidrs(k2).contains(c) {
                    let x = choose|x: int| 0 <= x < subnet_cidrs(k2).len() && subnet_cidrs(k2)[x] == c;
                    if x < subnet_cidrs(k).len() {
                        assert(subnet_cidrs(k)[x] == c);
                        assert(subnet_cidrs(k).contains(c));
                        let i = choose|i: int| 0 <= i < n - 1 && existing[i].cidr@ == c;
                        assert(0 <= i < n && existing[i].cidr@ == c);
                    } else {
                        assert(existing[n - 1].cidr@ == c);
                    }
                }
                if (exists|i: int| 0 <= i < n && existing[i].cidr@ == c) && !replaced(desired, changes, c) {
                    let i = choose|i: int| 0 <= i < n && existing[i].cidr@ == c;
                    if i == n - 1 {
                        assert(subnet_cidrs(k2)[subnet_cidrs(k).len() as int] == c);
                    } else {
                        assert(exists|x: int| 0 <= x < n - 1 && existing[x].cidr@ == c);
                        assert(subnet_cidrs(k).contains(c));
                        let x = choose|x: int| 0 <= x < subnet_cidrs(k).len() && subnet_cidrs(k)[x] == c;
                        assert(subnet_cidrs(k2)[x] == c);
                    }
                }
            }
        }
    }
}

/// The networks `added_upto` holds are those of the applied changes among the first `n`.
proof fn lemma_added_networks(
    v6: bool,
    desired: Seq<DesiredSubnet>,
    changes: Seq<Option<SubnetChange>>,
    n: int,
)
    requires
        0 <= n <= desired.len(),
        changes.len() == desired.len(),
    ensures
        forall|c: Seq<char>|
            #[trigger] subnet_cidrs(added_upto(v6, desired, changes, n)).contains(c) <==> exists|j: int|
                0 <= j < n && changes[j] is Some && desired[j].cidr@ == c,
    decreases n,
{
    if n > 0 {
        lemma_added_networks(v6, desired, changes, n - 1);
        let a = added_upto(v6, desired, changes, n - 1);
        let a2 = added_upto(v6, desired, changes, n);
        assert forall|c: Seq<char>| #[trigger] subnet_cidrs(a2).contains(c) <==> exists|j: int|
            0 <= j < n && changes[j] is Some && desired[j].cidr@ == c by {
            match changes[n - 1] {
                Some(ch) => {
                    assert(a2 == a.push(added_subnet(v6, desired[n - 1], ch)));
                    assert(subnet_cidrs(a2) =~= subnet_cidrs(a).push(desired[n - 1].cidr@));
                    if subnet_cidrs(a2).contains(c) {
                        let x = choose|x: int| 0 <= x < subnet_cidrs(a2).len() && subnet_cidrs(a2)[x] == c;
                        if x < subnet_cidrs(a).len() {
                            assert(subnet_cidrs(a)[x] == c);
                            assert(subnet_cidrs(a).contains(c));
                            let j = choose|j: int| 0 <= j < n - 1 && changes[j] is Some && desired[j].cidr@ == c;
                            assert(0 <= j < n && changes[j] is Some && desired[j].cidr@ == c);
                        } else {
                            assert(changes[n - 1] is Some && desired[n - 1].cidr@ == c);
                        }
                    }
                    if exists|j: int| 0 <= j < n && changes[j] is Some && desired[j].cidr@ == c {
                        let j = choose|j: int| 0 <= j < n && changes[j] is Some && desired[j].cidr@ == c;
                        if j == n - 1 {
                            assert(subnet_cidrs(a2)[subnet_cidrs(a).len() as int] == c);
                        } else {
                            assert(exists|y: int| 0 <= y < n - 1 && changes[y] is Some && desired[y].cidr@ == c);
                            assert(subnet_cidrs(a).contains(c));
                            let x = choose|x: int| 0 <= x < subnet_cidrs(a).len() && subnet_cidrs(a)[x] == c;
                            assert(subnet_cidrs(a2)[x] == c);
                        }
                    }
                },
                None => {
                    assert(a2 == a);
                    if exists|j: int| 0 <= j < n && changes[j] is Some && desired[j].cidr@ == c {
                        let j = choose|j: int| 0 <= j < n && changes[j] is Some && desired[j].cidr@ == c;
                        assert(j != n - 1);
                        assert(exists|y: int| 0 <= y < n - 1 && changes[y] is Some && desired[y].cidr@ == c);
                    }
                    if subnet_cidrs(a2).contains(c) {
                        let j = choose|j: int| 0 <= j < n - 1 && changes[j] is Some && desired[j].cidr@ == c;
                        assert(0 <= j < n && changes[j] is Some && desired[j].cidr@ == c);
                    }
                },
            }
        }
    }
}

/// After a merge, the networks present are exactly the existing and the desired ones.
proof fn lemma_merge_networks(
    v6: bool,
    existing: Seq<Subnet>,
    desired: Seq<DesiredSubnet>,
    changes: Seq<Option<SubnetChange>>,
    force: bool,
)
    requires
        changes_match(existing, desired, changes, force),
    ensures
        forall|c: Seq<char>|
            #[trigger] subnet_cidrs(
                kept_upto(existing, desired, changes, existing.len() as int) + added_upto(
                    v6,
                    desired,
                    changes,
                    desired.len() as int,
                ),
            ).contains(c) <==> subnet_cidrs(existing).contains(c) || desired_cidrs(desired).contains(c),
{
    let k = kept_upto(existing, desired, changes, existing.len() as int);
    let a = added_upto(v6, desired, changes, desired.len() as int);
    lemma_kept_networks(existing, desired, changes, existing.len() as int);
    lemma_added_networks(v6, desired, changes, desired.len() as int);
    assert(subnet_cidrs(k + a) =~= subnet_cidrs(k) + subnet_cidrs(a));
    assert forall|c: Seq<char>| #[trigger] subnet_cidrs(k + a).contains(c) <==> subnet_cidrs(
        existing,
    ).contains(c) || desired_cidrs(desired).contains(c) by {
        let sk = subnet_cidrs(k);
        let sa = subnet_cidrs(a);
        let in_k = sk.contains(c);
        let in_a = sa.contains(c);
        if subnet_cidrs(k + a).contains(c) {
            let x = choose|x: int| 0 <= x < (sk + sa).len() && (sk + sa)[x] == c;
            if x < sk.len() {
                assert(sk[x] == c);
                assert(in_k);
                let i = choose|i: int| 0 <= i < existing.len() && existing[i].cidr@ == c;
                assert(subnet_cidrs(existing)[i] == c);
            } else {
                assert(sa[x - sk.len()] == c);
                assert(in_a);
                let j = choose|j: int| 0 <= j < desired.len() && changes[j] is Some && desired[j].cidr@ == c;
                assert(desired_cidrs(desired)[j] == c);
            }
        }
        if subnet_cidrs(existing).contains(c) || desired_cidrs(desired).contains(c) {
            let show_a = exists|j: int| 0 <= j < desired.len() && changes[j] is Some && desired[j].cidr@ == c;
            if subnet_cidrs(existing).contains(c) {
                let i = choose|i: int| 0 <= i < existing.len() && subnet_cidrs(existing)[i] == c;
                assert(existing[i].cidr@ == c);
                if replaced(desired, changes, c) {
                    let j = choose|j: int|
                        0 <= j < desired.len() && #[trigger] changes[j] is Some && changes[j].unwrap().replace
                            && desired[j].cidr@ == c;
                    assert(show_a);
                } else {
                    assert(in_k);
                }
            } else {
                let j = choose|j: int| 0 <= j < desired.len() && desired_cidrs(desired)[j] == c;
                assert(desired[j].cidr@ == c);
                if changes[j] is Some {
                    assert(show_a);
                } else {
                    assert(has_cidr(existing, desired[j].cidr@));
                    let i = choose|i: int| 0 <= i < existing.len() && (#[trigger] existing[i]).cidr@ == c;
                    assert(!force);
                    assert(!replaced(desired, changes, c));
                    assert(in_k);
                }
            }
            if in_k {
                let x = choose|x: int| 0 <= x < sk.len() && sk[x] == c;
                assert((sk + sa)[x] == c);
            } else {
                assert(in_a);
                let x = choose|x: int| 0 <= x < sa.len() && sa[x] == c;
                assert((sk + sa)[sk.len() + x] == c);
            }
        }
    }
}

/// The dotted netmask of an IPv4 prefix length: its top `prefix` bits set, written as std
/// writes an `Ipv4Addr`.
pub open spec fn ipv4_netmask_text(prefix: u8) -> Seq<char> {
    dotted((pow2(32) - pow2((32 - prefix) as nat)) as nat)
}

/// Relies on ipnet's `Ipv4Net::netmask` (`u32::MAX` shifted left by `32 - prefix`, zero for a
/// zero prefix) and std's dotted text form of the address.
#[verifier::external_body]
fn netmask_text(prefix: u8) -> (r: String)
    requires
        prefix <= 32,
    ensures
        r@ == ipv4_netmask_text(prefix),
{
    ipnet::Ipv4Net::new(0u32.into(), prefix).unwrap().netmask().to_string()
}

/// The dotted IPv4 netmask of a prefix length; a length over 32 is refused.
pub fn prefix_to_netmask(prefix: u8) -> (r: Result<String, MigrationError>)
    ensures
        prefix <= 32 ==> r is Ok && r.unwrap()@ == ipv4_netmask_text(prefix),
        prefix > 32 ==> r is Err && r->Err_0@ == ErrorView::InvalidCidr(decimal(prefix as nat)),
{
    if prefix > 32 {
        Err(MigrationError::InvalidCidr(u8_text(prefix)))
    } else {
        Ok(netmask_text(prefix))
    }
}

/// The key parts of a flat-backend range: interface, first and last address, prefix length
/// (IPv6) and netmask (IPv4), the unused one empty.
pub open spec fn range_parts(f: Family, iface: Seq<char>, r: (Seq<char>, Seq<char>), prefix: u8) -> Seq<
    Seq<char>,
> {
    if f == Family::V4 {
        seq![iface, r.0, r.1, Seq::empty(), ipv4_netmask_text(prefix)]
    } else {
        seq![iface, r.0, r.1, decimal(prefix as nat), Seq::empty()]
    }
}

/// The key parts of every range of the desired subnets, subnet by subnet; `None` when a
/// subnet's network does not read.
pub open spec fn all_range_parts(f: Family, ds: Seq<DesiredView>) -> Option<Seq<Seq<Seq<char>>>>
    decreases ds.len(),
{
    if ds.len() == 0 {
        Some(Seq::empty())
    } else {
        match all_range_parts(f, ds.drop_last()) {
            None => None,
            Some(e) => match net_of(f, ds.last().1) {
                None => None,
                Some(n) => Some(
                    e + ds.last().2.map_values(
                        |r: (Seq<char>, Seq<char>)| range_parts(f, ds.last().0, r, n.1),
                    ),
                ),
            },
        }
    }
}

/// The field names of a flat-backend range, matching its key parts.
pub open spec fn range_field_names() -> Seq<Seq<char>> {
    seq!["interface"@, "start_addr"@, "end_addr"@, "prefix_len"@, "subnet_mask"@]
}

/// Field names paired with values.
pub open spec fn zip_fields(names: Seq<Seq<char>>, values: Seq<Seq<char>>) -> Seq<(Seq<char>, Seq<char>)> {
    Seq::new(values.len(), |i: int| (names[i], values[i]))
}

/// The key of a flat-backend range from its five parts joined with `|`.
pub fn range_key(iface: &str, start: &str, end: &str, prefix_len: &str, mask: &str) -> (r: String)
    ensures
        r@ == key_text(seq![iface@, start@, end@, prefix_len@, mask@]),
{
    let mut parts: Vec<String> = Vec::new();
    parts.push(iface.to_string());
    parts.push(start.to_string());
    parts.push(end.to_string());
    parts.push(prefix_len.to_string());
    parts.push(mask.to_string());
    assert(texts(parts@) =~= seq![iface@, start@, end@, prefix_len@, mask@]);
    join_key(&parts)
}

/// A keyed item whose key is `parts` joined and whose record is a `dhcp_ranges` element with
/// those parts as fields.
pub open spec fn range_item_ok(item: (String, Record), parts: Seq<Seq<char>>) -> bool {
    &&& item.0@ == key_text(parts)
    &&& item.1.tag@ == "dhcp_ranges"@
    &&& fields_view(item.1.fields@) == zip_fields(range_field_names(), parts)
}

fn range_item(parts: Vec<String>) -> (r: (String, Record))
    requires
        parts@.len() == 5,
    ensures
        range_item_ok(r, texts(parts@)),
{
    let key = join_key(&parts);
    let mut fields: Vec<(String, String)> = Vec::new();
    fields.push(("interface".to_string(), parts[0].clone()));
    fields.push(("start_addr".to_string(), parts[1].clone()));
    fields.push(("end_addr".to_string(), parts[2].clone()));
    fields.push(("prefix_len".to_string(), parts[3].clone()));
    fields.push(("subnet_mask".to_string(), parts[4].clone()));
    assert(fields_view(fields@) =~= zip_fields(range_field_names(), texts(parts@)));
    (key, Record { tag: "dhcp_ranges".to_string(), uuid: new_uuid(), fields })
}

/// The flat-backend ranges of the desired subnets, keyed (see [`all_range_parts`]).
pub fn dnsmasq_range_items(f: Family, desired: &Vec<DesiredSubnet>) -> (r: Result<
    Vec<(String, Record)>,
    MigrationError,
>)
    ensures
        match all_range_parts(f, desired_views(desired@)) {
            None => r is Err && r->Err_0@ is InvalidCidr,
            Some(p) => r is Ok && r.unwrap()@.len() == p.len() && forall|k: int|
                0 <= k < p.len() ==> range_item_ok(#[trigger] r.unwrap()@[k], p[k]),
        },
{
    let ghost dv = desired_views(desired@);
    let mut out: Vec<(String, Record)> = Vec::new();
    let mut i: usize = 0;
    proof {
        reveal_strlit("");
        assert(""@ =~= Seq::<char>::empty());
        assert(dv.take(0) =~= Seq::<DesiredView>::empty());
    }
    while i < desired.len()
        invariant
            i <= desired@.len(),
            dv == desired_views(desired@),
            ""@ == Seq::<char>::empty(),
            all_range_parts(f, dv.take(i as int)) is Some,
            out@.len() == all_range_parts(f, dv.take(i as int)).unwrap().len(),
            forall|k: int|
                0 <= k < out@.len() ==> range_item_ok(
                    #[trigger] out@[k],
                    all_range_parts(f, dv.take(i as int)).unwrap()[k],
                ),
        decreases desired@.len() - i,
    {
        let d = &desired[i];
        proof {
            assert(dv.take(i + 1).drop_last() =~= dv.take(i as int));
            assert(dv.take(i + 1).last() == desired_view(*d));
        }
        let prefix = match parse_net(f, d.cidr.as_str()) {
            Some((_, p)) => p,
            None => {
                proof {
                    lemma_parts_fail_stays(f, dv, i + 1);
                }
                return Err(MigrationError::InvalidCidr(d.cidr.clone()));
            },
        };
        let ghost e = all_range_parts(f, dv.take(i as int)).unwrap();
        let ghost start = out@.len();
        let ghost rmap = pairs_view(d.ranges@).map_values(
            |r: (Seq<char>, Seq<char>)| range_parts(f, d.iface@, r, prefix),
        );
        let mut j: usize = 0;
        while j < d.ranges.len()
            invariant
                i < desired@.len(),
                d == desired@[i as int],
                j <= d.ranges@.len(),
                ""@ == Seq::<char>::empty(),
                start == e.len(),
                rmap == pairs_view(d.ranges@).map_values(
                    |r: (Seq<char>, Seq<char>)| range_parts(f, d.iface@, r, prefix),
                ),
                f == Family::V4 ==> prefix <= 32,
                out@.len() == start + j,
                forall|k: int| 0 <= k < start ==> range_item_ok(#[trigger] out@[k], e[k]),
                forall|k: int| 0 <= k < j ==> range_item_ok(#[trigger] out@[start + k], rmap[k]),
            decreases d.ranges@.len() - j,
        {
            let mut parts: Vec<String> = Vec::new();
            parts.push(d.iface.clone());
            parts.push(d.ranges[j].0.clone());
            parts.push(d.ranges[j].1.clone());
            if f == Family::V4 {
                parts.push("".to_string());
                parts.push(netmask_text(prefix));
            } else {
                parts.push(u8_text(prefix));
                parts.push("".to_string());
            }
            proof {
                assert(texts(parts@) =~= rmap[j as int]);
            }
            let item = range_item(parts);
            out.push(item);
            j = j + 1;
        }
        proof {
            let next = all_range_parts(f, dv.take(i + 1)).unwrap();
            assert(next =~= e + rmap);
            assert forall|k: int| 0 <= k < out@.len() implies range_item_ok(
                #[trigger] out@[k],
                next[k],
            ) by {
                if k >= start {
                    assert(out@[k] == out@[start + (k - start)]);
                }
            }
        }
        i = i + 1;
    }
    assert(dv.take(desired@.len() as int) =~= dv);
    Ok(out)
}

proof fn lemma_parts_fail_stays(f: Family, dv: Seq<DesiredView>, n: int)
    requires
        0 <= n <= dv.len(),
        all_range_parts(f, dv.take(n)) is None,
    ensures
        all_range_parts(f, dv) is None,
    decreases dv.len() - n,
{
    if n < dv.len() {
        assert(dv.take(n + 1).drop_last() =~= dv.take(n));
        lemma_parts_fail_stays(f, dv, n + 1);
    } else {
        assert(dv.take(n) =~= dv);
    }
}

} // verus!
