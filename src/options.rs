//! The legacy per-interface option bundles, as options of either backend.

use vstd::prelude::*;

use crate::addr::texts;
use crate::records::{fields_view, join_key, key_text, new_uuid, Record};
use crate::text::{copy_text, Delims, distinct_nonempty, domain_search_csv, join, join_list, tokens};
use crate::subnets::cidr_of_iface;
use crate::types::{IscDhcpOptionsV4, IscDhcpOptionsV6, Subnet};

verus! {

/// One option of the flat backend: interface, IPv4 code, IPv6 code (one of the two empty) and
/// value.
#[derive(Debug)]
pub struct DnsmasqOptionSpec {
    pub iface: String,
    pub option: String,
    pub option6: String,
    pub value: String,
}

/// The value of a flat-backend option.
pub type OptionView = (Seq<char>, Seq<char>, Seq<char>, Seq<char>);

/// The value of a flat-backend option.
pub open spec fn spec_view(s: DnsmasqOptionSpec) -> OptionView {
    (s.iface@, s.option@, s.option6@, s.value@)
}

/// The values of flat-backend options.
pub open spec fn spec_views(s: Seq<DnsmasqOptionSpec>) -> Seq<OptionView> {
    s.map_values(|x: DnsmasqOptionSpec| spec_view(x))
}

/// A list value: its non-empty items de-duplicated in order and joined with commas.
pub open spec fn joined(values: Seq<Seq<char>>) -> Option<Seq<char>> {
    if distinct_nonempty(values).len() == 0 {
        None
    } else {
        Some(join(distinct_nonempty(values), seq![',']))
    }
}

/// A single value, when present and not empty.
pub open spec fn nonempty(o: Option<String>) -> Option<Seq<char>> {
    match o {
        Some(s) => if s@.len() > 0 {
            Some(s@)
        } else {
            None
        },
        None => None,
    }
}

/// A domain-search value as comma-separated items, when it has any.
pub open spec fn search_csv(o: Option<String>) -> Option<Seq<char>> {
    match o {
        Some(s) => if tokens(s@, Delims::CommaSemicolonOrSpace).len() > 0 {
            Some(join(tokens(s@, Delims::CommaSemicolonOrSpace), seq![',']))
        } else {
            None
        },
        None => None,
    }
}

/// The option with `code` for `iface` when the value is present.
pub open spec fn option_item(iface: Seq<char>, code: Seq<char>, v6: bool, value: Option<Seq<char>>) -> Seq<
    OptionView,
> {
    match value {
        Some(v) => if v6 {
            seq![(iface, Seq::empty(), code, v)]
        } else {
            seq![(iface, code, Seq::empty(), v)]
        },
        None => Seq::empty(),
    }
}

/// The flat-backend options of an IPv4 bundle: DNS (6), gateway (3), domain name (15), domain
/// search (119) and NTP (42), in that order.
pub open spec fn bundle_options_v4(o: IscDhcpOptionsV4) -> Seq<OptionView> {
    option_item(o.iface@, "6"@, false, joined(texts(o.dns_servers@))) + option_item(
        o.iface@,
        "3"@,
        false,
        nonempty(o.routers),
    ) + option_item(o.iface@, "15"@, false, nonempty(o.domain_name)) + option_item(
        o.iface@,
        "119"@,
        false,
        search_csv(o.domain_search),
    ) + option_item(o.iface@, "42"@, false, joined(texts(o.ntp_servers@)))
}

/// The flat-backend options of an IPv6 bundle: DNS (23) and domain search (24).
pub open spec fn bundle_options_v6(o: IscDhcpOptionsV6) -> Seq<OptionView> {
    option_item(o.iface@, "23"@, true, joined(texts(o.dns_servers@))) + option_item(
        o.iface@,
        "24"@,
        true,
        search_csv(o.domain_search),
    )
}

/// The flat-backend options of IPv4 bundles, bundle by bundle.
pub open spec fn all_options_v4(os: Seq<IscDhcpOptionsV4>) -> Seq<OptionView>
    decreases os.len(),
{
    if os.len() == 0 {
        Seq::empty()
    } else {
        all_options_v4(os.drop_last()) + bundle_options_v4(os.last())
    }
}

/// The flat-backend options of IPv6 bundles, bundle by bundle.
pub open spec fn all_options_v6(os: Seq<IscDhcpOptionsV6>) -> Seq<OptionView>
    decreases os.len(),
{
    if os.len() == 0 {
        Seq::empty()
    } else {
        all_options_v6(os.drop_last()) + bundle_options_v6(os.last())
    }
}

fn push_option(
    out: &mut Vec<DnsmasqOptionSpec>,
    iface: &String,
    code: &str,
    v6: bool,
    value: Option<String>,
)
    ensures
        spec_views(final(out)@) == spec_views(old(out)@) + option_item(
            iface@,
            code@,
            v6,
            match value {
                Some(v) => Some(v@),
                None => None,
            },
        ),
{
    proof {
        reveal_strlit("");
        assert(""@ =~= Seq::<char>::empty());
    }
    match value {
        Some(v) => {
            let (option, option6) = if v6 {
                ("".to_string(), code.to_string())
            } else {
                (code.to_string(), "".to_string())
            };
            out.push(DnsmasqOptionSpec { iface: iface.clone(), option, option6, value: v });
        },
        None => {},
    }
    assert(spec_views(out@) =~= spec_views(old(out)@) + option_item(
        iface@,
        code@,
        v6,
        match value {
            Some(v) => Some(v@),
            None => None,
        },
    ));
}

fn nonempty_value(o: &Option<String>) -> (r: Option<String>)
    ensures
        match nonempty(*o) {
            Some(v) => r is Some && r.unwrap()@ == v,
            None => r is None,
        },
{
    match o {
        Some(s) => if s.as_str().is_empty() {
            None
        } else {
            Some(s.clone())
        },
        None => None,
    }
}

fn search_value(o: &Option<String>) -> (r: Option<String>)
    ensures
        match search_csv(*o) {
            Some(v) => r is Some && r.unwrap()@ == v,
            None => r is None,
        },
{
    match o {
        Some(s) => domain_search_csv(s.as_str()),
        None => None,
    }
}

fn push_bundle_v4(out: &mut Vec<DnsmasqOptionSpec>, o: &IscDhcpOptionsV4)
    ensures
        spec_views(final(out)@) == spec_views(old(out)@) + bundle_options_v4(*o),
{
    let ghost before = spec_views(out@);
    push_option(out, &o.iface, "6", false, join_list(o.dns_servers.as_slice()));
    push_option(out, &o.iface, "3", false, nonempty_value(&o.routers));
    push_option(out, &o.iface, "15", false, nonempty_value(&o.domain_name));
    push_option(out, &o.iface, "119", false, search_value(&o.domain_search));
    push_option(out, &o.iface, "42", false, join_list(o.ntp_servers.as_slice()));
    assert(spec_views(out@) =~= before + bundle_options_v4(*o));
}

fn push_bundle_v6(out: &mut Vec<DnsmasqOptionSpec>, o: &IscDhcpOptionsV6)
    ensures
        spec_views(final(out)@) == spec_views(old(out)@) + bundle_options_v6(*o),
{
    let ghost before = spec_views(out@);
    push_option(out, &o.iface, "23", true, join_list(o.dns_servers.as_slice()));
    push_option(out, &o.iface, "24", true, search_value(&o.domain_search));
    assert(spec_views(out@) =~= before + bundle_options_v6(*o));
}

/// The flat-backend options of all bundles: the IPv4 ones, then the IPv6 ones.
pub fn dnsmasq_option_specs_from_isc(
    options_v4: &[IscDhcpOptionsV4],
    options_v6: &[IscDhcpOptionsV6],
) -> (r: Vec<DnsmasqOptionSpec>)
    ensures
        spec_views(r@) == all_options_v4(options_v4@) + all_options_v6(options_v6@),
{
    let mut out: Vec<DnsmasqOptionSpec> = Vec::new();
    let mut i: usize = 0;
    assert(options_v4@.take(0) =~= Seq::<IscDhcpOptionsV4>::empty());
    assert(spec_views(out@) =~= Seq::<OptionView>::empty());
    while i < options_v4.len()
        invariant
            i <= options_v4@.len(),
            spec_views(out@) == all_options_v4(options_v4@.take(i as int)),
        decreases options_v4@.len() - i,
    {
        let o = &options_v4[i];
        proof {
            assert(options_v4@.take(i + 1).drop_last() =~= options_v4@.take(i as int));
            assert(options_v4@.take(i + 1).last() == *o);
        }
        push_bundle_v4(&mut out, o);
        i = i + 1;
    }
    assert(options_v4@.take(options_v4@.len() as int) =~= options_v4@);
    let ghost mid = spec_views(out@);
    let mut k: usize = 0;
    assert(options_v6@.take(0) =~= Seq::<IscDhcpOptionsV6>::empty());
    assert(mid + all_options_v6(options_v6@.take(0)) =~= mid);
    while k < options_v6.len()
        invariant
            k <= options_v6@.len(),
            spec_views(out@) == mid + all_options_v6(options_v6@.take(k as int)),
        decreases options_v6@.len() - k,
    {
        let o = &options_v6[k];
        proof {
            assert(options_v6@.take(k + 1).drop_last() =~= options_v6@.take(k as int));
            assert(options_v6@.take(k + 1).last() == *o);
        }
        let ghost before = spec_views(out@);
        push_bundle_v6(&mut out, o);
        proof {
            assert(mid + all_options_v6(options_v6@.take(k + 1)) =~= mid + all_options_v6(
                options_v6@.take(k as int),
            ) + bundle_options_v6(*o));
        }
        k = k + 1;
    }
    assert(options_v6@.take(options_v6@.len() as int) =~= options_v6@);
    out
}


/// The key of a flat-backend option: type, IPv4 code, IPv6 code, interface, tag, set-tag.
pub open spec fn option_key_parts(o: OptionView) -> Seq<Seq<char>> {
    seq!["set"@, o.1, o.2, o.0, Seq::empty(), Seq::empty()]
}

/// The key of an option entry from its six parts joined with `|`.
pub fn dnsmasq_option_key(
    opt_type: &str,
    option: &str,
    option6: &str,
    iface: &str,
    tag: &str,
    set_tag: &str,
) -> (r: String)
    ensures
        r@ == key_text(seq![opt_type@, option@, option6@, iface@, tag@, set_tag@]),
{
    let mut parts: Vec<String> = Vec::new();
    parts.push(opt_type.to_string());
    parts.push(option.to_string());
    parts.push(option6.to_string());
    parts.push(iface.to_string());
    parts.push(tag.to_string());
    parts.push(set_tag.to_string());
    assert(texts(parts@) =~= seq![opt_type@, option@, option6@, iface@, tag@, set_tag@]);
    join_key(&parts)
}

/// The key under which a new option is stored.
pub fn option_key_for_spec(spec: &DnsmasqOptionSpec) -> (r: String)
    ensures
        r@ == key_text(option_key_parts(spec_view(*spec))),
{
    proof {
        reveal_strlit("");
        assert(""@ =~= Seq::<char>::empty());
    }
    dnsmasq_option_key("set", spec.option.as_str(), spec.option6.as_str(), spec.iface.as_str(), "", "")
}

/// The fields of a flat-backend option element.
pub open spec fn option_fields(o: OptionView) -> Seq<(Seq<char>, Seq<char>)> {
    seq![
        ("type"@, "set"@),
        ("option"@, o.1),
        ("option6"@, o.2),
        ("interface"@, o.0),
        ("tag"@, Seq::empty()),
        ("set_tag"@, Seq::empty()),
        ("value"@, o.3),
    ]
}

fn option_record(sp: &DnsmasqOptionSpec) -> (r: (String, Record))
    ensures
        r.0@ == key_text(option_key_parts(spec_view(*sp))),
        r.1.tag@ == "dhcp_options"@,
        fields_view(r.1.fields@) == option_fields(spec_view(*sp)),
{
    proof {
        reveal_strlit("");
        assert(""@ =~= Seq::<char>::empty());
    }
    let key = option_key_for_spec(sp);
    let mut fields: Vec<(String, String)> = Vec::new();
    fields.push(("type".to_string(), "set".to_string()));
    fields.push(("option".to_string(), sp.option.clone()));
    fields.push(("option6".to_string(), sp.option6.clone()));
    fields.push(("interface".to_string(), sp.iface.clone()));
    fields.push(("tag".to_string(), "".to_string()));
    fields.push(("set_tag".to_string(), "".to_string()));
    fields.push(("value".to_string(), sp.value.clone()));
    assert(fields_view(fields@) =~= option_fields(spec_view(*sp)));
    (key, Record { tag: "dhcp_options".to_string(), uuid: new_uuid(), fields })
}

/// The option elements with their keys, one per option, in order.
pub fn dnsmasq_option_items(specs: &Vec<DnsmasqOptionSpec>) -> (r: Vec<(String, Record)>)
    ensures
        r@.len() == specs@.len(),
        forall|i: int|
            0 <= i < specs@.len() ==> {
                let o = spec_view(#[trigger] specs@[i]);
                &&& r@[i].0@ == key_text(option_key_parts(o))
                &&& r@[i].1.tag@ == "dhcp_options"@
                &&& fields_view(r@[i].1.fields@) == option_fields(o)
            },
{
    proof {
        reveal_strlit("");
        assert(""@ =~= Seq::<char>::empty());
    }
    let mut r: Vec<(String, Record)> = Vec::new();
    let mut i: usize = 0;
    while i < specs.len()
        invariant
            i <= specs@.len(),
            r@.len() == i,
            ""@ == Seq::<char>::empty(),
            forall|k: int|
                0 <= k < i ==> {
                    let o = spec_view(#[trigger] specs@[k]);
                    &&& r@[k].0@ == key_text(option_key_parts(o))
                    &&& r@[k].1.tag@ == "dhcp_options"@
                    &&& fields_view(r@[k].1.fields@) == option_fields(o)
                },
        decreases specs@.len() - i,
    {
        let item = option_record(&specs[i]);
        r.push(item);
        i = i + 1;
    }
    r
}


/// The named options of one interface for the subnet-oriented backend, each with its value if
/// it has one.
#[derive(Debug)]
pub struct OptionBundle {
    pub iface: String,
    pub fields: Vec<(String, Option<String>)>,
}

/// The value of a named option list.
pub open spec fn named_view(f: Seq<(String, Option<String>)>) -> Seq<(Seq<char>, Option<Seq<char>>)> {
    f.map_values(
        |x: (String, Option<String>)|
            (
                x.0@,
                match x.1 {
                    Some(v) => Some(v@),
                    None => None,
                },
            ),
    )
}

/// The named options of an IPv4 bundle: DNS servers, routers, domain name, domain search and
/// NTP servers; lists joined with commas.
pub open spec fn kea_fields_v4(o: IscDhcpOptionsV4) -> Seq<(Seq<char>, Option<Seq<char>>)> {
    seq![
        ("domain_name_servers"@, joined(texts(o.dns_servers@))),
        ("routers"@, nonempty(o.routers)),
        ("domain_name"@, nonempty(o.domain_name)),
        ("domain_search"@, nonempty(o.domain_search)),
        ("ntp_servers"@, joined(texts(o.ntp_servers@))),
    ]
}

/// The named options of an IPv6 bundle: DNS servers and domain search.
pub open spec fn kea_fields_v6(o: IscDhcpOptionsV6) -> Seq<(Seq<char>, Option<Seq<char>>)> {
    seq![("dns_servers"@, joined(texts(o.dns_servers@))), ("domain_search"@, nonempty(o.domain_search))]
}

/// The subnet-oriented options of an IPv4 bundle.
pub fn kea_bundle_v4(o: &IscDhcpOptionsV4) -> (r: OptionBundle)
    ensures
        r.iface@ == o.iface@,
        named_view(r.fields@) == kea_fields_v4(*o),
{
    let mut fields: Vec<(String, Option<String>)> = Vec::new();
    fields.push(("domain_name_servers".to_string(), join_list(o.dns_servers.as_slice())));
    fields.push(("routers".to_string(), nonempty_value(&o.routers)));
    fields.push(("domain_name".to_string(), nonempty_value(&o.domain_name)));
    fields.push(("domain_search".to_string(), nonempty_value(&o.domain_search)));
    fields.push(("ntp_servers".to_string(), join_list(o.ntp_servers.as_slice())));
    assert(named_view(fields@) =~= kea_fields_v4(*o));
    OptionBundle { iface: o.iface.clone(), fields }
}

/// The subnet-oriented options of an IPv6 bundle.
pub fn kea_bundle_v6(o: &IscDhcpOptionsV6) -> (r: OptionBundle)
    ensures
        r.iface@ == o.iface@,
        named_view(r.fields@) == kea_fields_v6(*o),
{
    let mut fields: Vec<(String, Option<String>)> = Vec::new();
    fields.push(("dns_servers".to_string(), join_list(o.dns_servers.as_slice())));
    fields.push(("domain_search".to_string(), nonempty_value(&o.domain_search)));
    assert(named_view(fields@) =~= kea_fields_v6(*o));
    OptionBundle { iface: o.iface.clone(), fields }
}

/// What happens to one named option of a subnet.
#[derive(Clone, Copy, Debug, PartialEq, Eq, Structural)]
pub enum OptionAction {
    /// The bundle has no value for it.
    Absent,
    /// The subnet already has a value and the run does not force.
    Keep,
    /// The value is written.
    Write,
}

/// One named option of a subnet and what happens to it.
#[derive(Debug)]
pub struct OptionDecision {
    pub field: String,
    pub value: Option<String>,
    pub action: OptionAction,
}

/// The options planned for one subnet, by its identifier. An IPv4 subnet that receives
/// options has its automatic option collection switched off, so that the backend does not
/// overwrite the explicit values.
#[derive(Debug)]
pub struct SubnetOptionPlan {
    pub uuid: String,
    pub clear_autocollect: bool,
    pub decisions: Vec<OptionDecision>,
}

/// The value that subnet `uuid` already has for `field`: the first recorded one, else empty.
pub open spec fn current_value(existing: Seq<(String, String, String)>, uuid: Seq<char>, field: Seq<
    char,
>) -> Seq<char>
    decreases existing.len(),
{
    if existing.len() == 0 {
        Seq::empty()
    } else if existing[0].0@ == uuid && existing[0].1@ == field {
        existing[0].2@
    } else {
        current_value(existing.drop_first(), uuid, field)
    }
}

/// The action for a value: none without one; kept when the subnet has a value and `force`
/// is off; written otherwise.
pub open spec fn option_action(value: Option<Seq<char>>, current: Seq<char>, force: bool) -> OptionAction {
    match value {
        None => OptionAction::Absent,
        Some(_) => if current.len() > 0 && !force {
            OptionAction::Keep
        } else {
            OptionAction::Write
        },
    }
}

/// The interface names of bundles.
pub open spec fn bundle_names(b: Seq<OptionBundle>) -> Seq<Seq<char>> {
    b.map_values(|x: OptionBundle| x.iface@)
}

/// The bundle of interface `names[i]` is the last one whose interface has network `cidr`.
pub open spec fn last_bundle_for(
    names: Seq<Seq<char>>,
    ifaces: Seq<(String, String)>,
    cidr: Seq<char>,
    i: int,
) -> bool {
    &&& 0 <= i < names.len()
    &&& cidr_of_iface(ifaces, names[i]) == Some(cidr)
    &&& forall|j: int| i < j < names.len() ==> cidr_of_iface(ifaces, #[trigger] names[j]) != Some(cidr)
}

/// The plan for subnet `s` follows the named options `fields` one by one.
pub open spec fn plan_follows(
    p: SubnetOptionPlan,
    s: Subnet,
    fields: Seq<(Seq<char>, Option<Seq<char>>)>,
    existing: Seq<(String, String, String)>,
    force: bool,
    v6: bool,
) -> bool {
    &&& p.uuid@ == s.uuid@
    &&& p.clear_autocollect == !v6
    &&& p.decisions@.len() == fields.len()
    &&& forall|k: int|
        0 <= k < fields.len() ==> {
            let f = fields[k];
            let d = #[trigger] p.decisions@[k];
            &&& d.field@ == f.0
            &&& named_view(seq![(d.field, d.value)])[0] == f
            &&& d.action == option_action(f.1, current_value(existing, s.uuid@, f.0), force)
        }
}

fn current_value_of(existing: &[(String, String, String)], uuid: &String, field: &String) -> (r: String)
    ensures
        r@ == current_value(existing@, uuid@, field@),
{
    let mut i: usize = 0;
    assert(existing@.subrange(0, existing@.len() as int) =~= existing@);
    while i < existing.len()
        invariant
            i <= existing@.len(),
            current_value(existing@, uuid@, field@) == current_value(
                existing@.subrange(i as int, existing@.len() as int),
                uuid@,
                field@,
            ),
        decreases existing@.len() - i,
    {
        let ghost rest = existing@.subrange(i as int, existing@.len() as int);
        assert(rest[0] == existing@[i as int]);
        if existing[i].0 == *uuid && existing[i].1 == *field {
            return existing[i].2.clone();
        }
        assert(rest.drop_first() =~= existing@.subrange(i + 1, existing@.len() as int));
        i = i + 1;
    }
    String::new()
}

/// Attaches option bundles to the subnets whose network is their interface's network (the
/// last bundle wins for a network); `None` for a subnet that no bundle reaches.
pub fn plan_kea_options(
    v6: bool,
    subnets: &[Subnet],
    bundles: &Vec<OptionBundle>,
    ifaces: &[(String, String)],
    existing: &[(String, String, String)],
    force: bool,
) -> (r: Vec<Option<SubnetOptionPlan>>)
    ensures
        r@.len() == subnets@.len(),
        forall|i: int|
            0 <= i < subnets@.len() ==> {
                &&& ((#[trigger] r@[i]) is Some <==> exists|b: int|
                    last_bundle_for(bundle_names(bundles@), ifaces@, subnets@[i].cidr@, b))
                &&& r@[i] is Some ==> exists|b: int|
                    last_bundle_for(bundle_names(bundles@), ifaces@, subnets@[i].cidr@, b) && plan_follows(
                        r@[i].unwrap(),
                        subnets@[i],
                        named_view(bundles@[b].fields@),
                        existing@,
                        force,
                        v6,
                    )
            },
{
    let mut cidrs: Vec<Option<String>> = Vec::new();
    let mut b: usize = 0;
    while b < bundles.len()
        invariant
            b <= bundles@.len(),
            cidrs@.len() == b,
            forall|j: int|
                0 <= j < b ==> match cidr_of_iface(ifaces@, bundles@[j].iface@) {
                    Some(c) => (#[trigger] cidrs@[j]) is Some && cidrs@[j].unwrap()@ == c,
                    None => cidrs@[j] is None,
                },
        decreases bundles@.len() - b,
    {
        cidrs.push(crate::subnets::cidr_for_iface(ifaces, &bundles[b].iface));
        b = b + 1;
    }
    let mut r: Vec<Option<SubnetOptionPlan>> = Vec::new();
    let mut i: usize = 0;
    while i < subnets.len()
        invariant
            i <= subnets@.len(),
            r@.len() == i,
            cidrs@.len() == bundles@.len(),
            forall|j: int|
                0 <= j < bundles@.len() ==> match cidr_of_iface(ifaces@, bundles@[j].iface@) {
                    Some(c) => (#[trigger] cidrs@[j]) is Some && cidrs@[j].unwrap()@ == c,
                    None => cidrs@[j] is None,
                },
            forall|x: int|
                0 <= x < i ==> {
                    &&& ((#[trigger] r@[x]) is Some <==> exists|b: int|
                        last_bundle_for(bundle_names(bundles@), ifaces@, subnets@[x].cidr@, b))
                    &&& r@[x] is Some ==> exists|b: int|
                        last_bundle_for(bundle_names(bundles@), ifaces@, subnets@[x].cidr@, b) && plan_follows(
                            r@[x].unwrap(),
                            subnets@[x],
                            named_view(bundles@[b].fields@),
                            existing@,
                            force,
                            v6,
                        )
                },
        decreases subnets@.len() - i,
    {
        let s = &subnets[i];
        let mut found: Option<usize> = None;
        let mut j: usize = bundles.len();
        while j > 0
            invariant
                j <= bundles@.len(),
                cidrs@.len() == bundles@.len(),
                i < subnets@.len(),
                s == subnets@[i as int],
                forall|y: int|
                    0 <= y < bundles@.len() ==> match cidr_of_iface(ifaces@, bundles@[y].iface@) {
                        Some(c) => (#[trigger] cidrs@[y]) is Some && cidrs@[y].unwrap()@ == c,
                        None => cidrs@[y] is None,
                    },
                found is None ==> forall|y: int|
                    j <= y < bundles@.len() ==> cidr_of_iface(ifaces@, (#[trigger] bundles@[y]).iface@)
                        != Some(s.cidr@),
                found is Some ==> last_bundle_for(bundle_names(bundles@), ifaces@, s.cidr@, found.unwrap() as int),
            decreases j,
        {
            if found.is_none() {
                let hit = match &cidrs[j - 1] {
                    Some(c) => *c == s.cidr,
                    None => false,
                };
                if hit {
                    found = Some(j - 1);
                }
            }
            j = j - 1;
        }
        match found {
            None => {
                proof {
                    assert forall|b: int| !last_bundle_for(bundle_names(bundles@), ifaces@, s.cidr@, b) by {
                        if 0 <= b < bundles@.len() {
                            assert(cidr_of_iface(ifaces@, bundles@[b].iface@) != Some(s.cidr@));
                        }
                    }
                }
                r.push(None);
            },
            Some(bi) => {
                let bundle = &bundles[bi];
                let mut decisions: Vec<OptionDecision> = Vec::new();
                let mut k: usize = 0;
                while k < bundle.fields.len()
                    invariant
                        k <= bundle.fields@.len(),
                        decisions@.len() == k,
                        forall|z: int|
                            0 <= z < k ==> {
                                let f = named_view(bundle.fields@)[z];
                                let d = #[trigger] decisions@[z];
                                &&& d.field@ == f.0
                                &&& named_view(seq![(d.field, d.value)])[0] == f
                                &&& d.action == option_action(
                                    f.1,
                                    current_value(existing@, s.uuid@, f.0),
                                    force,
                                )
                            },
                    decreases bundle.fields@.len() - k,
                {
                    let field = &bundle.fields[k].0;
                    let value = copy_text(&bundle.fields[k].1);
                    let action = match &value {
                        None => OptionAction::Absent,
                        Some(_) => {
                            let cur = current_value_of(existing, &s.uuid, field);
                            if !cur.as_str().is_empty() && !force {
                                OptionAction::Keep
                            } else {
                                OptionAction::Write
                            }
                        },
                    };
                    let d = OptionDecision { field: field.clone(), value, action };
                    proof {
                        assert(named_view(seq![(d.field, d.value)])[0] == named_view(bundle.fields@)[k as int]);
                    }
                    decisions.push(d);
                    k = k + 1;
                }
                let plan = SubnetOptionPlan { uuid: s.uuid.clone(), clear_autocollect: !v6, decisions };
                proof {
                    assert(plan_follows(plan, *s, named_view(bundle.fields@), existing@, force, v6));
                }
                r.push(Some(plan));
            },
        }
        i = i + 1;
    }
    r
}

} // verus!
