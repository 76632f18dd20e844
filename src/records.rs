//! The records that a conversion writes into the target: reservations, hosts, subnets,
//! ranges and options, each a flat element of named text fields.

use vstd::prelude::*;

use crate::addr::texts;
use crate::text::{first_domain, Delims, join, join_with, tokens};
use crate::types::{IscStaticMap, IscStaticMapV6};

verus! {

/// A flat element: its tag, its identifier attribute, and its child fields in order.
#[derive(Debug)]
pub struct Record {
    pub tag: String,
    pub uuid: String,
    pub fields: Vec<(String, String)>,
}

/// The value of a field list.
pub open spec fn fields_view(f: Seq<(String, String)>) -> Seq<(Seq<char>, Seq<char>)> {
    f.map_values(|p: (String, String)| (p.0@, p.1@))
}

/// Relies on uuid's `Uuid::new_v4` and its text form: a fresh random identifier.
#[verifier::external_body]
pub(crate) fn new_uuid() -> (r: String) {
    uuid::Uuid::new_v4().to_string()
}

/// Appends the field `tag` = `value`.
fn push_field(fields: &mut Vec<(String, String)>, tag: &str, value: &str)
    ensures
        fields_view(final(fields)@) == fields_view(old(fields)@).push((tag@, value@)),
{
    fields.push((tag.to_string(), value.to_string()));
    assert(fields_view(fields@) =~= fields_view(old(fields)@).push((tag@, value@)));
}

/// A field that is present only when the value is.
pub open spec fn opt_field(tag: Seq<char>, v: Option<String>) -> Seq<(Seq<char>, Seq<char>)> {
    match v {
        Some(s) => seq![(tag, s@)],
        None => Seq::empty(),
    }
}

/// Appends the field when the value is present.
fn push_opt_field(fields: &mut Vec<(String, String)>, tag: &str, value: &Option<String>)
    ensures
        fields_view(final(fields)@) == fields_view(old(fields)@) + opt_field(tag@, *value),
{
    match value {
        Some(v) => push_field(fields, tag, v.as_str()),
        None => {},
    }
    assert(fields_view(fields@) =~= fields_view(old(fields)@) + opt_field(tag@, *value));
}

/// The hostname of an IPv4 mapping: its hostname, else its client id.
pub open spec fn host_name_v4(m: IscStaticMap) -> Option<String> {
    if m.hostname is Some {
        m.hostname
    } else {
        m.cid
    }
}

/// The fields of the reservation for an IPv4 mapping linked to subnet `subnet`.
pub open spec fn reservation_fields_v4(m: IscStaticMap, subnet: Seq<char>) -> Seq<
    (Seq<char>, Seq<char>),
> {
    seq![("subnet"@, subnet), ("ip_address"@, m.ipaddr@), ("hw_address"@, m.mac@)] + opt_field(
        "hostname"@,
        host_name_v4(m),
    ) + opt_field("description"@, m.descr)
}

/// The reservation for an IPv4 mapping in the subnet with identifier `subnet_uuid`.
pub fn create_reservation_element(mapping: &IscStaticMap, subnet_uuid: &str) -> (r: Record)
    ensures
        r.tag@ == "reservation"@,
        fields_view(r.fields@) == reservation_fields_v4(*mapping, subnet_uuid@),
{
    let mut fields: Vec<(String, String)> = Vec::new();
    push_field(&mut fields, "subnet", subnet_uuid);
    push_field(&mut fields, "ip_address", mapping.ipaddr.as_str());
    push_field(&mut fields, "hw_address", mapping.mac.as_str());
    if mapping.hostname.is_some() {
        push_opt_field(&mut fields, "hostname", &mapping.hostname);
    } else {
        push_opt_field(&mut fields, "hostname", &mapping.cid);
    }
    push_opt_field(&mut fields, "description", &mapping.descr);
    assert(fields_view(fields@) =~= reservation_fields_v4(*mapping, subnet_uuid@));
    Record { tag: "reservation".to_string(), uuid: new_uuid(), fields }
}

/// The fields of the reservation for an IPv6 mapping linked to subnet `subnet`.
pub open spec fn reservation_fields_v6(m: IscStaticMapV6, subnet: Seq<char>) -> Seq<
    (Seq<char>, Seq<char>),
> {
    seq![("subnet"@, subnet), ("ip_address"@, m.ipaddr@), ("duid"@, m.duid@)] + opt_field(
        "hostname"@,
        m.hostname,
    ) + opt_field("domain_search"@, m.domain_search) + opt_field("description"@, m.descr)
}

/// The reservation for an IPv6 mapping in the subnet with identifier `subnet_uuid`.
pub fn create_reservation_element_v6(mapping: &IscStaticMapV6, subnet_uuid: &str) -> (r: Record)
    ensures
        r.tag@ == "reservation"@,
        fields_view(r.fields@) == reservation_fields_v6(*mapping, subnet_uuid@),
{
    let mut fields: Vec<(String, String)> = Vec::new();
    push_field(&mut fields, "subnet", subnet_uuid);
    push_field(&mut fields, "ip_address", mapping.ipaddr.as_str());
    push_field(&mut fields, "duid", mapping.duid.as_str());
    push_opt_field(&mut fields, "hostname", &mapping.hostname);
    push_opt_field(&mut fields, "domain_search", &mapping.domain_search);
    push_opt_field(&mut fields, "description", &mapping.descr);
    assert(fields_view(fields@) =~= reservation_fields_v6(*mapping, subnet_uuid@));
    Record { tag: "reservation".to_string(), uuid: new_uuid(), fields }
}

/// The text of an optional value, empty when absent.
pub open spec fn text_or_empty(v: Option<String>) -> Seq<char> {
    match v {
        Some(s) => s@,
        None => Seq::empty(),
    }
}

/// The fields a flat host entry always carries after its own, for an IPv4 host.
pub open spec fn host_defaults_v4() -> Seq<(Seq<char>, Seq<char>)> {
    seq![
        ("domain"@, ""@),
        ("local"@, "0"@),
        ("ignore"@, "0"@),
        ("lease_time"@, ""@),
        ("cnames"@, ""@),
        ("set_tag"@, ""@),
        ("comments"@, ""@),
        ("aliases"@, ""@),
    ]
}

/// The fields of the flat host entry for an IPv4 mapping.
pub open spec fn host_fields_v4(m: IscStaticMap) -> Seq<(Seq<char>, Seq<char>)> {
    seq![("hwaddr"@, m.mac@), ("ip"@, m.ipaddr@), ("host"@, text_or_empty(host_name_v4(m)))]
        + opt_field("client_id"@, m.cid) + opt_field("descr"@, m.descr) + host_defaults_v4()
}

/// The flat host entry for an IPv4 mapping.
pub fn create_dnsmasq_host_element(mapping: &IscStaticMap) -> (r: Record)
    ensures
        r.tag@ == "hosts"@,
        fields_view(r.fields@) == host_fields_v4(*mapping),
{
    proof {
        reveal_strlit("");
        assert(""@ =~= Seq::<char>::empty());
    }
    let mut fields: Vec<(String, String)> = Vec::new();
    push_field(&mut fields, "hwaddr", mapping.mac.as_str());
    push_field(&mut fields, "ip", mapping.ipaddr.as_str());
    match &mapping.hostname {
        Some(h) => push_field(&mut fields, "host", h.as_str()),
        None => match &mapping.cid {
            Some(c) => push_field(&mut fields, "host", c.as_str()),
            None => push_field(&mut fields, "host", ""),
        },
    }
    push_opt_field(&mut fields, "client_id", &mapping.cid);
    push_opt_field(&mut fields, "descr", &mapping.descr);
    push_field(&mut fields, "domain", "");
    push_field(&mut fields, "local", "0");
    push_field(&mut fields, "ignore", "0");
    push_field(&mut fields, "lease_time", "");
    push_field(&mut fields, "cnames", "");
    push_field(&mut fields, "set_tag", "");
    push_field(&mut fields, "comments", "");
    push_field(&mut fields, "aliases", "");
    assert(fields_view(fields@) =~= host_fields_v4(*mapping));
    Record { tag: "hosts".to_string(), uuid: new_uuid(), fields }
}

/// The domain of an IPv6 host: the first item of the mapping's domain-search list.
pub open spec fn host_domain_v6(m: IscStaticMapV6) -> Seq<char> {
    match m.domain_search {
        Some(ds) => if tokens(ds@, Delims::CommaOrSpace).len() > 0 {
            tokens(ds@, Delims::CommaOrSpace)[0]
        } else {
            Seq::empty()
        },
        None => Seq::empty(),
    }
}

/// The fields a flat host entry always carries after its own, for an IPv6 host.
pub open spec fn host_defaults_v6() -> Seq<(Seq<char>, Seq<char>)> {
    seq![
        ("lease_time"@, ""@),
        ("cnames"@, ""@),
        ("ignore"@, "0"@),
        ("set_tag"@, ""@),
        ("comments"@, ""@),
        ("aliases"@, ""@),
    ]
}

/// The fields of the flat host entry for an IPv6 mapping.
pub open spec fn host_fields_v6(m: IscStaticMapV6) -> Seq<(Seq<char>, Seq<char>)> {
    seq![
        ("host"@, text_or_empty(m.hostname)),
        ("domain"@, host_domain_v6(m)),
        ("local"@, "0"@),
        ("ip"@, m.ipaddr@),
        ("client_id"@, m.duid@),
        ("hwaddr"@, ""@),
    ] + opt_field("descr"@, m.descr) + host_defaults_v6()
}

/// The flat host entry for an IPv6 mapping.
pub fn create_dnsmasq_host_element_v6(mapping: &IscStaticMapV6) -> (r: Record)
    ensures
        r.tag@ == "hosts"@,
        fields_view(r.fields@) == host_fields_v6(*mapping),
{
    proof {
        reveal_strlit("");
        assert(""@ =~= Seq::<char>::empty());
    }
    let mut fields: Vec<(String, String)> = Vec::new();
    match &mapping.hostname {
        Some(h) => push_field(&mut fields, "host", h.as_str()),
        None => push_field(&mut fields, "host", ""),
    }
    match &mapping.domain_search {
        Some(ds) => {
            let d = first_domain(ds.as_str());
            push_field(&mut fields, "domain", d.as_str());
        },
        None => push_field(&mut fields, "domain", ""),
    }
    push_field(&mut fields, "local", "0");
    push_field(&mut fields, "ip", mapping.ipaddr.as_str());
    push_field(&mut fields, "client_id", mapping.duid.as_str());
    push_field(&mut fields, "hwaddr", "");
    push_opt_field(&mut fields, "descr", &mapping.descr);
    push_field(&mut fields, "lease_time", "");
    push_field(&mut fields, "cnames", "");
    push_field(&mut fields, "ignore", "0");
    push_field(&mut fields, "set_tag", "");
    push_field(&mut fields, "comments", "");
    push_field(&mut fields, "aliases", "");
    assert(fields_view(fields@) =~= host_fields_v6(*mapping));
    Record { tag: "hosts".to_string(), uuid: new_uuid(), fields }
}


/// The key that identifies a keyed entry: its parts joined with `|`.
pub open spec fn key_text(parts: Seq<Seq<char>>) -> Seq<char> {
    join(parts, seq!['|'])
}

/// Joins key parts with `|` (see [`key_text`]).
pub fn join_key(parts: &Vec<String>) -> (r: String)
    ensures
        r@ == key_text(texts(parts@)),
{
    proof {
        reveal_strlit("|");
        assert("|"@ =~= seq!['|']);
    }
    join_with(parts, "|")
}

/// An entry to add under a key, and whether entries with that key are removed first.
#[derive(Debug)]
pub struct KeyedChange {
    pub key: String,
    pub replace: bool,
    pub record: Record,
}

/// The target has an entry under key `k`.
pub open spec fn has_key(existing: Seq<String>, k: Seq<char>) -> bool {
    exists|i: int| 0 <= i < existing.len() && (#[trigger] existing[i])@ == k
}

/// Whether some existing key equals `k`.
pub fn contains_key(existing: &[String], k: &String) -> (r: bool)
    ensures
        r == has_key(existing@, k@),
{
    let mut i: usize = 0;
    while i < existing.len()
        invariant
            i <= existing@.len(),
            forall|j: int| 0 <= j < i ==> (#[trigger] existing@[j])@ != k@,
        decreases existing@.len() - i,
    {
        if existing[i] == *k {
            return true;
        }
        i = i + 1;
    }
    false
}

/// Merges keyed entries into the target: an entry whose key the target already has is
/// skipped (`None`), or replaces the existing ones when `force` is set; any other is added.
pub fn merge_keyed(items: Vec<(String, Record)>, existing: &[String], force: bool) -> (r: Vec<
    Option<KeyedChange>,
>)
    ensures
        r@.len() == items@.len(),
        forall|i: int|
            0 <= i < items@.len() ==> {
                let present = has_key(existing@, (#[trigger] items@[i]).0@);
                &&& (r@[i] is None <==> present && !force)
                &&& r@[i] is Some ==> {
                    let c = r@[i].unwrap();
                    &&& c.key@ == items@[i].0@
                    &&& c.replace == present
                    &&& c.record == items@[i].1
                }
            },
{
    let ghost all = items@;
    let mut items = items;
    let mut r: Vec<Option<KeyedChange>> = Vec::new();
    let mut rev: Vec<Option<KeyedChange>> = Vec::new();
    while items.len() > 0
        invariant
            items@.len() <= all.len(),
            items@ == all.take(items@.len() as int),
            rev@.len() == all.len() - items@.len(),
            forall|j: int|
                0 <= j < rev@.len() ==> {
                    let i = all.len() - 1 - j;
                    let present = has_key(existing@, all[i].0@);
                    &&& (#[trigger] rev@[j] is None <==> present && !force)
                    &&& rev@[j] is Some ==> {
                        let c = rev@[j].unwrap();
                        &&& c.key@ == all[i].0@
                        &&& c.replace == present
                        &&& c.record == all[i].1
                    }
                },
        decreases items@.len(),
    {
        let (key, record) = items.pop().unwrap();
        let present = contains_key(existing, &key);
        if present && !force {
            rev.push(None);
        } else {
            rev.push(Some(KeyedChange { key, replace: present, record }));
        }
        proof {
            assert(items@ =~= all.take(items@.len() as int));
        }
    }
    while rev.len() > 0
        invariant
            r@.len() + rev@.len() == all.len(),
            forall|j: int|
                0 <= j < rev@.len() ==> {
                    let i = all.len() - 1 - j;
                    let present = has_key(existing@, all[i].0@);
                    &&& (#[trigger] rev@[j] is None <==> present && !force)
                    &&& rev@[j] is Some ==> {
                        let c = rev@[j].unwrap();
                        &&& c.key@ == all[i].0@
                        &&& c.replace == present
                        &&& c.record == all[i].1
                    }
                },
            forall|i: int|
                0 <= i < r@.len() ==> {
                    let present = has_key(existing@, all[i].0@);
                    &&& (#[trigger] r@[i] is None <==> present && !force)
                    &&& r@[i] is Some ==> {
                        let c = r@[i].unwrap();
                        &&& c.key@ == all[i].0@
                        &&& c.replace == present
                        &&& c.record == all[i].1
                    }
                },
        decreases rev@.len(),
    {
        let c = rev.pop().unwrap();
        r.push(c);
    }
    r
}

} // verus!
