//! The records that flow through a migration.

use vstd::prelude::*;

verus! {

/// The target DHCP server.
#[derive(Clone, Copy, Debug, PartialEq, Eq, Structural)]
pub enum Backend {
    /// Subnet-oriented server; reservations are bound to a subnet.
    Kea,
    /// Flat host-table server.
    Dnsmasq,
}

impl Default for Backend {
    fn default() -> (r: Backend)
        ensures
            r == Backend::Kea,
    {
        Backend::Kea
    }
}

/// The display name of a backend.
pub open spec fn backend_name(b: Backend) -> Seq<char> {
    match b {
        Backend::Kea => seq!['K', 'e', 'a'],
        Backend::Dnsmasq => seq!['d', 'n', 's', 'm', 'a', 's', 'q'],
    }
}

impl Backend {
    /// The name under which the backend is shown to users.
    pub fn name(&self) -> (r: String)
        ensures
            r@ == backend_name(*self),
    {
        match self {
            Backend::Kea => {
                proof {
                    reveal_strlit("Kea");
                }
                String::from_str("Kea")
            },
            Backend::Dnsmasq => {
                proof {
                    reveal_strlit("dnsmasq");
                }
                String::from_str("dnsmasq")
            },
        }
    }
}

/// A legacy IPv4 static mapping.
#[derive(Clone, Debug)]
pub struct IscStaticMap {
    pub iface: String,
    pub mac: String,
    pub ipaddr: String,
    pub hostname: Option<String>,
    pub cid: Option<String>,
    pub descr: Option<String>,
}

/// A legacy IPv6 static mapping.
#[derive(Clone, Debug)]
pub struct IscStaticMapV6 {
    pub iface: String,
    pub duid: String,
    pub ipaddr: String,
    pub hostname: Option<String>,
    pub descr: Option<String>,
    pub domain_search: Option<String>,
}

/// The legacy per-interface IPv4 option bundle.
#[derive(Clone, Debug)]
pub struct IscDhcpOptionsV4 {
    pub iface: String,
    pub dns_servers: Vec<String>,
    pub routers: Option<String>,
    pub domain_name: Option<String>,
    pub domain_search: Option<String>,
    pub ntp_servers: Vec<String>,
}

/// The legacy per-interface IPv6 option bundle.
#[derive(Clone, Debug)]
pub struct IscDhcpOptionsV6 {
    pub iface: String,
    pub dns_servers: Vec<String>,
    pub domain_search: Option<String>,
}

/// A legacy IPv4 dynamic range.
#[derive(Clone, Debug)]
pub struct IscRangeV4 {
    pub iface: String,
    pub from: String,
    pub to: String,
}

/// A legacy IPv6 dynamic range.
#[derive(Clone, Debug)]
pub struct IscRangeV6 {
    pub iface: String,
    pub from: String,
    pub to: String,
}

/// An IPv4 subnet declared in the target backend.
#[derive(Clone, Debug)]
pub struct Subnet {
    pub uuid: String,
    pub cidr: String,
    pub iface: Option<String>,
}

/// An IPv6 subnet declared in the target backend.
#[derive(Clone, Debug)]
pub struct SubnetV6 {
    pub uuid: String,
    pub cidr: String,
    pub iface: Option<String>,
}

/// What a scan or a conversion found and did.
#[derive(Debug)]
pub struct MigrationStats {
    pub isc_mappings_found: usize,
    pub isc_mappings_v6_found: usize,
    pub isc_ranges_found: usize,
    pub isc_ranges_v6_found: usize,
    pub target_subnets_found: usize,
    pub target_subnets_v6_found: usize,
    pub reservations_to_create: usize,
    pub reservations_v6_to_create: usize,
    pub reservations_skipped: usize,
    pub reservations_v6_skipped: usize,
    pub interfaces_configured: Vec<String>,
    pub isc_disabled_v4: Vec<String>,
    pub isc_disabled_v6: Vec<String>,
    pub backend_enabled_v4: bool,
    pub backend_enabled_v6: bool,
}

impl Default for MigrationStats {
    fn default() -> (r: MigrationStats)
        ensures
            r.isc_mappings_found == 0,
            r.isc_mappings_v6_found == 0,
            r.isc_ranges_found == 0,
            r.isc_ranges_v6_found == 0,
            r.target_subnets_found == 0,
            r.target_subnets_v6_found == 0,
            r.reservations_to_create == 0,
            r.reservations_v6_to_create == 0,
            r.reservations_skipped == 0,
            r.reservations_v6_skipped == 0,
            r.interfaces_configured@.len() == 0,
            r.isc_disabled_v4@.len() == 0,
            r.isc_disabled_v6@.len() == 0,
            !r.backend_enabled_v4,
            !r.backend_enabled_v6,
    {
        MigrationStats {
            isc_mappings_found: 0,
            isc_mappings_v6_found: 0,
            isc_ranges_found: 0,
            isc_ranges_v6_found: 0,
            target_subnets_found: 0,
            target_subnets_v6_found: 0,
            reservations_to_create: 0,
            reservations_v6_to_create: 0,
            reservations_skipped: 0,
            reservations_v6_skipped: 0,
            interfaces_configured: Vec::new(),
            isc_disabled_v4: Vec::new(),
            isc_disabled_v6: Vec::new(),
            backend_enabled_v4: false,
            backend_enabled_v6: false,
        }
    }
}

/// The switches of a migration run.
#[derive(Clone, Debug)]
pub struct MigrationOptions {
    pub fail_if_existing: bool,
    pub verbose: bool,
    pub backend: Backend,
    pub create_subnets: bool,
    pub force_subnets: bool,
    pub create_options: bool,
    pub force_options: bool,
    pub enable_backend: bool,
}

impl Default for MigrationOptions {
    fn default() -> (r: MigrationOptions)
        ensures
            !r.fail_if_existing,
            !r.verbose,
            r.backend == Backend::Kea,
            !r.create_subnets,
            !r.force_subnets,
            !r.create_options,
            !r.force_options,
            !r.enable_backend,
    {
        MigrationOptions {
            fail_if_existing: false,
            verbose: false,
            backend: Backend::Kea,
            create_subnets: false,
            force_subnets: false,
            create_options: false,
            force_options: false,
            enable_backend: false,
        }
    }
}

} // verus!
