//! Migration of static DHCP reservations from an ISC-style configuration into a
//! subnet-oriented (Kea) or a flat host-table (dnsmasq) backend.
//!
//! The engine works on plain values read from the configuration document and returns the
//! records and switches to write back; it never walks or edits the document itself.

pub mod addr;
pub mod engine;
pub mod errors;
pub mod extract;
pub mod ledger;
pub mod options;
pub mod records;
pub mod reserve;
pub mod resolve;
pub mod services;
pub mod subnets;
pub mod text;
pub mod types;

pub use addr::{ip_in_subnet, ip_in_subnet_v6};
pub use engine::{
    convert_dnsmasq, convert_kea, scan_counts, scan_dnsmasq, scan_kea, DnsmasqConversion,
    DnsmasqData, KeaConversion, KeaData, SourceData,
};
pub use errors::{ErrorView, MigrationError};
pub use resolve::{
    find_subnet_for_ip, find_subnet_for_ip_v6, iface_for_ip, iface_for_ip_v6,
    validate_mapping_ifaces_v4, validate_mapping_ifaces_v6,
};
pub use subnets::prefix_to_netmask;
pub use types::{
    Backend, IscDhcpOptionsV4, IscDhcpOptionsV6, IscRangeV4, IscRangeV6, IscStaticMap,
    IscStaticMapV6, MigrationOptions, MigrationStats, Subnet, SubnetV6,
};
