//! The closed set of failures of a migration.

use vstd::prelude::*;

use crate::types::Backend;

verus! {

/// Every way a scan or a conversion can fail.
#[derive(Debug)]
pub enum MigrationError {
    NoMatchingSubnet(String),
    InvalidIpAddress(String),
    InvalidCidr(String),
    NoMatchingInterface(String),
    InterfaceMismatch { ip: String, isc_iface: String, derived_iface: String },
    BackendNotConfigured { backend: String },
    NoBackendSubnets { backend: String },
    BackendV6NotConfigured { backend: String },
    NoBackendSubnetsV6 { backend: String },
    /// Records already exist in the target and the run was asked to stop on them.
    ExistingRecordsFound { backend: Backend, count: usize },
    /// Subnet creation was asked for a family that has no source range.
    NoRangesForSubnets { v6: bool },
    /// A source range names an interface without a static network.
    NoInterfaceCidrForRange { iface: String, v6: bool },
    /// A source range reaches outside its interface's network.
    RangeOutsideSubnet { from: String, to: String, iface: String, cidr: String, v6: bool },
    /// The backend service of a family that has subnets could not be switched on.
    EnableFailed { backend: Backend, v6: bool },
    /// The legacy service is already off everywhere.
    LegacyAlreadyDisabled,
}

/// The mathematical value of a [`MigrationError`].
pub enum ErrorView {
    NoMatchingSubnet(Seq<char>),
    InvalidIpAddress(Seq<char>),
    InvalidCidr(Seq<char>),
    NoMatchingInterface(Seq<char>),
    InterfaceMismatch { ip: Seq<char>, isc_iface: Seq<char>, derived_iface: Seq<char> },
    BackendNotConfigured { backend: Seq<char> },
    NoBackendSubnets { backend: Seq<char> },
    BackendV6NotConfigured { backend: Seq<char> },
    NoBackendSubnetsV6 { backend: Seq<char> },
    ExistingRecordsFound { backend: Backend, count: nat },
    NoRangesForSubnets { v6: bool },
    NoInterfaceCidrForRange { iface: Seq<char>, v6: bool },
    RangeOutsideSubnet {
        from: Seq<char>,
        to: Seq<char>,
        iface: Seq<char>,
        cidr: Seq<char>,
        v6: bool,
    },
    EnableFailed { backend: Backend, v6: bool },
    LegacyAlreadyDisabled,
}

impl View for MigrationError {
    type V = ErrorView;

    open spec fn view(&self) -> ErrorView {
        match self {
            MigrationError::NoMatchingSubnet(s) => ErrorView::NoMatchingSubnet(s@),
            MigrationError::InvalidIpAddress(s) => ErrorView::InvalidIpAddress(s@),
            MigrationError::InvalidCidr(s) => ErrorView::InvalidCidr(s@),
            MigrationError::NoMatchingInterface(s) => ErrorView::NoMatchingInterface(s@),
            MigrationError::InterfaceMismatch { ip, isc_iface, derived_iface } => {
                ErrorView::InterfaceMismatch {
                    ip: ip@,
                    isc_iface: isc_iface@,
                    derived_iface: derived_iface@,
                }
            },
            MigrationError::BackendNotConfigured { backend } => ErrorView::BackendNotConfigured {
                backend: backend@,
            },
            MigrationError::NoBackendSubnets { backend } => ErrorView::NoBackendSubnets {
                backend: backend@,
            },
            MigrationError::BackendV6NotConfigured { backend } => {
                ErrorView::BackendV6NotConfigured { backend: backend@ }
            },
            MigrationError::NoBackendSubnetsV6 { backend } => ErrorView::NoBackendSubnetsV6 {
                backend: backend@,
            },
            MigrationError::ExistingRecordsFound { backend, count } => {
                ErrorView::ExistingRecordsFound { backend: *backend, count: *count as nat }
            },
            MigrationError::NoRangesForSubnets { v6 } => ErrorView::NoRangesForSubnets { v6: *v6 },
            MigrationError::NoInterfaceCidrForRange { iface, v6 } => {
                ErrorView::NoInterfaceCidrForRange { iface: iface@, v6: *v6 }
            },
            MigrationError::RangeOutsideSubnet { from, to, iface, cidr, v6 } => {
                ErrorView::RangeOutsideSubnet {
                    from: from@,
                    to: to@,
                    iface: iface@,
                    cidr: cidr@,
                    v6: *v6,
                }
            },
            MigrationError::EnableFailed { backend, v6 } => ErrorView::EnableFailed {
                backend: *backend,
                v6: *v6,
            },
            MigrationError::LegacyAlreadyDisabled => ErrorView::LegacyAlreadyDisabled,
        }
    }
}

/// The family word used in messages.
pub open spec fn family_text(v6: bool) -> Seq<char> {
    if v6 {
        "DHCPv6"@
    } else {
        "DHCPv4"@
    }
}

/// The message of a failure; the one that reports existing records also carries a count and is
/// left out here.
pub open spec fn message_of(e: ErrorView) -> Option<Seq<char>> {
    match e {
        ErrorView::NoMatchingSubnet(ip) => Some(
            "IP address "@ + ip + " does not match any configured subnet"@,
        ),
        ErrorView::InvalidIpAddress(ip) => Some("Invalid IP address: "@ + ip),
        ErrorView::InvalidCidr(c) => Some("Invalid CIDR notation: "@ + c),
        ErrorView::NoMatchingInterface(ip) => Some(
            "IP address "@ + ip + " does not match any configured interface subnet"@,
        ),
        ErrorView::InterfaceMismatch { ip, isc_iface, derived_iface } => Some(
            "IP address "@ + ip + " maps to interface "@ + derived_iface
                + " but ISC mapping is under interface "@ + isc_iface,
        ),
        ErrorView::BackendNotConfigured { backend } => Some(
            backend + " DHCPv4 not configured in config.xml. Please configure "@ + backend
                + " first."@,
        ),
        ErrorView::NoBackendSubnets { backend } => Some(
            "No "@ + backend + " subnets found. Please configure at least one "@ + backend
                + " subnet before migration."@,
        ),
        ErrorView::BackendV6NotConfigured { backend } => Some(
            backend + " DHCPv6 not configured in config.xml. Please configure "@ + backend
                + " DHCPv6 first."@,
        ),
        ErrorView::NoBackendSubnetsV6 { backend } => Some(
            "No "@ + backend + " DHCPv6 subnets found. Please configure at least one "@ + backend
                + " DHCPv6 subnet before migration."@,
        ),
        ErrorView::ExistingRecordsFound { .. } => None,
        ErrorView::NoRangesForSubnets { v6 } => Some(
            "No "@ + family_text(v6)
                + " ranges found to create Kea subnets. Configure ranges or subnets first."@,
        ),
        ErrorView::NoInterfaceCidrForRange { iface, v6 } => Some(
            "No interface CIDR found for "@ + family_text(v6) + " interface '"@ + iface + "'"@,
        ),
        ErrorView::RangeOutsideSubnet { from, to, iface, cidr, v6 } => Some(
            family_text(v6) + " range "@ + from + "-"@ + to
                + " is not contained within interface subnet "@ + iface + " ("@ + cidr + ")"@,
        ),
        ErrorView::EnableFailed { backend, v6 } => Some(
            match backend {
                Backend::Kea => "Failed to enable Kea "@ + family_text(v6)
                    + ". Check for missing <general><enabled>."@,
                Backend::Dnsmasq => "Failed to enable dnsmasq. Check that <dnsmasq> is present."@,
            },
        ),
        ErrorView::LegacyAlreadyDisabled => Some(
            "ISC DHCP already appears disabled; refusing to enable backend to avoid dual-DHCP."@,
        ),
    }
}

fn family_word(v6: bool) -> (r: &'static str)
    ensures
        r@ == family_text(v6),
{
    if v6 {
        "DHCPv6"
    } else {
        "DHCPv4"
    }
}

impl MigrationError {
    /// A human-readable description of the failure.
    pub fn message(&self) -> (r: String)
        ensures
            message_of(self@) is Some ==> r@ == message_of(self@)->Some_0,
    {
        let mut m = String::new();
        match self {
            MigrationError::NoMatchingSubnet(ip) => {
                m.append("IP address ");
                m.append(ip.as_str());
                m.append(" does not match any configured subnet");
            },
            MigrationError::InvalidIpAddress(ip) => {
                m.append("Invalid IP address: ");
                m.append(ip.as_str());
            },
            MigrationError::InvalidCidr(c) => {
                m.append("Invalid CIDR notation: ");
                m.append(c.as_str());
            },
            MigrationError::NoMatchingInterface(ip) => {
                m.append("IP address ");
                m.append(ip.as_str());
                m.append(" does not match any configured interface subnet");
            },
            MigrationError::InterfaceMismatch { ip, isc_iface, derived_iface } => {
                m.append("IP address ");
                m.append(ip.as_str());
                m.append(" maps to interface ");
                m.append(derived_iface.as_str());
                m.append(" but ISC mapping is under interface ");
                m.append(isc_iface.as_str());
            },
            MigrationError::BackendNotConfigured { backend } => {
                m.append(backend.as_str());
                m.append(" DHCPv4 not configured in config.xml. Please configure ");
                m.append(backend.as_str());
                m.append(" first.");
            },
            MigrationError::NoBackendSubnets { backend } => {
                m.append("No ");
                m.append(backend.as_str());
                m.append(" subnets found. Please configure at least one ");
                m.append(backend.as_str());
                m.append(" subnet before migration.");
            },
            MigrationError::BackendV6NotConfigured { backend } => {
                m.append(backend.as_str());
                m.append(" DHCPv6 not configured in config.xml. Please configure ");
                m.append(backend.as_str());
                m.append(" DHCPv6 first.");
            },
            MigrationError::NoBackendSubnetsV6 { backend } => {
                m.append("No ");
                m.append(backend.as_str());
                m.append(" DHCPv6 subnets found. Please configure at least one ");
                m.append(backend.as_str());
                m.append(" DHCPv6 subnet before migration.");
            },
            MigrationError::ExistingRecordsFound { backend, count } => {
                let n = count.to_string();
                match backend {
                    Backend::Kea => {
                        m.append("Existing reservations found (");
                        m.append(n.as_str());
                        m.append(" IPs)");
                    },
                    Backend::Dnsmasq => {
                        m.append("Existing dnsmasq hosts found (");
                        m.append(n.as_str());
                        m.append(" entries)");
                    },
                }
                m.append(" and --fail-if-existing is set. Aborting.");
            },
            MigrationError::NoRangesForSubnets { v6 } => {
                m.append("No ");
                m.append(family_word(*v6));
                m.append(" ranges found to create Kea subnets. Configure ranges or subnets first.");
            },
            MigrationError::NoInterfaceCidrForRange { iface, v6 } => {
                m.append("No interface CIDR found for ");
                m.append(family_word(*v6));
                m.append(" interface '");
                m.append(iface.as_str());
                m.append("'");
            },
            MigrationError::RangeOutsideSubnet { from, to, iface, cidr, v6 } => {
                m.append(family_word(*v6));
                m.append(" range ");
                m.append(from.as_str());
                m.append("-");
                m.append(to.as_str());
                m.append(" is not contained within interface subnet ");
                m.append(iface.as_str());
                m.append(" (");
                m.append(cidr.as_str());
                m.append(")");
            },
            MigrationError::EnableFailed { backend, v6 } => match backend {
                Backend::Kea => {
                    m.append("Failed to enable Kea ");
                    m.append(family_word(*v6));
                    m.append(". Check for missing <general><enabled>.");
                },
                Backend::Dnsmasq => {
                    m.append("Failed to enable dnsmasq. Check that <dnsmasq> is present.");
                },
            },
            MigrationError::LegacyAlreadyDisabled => {
                m.append(
                    "ISC DHCP already appears disabled; refusing to enable backend to avoid dual-DHCP.",
                );
            },
        }
        m
    }
}

} // verus!
