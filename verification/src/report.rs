//! The canonical report: the one transport-agnostic data shape every
//! collection strategy produces.

use crate::date::Timestamp;
use crate::text::all_ws;
use vstd::prelude::*;

verus! {

/// The address family of a network interface's address.
#[derive(Debug, Clone, Copy, PartialEq, Eq, Structural)]
pub enum IpVersion {
    /// An IPv4 address
    IPv4,
    /// An IPv6 address
    IPv6,
}

/// One network interface in the canonical report.
#[derive(Debug, Clone, PartialEq)]
pub struct NetworkInterfaceDto {
    /// Interface name
    pub name: String,
    /// Address text
    pub ip_address: String,
    /// Address family, derived from the address text
    pub ip_version: IpVersion,
    /// MAC address text, when known
    pub mac_address: Option<String>,
}

/// The system section of the canonical report.
#[derive(Debug, Clone, PartialEq)]
pub struct SystemInfoDto {
    /// OS name
    pub os_name: String,
    /// OS version
    pub os_version: String,
    /// Host name
    pub host_name: String,
    /// CPU description
    pub cpu_info: String,
    /// Physical core count, when known
    pub cpu_physical_cores: Option<u32>,
    /// Total memory in bytes
    pub memory_total_bytes: u64,
    /// Used memory in bytes
    pub memory_used_bytes: u64,
    /// Machine manufacturer, when known
    pub manufacturer: Option<String>,
    /// Machine model, when known
    pub model: Option<String>,
    /// Network interfaces
    pub network_interfaces: Vec<NetworkInterfaceDto>,
}

/// One installed-software record in the canonical report.
#[derive(Debug, Clone, PartialEq)]
pub struct SoftwareDto {
    /// Software name; never blank
    pub name: String,
    /// Version text, when known
    pub version: Option<String>,
    /// Vendor text, when known
    pub vendor: Option<String>,
    /// Install instant, when known; midnight of the install date
    pub install_date: Option<Timestamp>,
}

/// One industrial record in the canonical report.
#[derive(Debug, Clone, PartialEq)]
pub struct IndustrialSoftwareDto {
    /// The vendor's display text
    pub vendor: String,
    /// Product name, verbatim
    pub product: String,
    /// Version text, when known
    pub version: Option<String>,
    /// Install path text, when known
    pub install_path: Option<String>,
}

/// The canonical report: either fully formed or not produced at all.
#[derive(Debug, Clone, PartialEq)]
pub struct SysauditReport {
    /// The system section
    pub system: SystemInfoDto,
    /// The installed software, ordered
    pub software: Vec<SoftwareDto>,
    /// The industrial records, ordered
    pub industrial: Vec<IndustrialSoftwareDto>,
    /// When the report was taken, UTC
    pub timestamp: Timestamp,
}

impl SysauditReport {
    /// A well-formed report: a calendar-valid timestamp, and no software
    /// record with a blank name or a non-calendar install instant.
    pub open spec fn wf(&self) -> bool {
        &&& self.timestamp.wf()
        &&& forall|i: int|
            0 <= i < self.software@.len() ==> !all_ws(#[trigger] self.software@[i].name@) && (match
                self.software@[i].install_date {
                Some(t) => t.wf(),
                None => true,
            })
    }
}

} // verus!
