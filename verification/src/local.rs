//! The local collection strategy: orchestrates the three native
//! sub-collectors' outcomes and translates their native types into the
//! canonical report.

use crate::date::{now_utc, Timestamp};
use crate::error::Error;
use crate::industrial::IndustrialSoftware;
use crate::report::{
    IndustrialSoftwareDto, IpVersion, NetworkInterfaceDto, SoftwareDto, SysauditReport,
    SystemInfoDto,
};
use crate::scanner::ScanError;
use crate::software::Software;
use crate::system::{NetworkInterface, SystemInfo};
use crate::text::{contains_sub, has_sub, opt_view};
use vstd::prelude::*;

verus! {

/// Collects system data from the local machine: three independent native
/// sub-collectors, all-or-nothing. A fourth native source, the update
/// history, deliberately stays out of the canonical report and never fails
/// a pass.
pub struct LocalScanner;

/// The address family the report derives from an address text: textual
/// IPv6 addresses carry a colon and textual IPv4 addresses never do.
pub open spec fn family_of(addr: Seq<char>) -> IpVersion {
    if has_sub(addr, ":"@) {
        IpVersion::IPv6
    } else {
        IpVersion::IPv4
    }
}

/// How a report interface relates to a native one.
pub open spec fn iface_dto_from(dto: NetworkInterfaceDto, nic: NetworkInterface) -> bool {
    &&& dto.name@ == nic.name@
    &&& dto.ip_address@ == nic.ip_address@
    &&& dto.ip_version == family_of(nic.ip_address@)
    &&& opt_view(dto.mac_address) == opt_view(nic.mac_address)
}

/// How the report's system section relates to the native inventory:
/// fields carried over, the physical core count narrowed to the report's
/// width, and each interface's family derived from its address text.
pub open spec fn system_dto_from(dto: SystemInfoDto, si: SystemInfo) -> bool {
    &&& dto.os_name@ == si.os_name@
    &&& dto.os_version@ == si.os_version@
    &&& dto.host_name@ == si.computer_name@
    &&& dto.cpu_info@ == si.cpu_info@
    &&& dto.cpu_physical_cores == (match si.cpu_cores_physical {
        Some(c) => Some(c as u32),
        None => None::<u32>,
    })
    &&& dto.memory_total_bytes == si.memory_total
    &&& dto.memory_used_bytes == si.memory_used
    &&& opt_view(dto.manufacturer) == opt_view(si.manufacturer)
    &&& opt_view(dto.model) == opt_view(si.model)
    &&& dto.network_interfaces@.len() == si.network_interfaces@.len()
    &&& forall|i: int|
        0 <= i < si.network_interfaces@.len() ==> iface_dto_from(
            #[trigger] dto.network_interfaces@[i],
            si.network_interfaces@[i],
        )
}

/// How a report software record relates to a native one: the install date
/// widened to an instant at midnight.
pub open spec fn software_dto_from(dto: SoftwareDto, sw: Software) -> bool {
    &&& dto.name@ == sw.name@
    &&& opt_view(dto.version) == opt_view(sw.version)
    &&& opt_view(dto.vendor) == opt_view(sw.publisher)
    &&& dto.install_date == (match sw.install_date {
        Some(d) => Some(Timestamp { date: d, hour: 0, minute: 0, second: 0 }),
        None => None::<Timestamp>,
    })
}

/// How a report industrial record relates to a native one: the vendor
/// rendered to its display text.
pub open spec fn industrial_dto_from(dto: IndustrialSoftwareDto, sw: IndustrialSoftware) -> bool {
    &&& dto.vendor@ == sw.vendor.display_name_spec()
    &&& dto.product@ == sw.product@
    &&& opt_view(dto.version) == opt_view(sw.version)
    &&& opt_view(dto.install_path) == opt_view(sw.install_path)
}

impl LocalScanner {
    /// One local collection pass over the three sub-collectors' outcomes:
    /// when all three succeeded, a fully formed report; when any failed,
    /// that failure flattened to a `Local` error and no partial report.
    /// The first failing sub-collector, in the order system inventory,
    /// software inventory, industrial classification, decides the error.
    pub fn scan(
        &self,
        system: Result<SystemInfo, Error>,
        software: Result<Vec<Software>, Error>,
        industrial: Result<Vec<IndustrialSoftware>, Error>,
    ) -> (r: Result<SysauditReport, ScanError>)
        ensures
            match system {
                Err(e) => r matches Err(ScanError::Local(m)) && m@ == e.message_spec(),
                Ok(si) => match software {
                    Err(e) => r matches Err(ScanError::Local(m)) && m@ == e.message_spec(),
                    Ok(sws) => match industrial {
                        Err(e) => r matches Err(ScanError::Local(m)) && m@ == e.message_spec(),
                        Ok(inds) => r matches Ok(rep) && {
                            &&& system_dto_from(rep.system, si)
                            &&& rep.software@.len() == sws@.len()
                            &&& forall|i: int|
                                0 <= i < sws@.len() ==> software_dto_from(
                                    #[trigger] rep.software@[i],
                                    sws@[i],
                                )
                            &&& rep.industrial@.len() == inds@.len()
                            &&& forall|i: int|
                                0 <= i < inds@.len() ==> industrial_dto_from(
                                    #[trigger] rep.industrial@[i],
                                    inds@[i],
                                )
                            &&& rep.timestamp.wf()
                        },
                    },
                },
            },
    {
        let si = match system {
            Ok(si) => si,
            Err(e) => {
                return Err(ScanError::from(e));
            },
        };
        let sws = match software {
            Ok(s) => s,
            Err(e) => {
                return Err(ScanError::from(e));
            },
        };
        let inds = match industrial {
            Ok(s) => s,
            Err(e) => {
                return Err(ScanError::from(e));
            },
        };
        let system_dto = map_system(si);
        let software_dto = map_software(sws);
        let industrial_dto = map_industrial(inds);
        Ok(
            SysauditReport {
                system: system_dto,
                software: software_dto,
                industrial: industrial_dto,
                timestamp: now_utc(),
            },
        )
    }
}

/// Translates the native system inventory into the report's system section.
fn map_system(si: SystemInfo) -> (r: SystemInfoDto)
    ensures
        system_dto_from(r, si),
{
    let SystemInfo {
        os_name,
        os_version,
        build_number: _,
        computer_name,
        domain: _,
        cpu_info,
        network_interfaces,
        manufacturer,
        model,
        cpu_cores_physical,
        cpu_cores_logical: _,
        cpu_frequency_mhz: _,
        memory_total,
        memory_used,
        memory_free: _,
    } = si;
    let cpu_physical_cores = match cpu_cores_physical {
        Some(c) => Some(#[verifier::truncate] (c as u32)),
        None => None,
    };
    let ghost nics0 = network_interfaces@;
    let mut rest = network_interfaces;
    let mut mapped: Vec<NetworkInterfaceDto> = Vec::new();
    let ghost mut done: int = 0;
    proof {
        assert(rest@ =~= nics0.subrange(0, nics0.len() as int));
    }
    while rest.len() > 0
        invariant
            0 <= done <= nics0.len(),
            rest@ == nics0.subrange(done, nics0.len() as int),
            mapped@.len() == done,
            forall|i: int| 0 <= i < done ==> iface_dto_from(#[trigger] mapped@[i], nics0[i]),
        decreases rest@.len(),
    {
        let nic = rest.remove(0);
        assert(nic == nics0[done]);
        proof {
            assert(rest@ =~= nics0.subrange(done + 1, nics0.len() as int));
        }
        let ip_version = if contains_sub(nic.ip_address.as_str(), ":") {
            IpVersion::IPv6
        } else {
            IpVersion::IPv4
        };
        mapped.push(
            NetworkInterfaceDto {
                name: nic.name,
                ip_address: nic.ip_address,
                ip_version,
                mac_address: nic.mac_address,
            },
        );
        proof {
            done = done + 1;
        }
    }
    SystemInfoDto {
        os_name,
        os_version,
        host_name: computer_name,
        cpu_info,
        cpu_physical_cores,
        memory_total_bytes: memory_total,
        memory_used_bytes: memory_used,
        manufacturer,
        model,
        network_interfaces: mapped,
    }
}

/// Translates the native software records into the report's software list.
fn map_software(sws: Vec<Software>) -> (r: Vec<SoftwareDto>)
    ensures
        r@.len() == sws@.len(),
        forall|i: int| 0 <= i < sws@.len() ==> software_dto_from(#[trigger] r@[i], sws@[i]),
{
    let ghost sws0 = sws@;
    let mut rest = sws;
    let mut out: Vec<SoftwareDto> = Vec::new();
    let ghost mut done: int = 0;
    proof {
        assert(rest@ =~= sws0.subrange(0, sws0.len() as int));
    }
    while rest.len() > 0
        invariant
            0 <= done <= sws0.len(),
            rest@ == sws0.subrange(done, sws0.len() as int),
            out@.len() == done,
            forall|i: int| 0 <= i < done ==> software_dto_from(#[trigger] out@[i], sws0[i]),
        decreases rest@.len(),
    {
        let sw = rest.remove(0);
        assert(sw == sws0[done]);
        proof {
            assert(rest@ =~= sws0.subrange(done + 1, sws0.len() as int));
        }
        let install_date = match sw.install_date {
            Some(d) => Some(Timestamp::at_midnight(d)),
            None => None,
        };
        out.push(
            SoftwareDto { name: sw.name, version: sw.version, vendor: sw.publisher, install_date },
        );
        proof {
            done = done + 1;
        }
    }
    out
}

/// Translates the native industrial records into the report's industrial
/// list, rendering each vendor to its display text.
fn map_industrial(inds: Vec<IndustrialSoftware>) -> (r: Vec<IndustrialSoftwareDto>)
    ensures
        r@.len() == inds@.len(),
        forall|i: int| 0 <= i < inds@.len() ==> industrial_dto_from(#[trigger] r@[i], inds@[i]),
{
    let ghost inds0 = inds@;
    let mut rest = inds;
    let mut out: Vec<IndustrialSoftwareDto> = Vec::new();
    let ghost mut done: int = 0;
    proof {
        assert(rest@ =~= inds0.subrange(0, inds0.len() as int));
    }
    while rest.len() > 0
        invariant
            0 <= done <= inds0.len(),
            rest@ == inds0.subrange(done, inds0.len() as int),
            out@.len() == done,
            forall|i: int| 0 <= i < done ==> industrial_dto_from(#[trigger] out@[i], inds0[i]),
        decreases rest@.len(),
    {
        let sw = rest.remove(0);
        assert(sw == inds0[done]);
        proof {
            assert(rest@ =~= inds0.subrange(done + 1, inds0.len() as int));
        }
        let vendor = sw.vendor.display_name();
        out.push(
            IndustrialSoftwareDto {
                vendor,
                product: sw.product,
                version: sw.version,
                install_path: sw.install_path,
            },
        );
        proof {
            done = done + 1;
        }
    }
    out
}

} // verus!
