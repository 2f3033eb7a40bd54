//! System inventory: the native model assembled from raw machine readings.

use crate::error::Error;
use crate::numtext::{dec_str, hex_byte, push_dec_u64, push_hex_byte};
use crate::text::{chars_to_string, opt_view};
use vstd::prelude::*;
use vstd::string::StringExecFns;

verus! {

/// Network interface information.
#[derive(Debug, Clone, PartialEq)]
pub struct NetworkInterface {
    /// Interface name
    pub name: String,
    /// Address text
    pub ip_address: String,
    /// Subnet mask text, when known
    pub subnet_mask: Option<String>,
    /// Default gateway text, when known
    pub gateway: Option<String>,
    /// MAC address text, when known
    pub mac_address: Option<String>,
}

/// System information collected from the local machine.
#[derive(Debug, Clone, PartialEq)]
pub struct SystemInfo {
    /// OS name
    pub os_name: String,
    /// OS version
    pub os_version: String,
    /// Build number, with the update revision when available
    pub build_number: String,
    /// Computer name
    pub computer_name: String,
    /// Domain name, when joined
    pub domain: Option<String>,
    /// CPU brand text
    pub cpu_info: String,
    /// Network interfaces
    pub network_interfaces: Vec<NetworkInterface>,
    /// Machine manufacturer, when known
    pub manufacturer: Option<String>,
    /// Machine model, when known
    pub model: Option<String>,
    /// Physical core count, when known
    pub cpu_cores_physical: Option<usize>,
    /// Logical core count, when known
    pub cpu_cores_logical: Option<usize>,
    /// CPU frequency in MHz
    pub cpu_frequency_mhz: u64,
    /// Total memory in bytes
    pub memory_total: u64,
    /// Used memory in bytes
    pub memory_used: u64,
    /// Free memory in bytes
    pub memory_free: u64,
}

/// The build-number values read from the OS version registry key.
#[derive(Debug, Clone)]
pub struct BuildValues {
    /// The current build text
    pub current_build: String,
    /// The update build revision, zero when absent
    pub ubr: u32,
}

/// One interface address as the native layer reads it.
#[derive(Debug, Clone)]
pub struct InterfaceReading {
    /// Interface name
    pub name: String,
    /// Address text
    pub ip_address: String,
    /// Network prefix length
    pub prefix: u8,
    /// Hardware address bytes
    pub mac: [u8; 6],
}

/// What one pass of the native system queries read from the machine.
#[derive(Debug)]
pub struct SystemReadings {
    /// OS name, when the query knew it
    pub os_name: Option<String>,
    /// OS version, when the query knew it
    pub os_version: Option<String>,
    /// Host name, when the query knew it
    pub host_name: Option<String>,
    /// The version registry key's values, or the failure's message
    pub build: Result<BuildValues, String>,
    /// Domain text from the registry, when present
    pub domain: Option<String>,
    /// First CPU's brand text, when present
    pub cpu_brand: Option<String>,
    /// Physical core count, when known
    pub cpu_cores_physical: Option<usize>,
    /// Logical core count
    pub cpu_cores_logical: usize,
    /// First CPU's frequency in MHz, zero when unknown
    pub cpu_frequency_mhz: u64,
    /// Total memory in bytes
    pub memory_total: u64,
    /// Used memory in bytes
    pub memory_used: u64,
    /// Free memory in bytes
    pub memory_free: u64,
    /// Machine manufacturer, when known
    pub manufacturer: Option<String>,
    /// Machine model, when known
    pub model: Option<String>,
    /// Interface addresses
    pub interfaces: Vec<InterfaceReading>,
}

/// The fallback text for a value the native query did not know.
pub open spec fn or_unknown(o: Option<String>) -> Seq<char> {
    match o {
        Some(s) => s@,
        None => "Unknown"@,
    }
}

/// The build-number text: the current build, extended with the update
/// revision when one is present.
pub open spec fn build_text(b: BuildValues) -> Seq<char> {
    if b.ubr > 0 {
        b.current_build@ + "."@ + dec_str(b.ubr as nat)
    } else {
        b.current_build@
    }
}

/// The colon-separated upper-case hexadecimal text of a MAC address.
pub open spec fn mac_text(m: Seq<u8>) -> Seq<char> {
    hex_byte(m[0]) + ":"@ + hex_byte(m[1]) + ":"@ + hex_byte(m[2]) + ":"@ + hex_byte(m[3]) + ":"@
        + hex_byte(m[4]) + ":"@ + hex_byte(m[5])
}

/// A domain value filtered of empty text.
pub open spec fn domain_view(o: Option<String>) -> Option<Seq<char>> {
    match o {
        Some(d) => if d@.len() == 0 {
            None
        } else {
            Some(d@)
        },
        None => None,
    }
}

/// How an assembled interface relates to its reading: the address passed
/// through, the prefix rendered as mask text, no gateway, and the hardware
/// address rendered in hexadecimal.
pub open spec fn iface_from(nic: NetworkInterface, rd: InterfaceReading) -> bool {
    &&& nic.name@ == rd.name@
    &&& nic.ip_address@ == rd.ip_address@
    &&& opt_view(nic.subnet_mask) == Some("/"@ + dec_str(rd.prefix as nat))
    &&& nic.gateway is None
    &&& opt_view(nic.mac_address) == Some(mac_text(rd.mac@))
}

/// How an assembled inventory relates to its readings.
pub open spec fn system_from(si: SystemInfo, rd: SystemReadings) -> bool {
    &&& rd.build matches Ok(b) && si.build_number@ == build_text(b)
    &&& si.os_name@ == or_unknown(rd.os_name)
    &&& si.os_version@ == or_unknown(rd.os_version)
    &&& si.computer_name@ == or_unknown(rd.host_name)
    &&& opt_view(si.domain) == domain_view(rd.domain)
    &&& si.cpu_info@ == (match rd.cpu_brand {
        Some(b) => b@,
        None => Seq::<char>::empty(),
    })
    &&& si.cpu_cores_physical == rd.cpu_cores_physical
    &&& si.cpu_cores_logical == Some(rd.cpu_cores_logical)
    &&& si.cpu_frequency_mhz == rd.cpu_frequency_mhz
    &&& si.memory_total == rd.memory_total
    &&& si.memory_used == rd.memory_used
    &&& si.memory_free == rd.memory_free
    &&& opt_view(si.manufacturer) == opt_view(rd.manufacturer)
    &&& opt_view(si.model) == opt_view(rd.model)
    &&& si.network_interfaces@.len() == rd.interfaces@.len()
    &&& forall|i: int|
        0 <= i < rd.interfaces@.len() ==> iface_from(
            #[trigger] si.network_interfaces@[i],
            rd.interfaces@[i],
        )
}

impl SystemInfo {
    /// Assembles the system inventory from one pass of raw readings. The
    /// pass fails only when the version registry key could not be read.
    pub fn collect(readings: SystemReadings) -> (r: Result<SystemInfo, Error>)
        ensures
            match readings.build {
                Ok(_) => r matches Ok(si) && system_from(si, readings),
                Err(m) => r matches Err(e) && e matches Error::Registry(t) && t@ == m@,
            },
    {
        let SystemReadings {
            os_name,
            os_version,
            host_name,
            build,
            domain,
            cpu_brand,
            cpu_cores_physical,
            cpu_cores_logical,
            cpu_frequency_mhz,
            memory_total,
            memory_used,
            memory_free,
            manufacturer,
            model,
            interfaces,
        } = readings;
        let b = match build {
            Ok(b) => b,
            Err(m) => {
                return Err(Error::Registry(m));
            },
        };
        let build_number = render_build(b);
        let domain = match domain {
            Some(d) => {
                if d.as_str().unicode_len() == 0 {
                    None
                } else {
                    Some(d)
                }
            },
            None => None,
        };
        let cpu_info = match cpu_brand {
            Some(brand) => brand,
            None => String::new(),
        };
        let network_interfaces = assemble_interfaces(interfaces);
        Ok(
            SystemInfo {
                os_name: unwrap_or_unknown(os_name),
                os_version: unwrap_or_unknown(os_version),
                build_number,
                computer_name: unwrap_or_unknown(host_name),
                domain,
                cpu_info,
                network_interfaces,
                manufacturer,
                model,
                cpu_cores_physical,
                cpu_cores_logical: Some(cpu_cores_logical),
                cpu_frequency_mhz,
                memory_total,
                memory_used,
                memory_free,
            },
        )
    }
}

/// The value, or the fallback text for an unknown one.
fn unwrap_or_unknown(o: Option<String>) -> (r: String)
    ensures
        r@ == or_unknown(o),
{
    match o {
        Some(s) => s,
        None => String::from_str("Unknown"),
    }
}

/// Renders the build-number text.
fn render_build(b: BuildValues) -> (r: String)
    ensures
        r@ == build_text(b),
{
    if b.ubr > 0 {
        let mut v: Vec<char> = crate::text::str_to_chars(b.current_build.as_str());
        v.push('.');
        push_dec_u64(&mut v, b.ubr as u64);
        let r = chars_to_string(&v);
        proof {
            reveal_strlit(".");
            assert(r@ =~= build_text(b));
        }
        r
    } else {
        b.current_build
    }
}

/// Renders a MAC address as colon-separated upper-case hexadecimal.
fn render_mac(m: &[u8; 6]) -> (r: String)
    ensures
        r@ == mac_text(m@),
{
    let mut v: Vec<char> = Vec::new();
    push_hex_byte(&mut v, m[0]);
    v.push(':');
    push_hex_byte(&mut v, m[1]);
    v.push(':');
    push_hex_byte(&mut v, m[2]);
    v.push(':');
    push_hex_byte(&mut v, m[3]);
    v.push(':');
    push_hex_byte(&mut v, m[4]);
    v.push(':');
    push_hex_byte(&mut v, m[5]);
    let r = chars_to_string(&v);
    proof {
        reveal_strlit(":");
        assert(r@ =~= mac_text(m@));
    }
    r
}

/// Builds the interface records from the raw readings, in order.
fn assemble_interfaces(readings: Vec<InterfaceReading>) -> (r: Vec<NetworkInterface>)
    ensures
        r@.len() == readings@.len(),
        forall|i: int|
            0 <= i < readings@.len() ==> iface_from(#[trigger] r@[i], readings@[i]),
{
    let ghost rd0 = readings@;
    let mut rest = readings;
    let mut out: Vec<NetworkInterface> = Vec::new();
    let ghost mut done: int = 0;
    proof {
        assert(rest@ =~= rd0.subrange(0, rd0.len() as int));
    }
    while rest.len() > 0
        invariant
            0 <= done <= rd0.len(),
            rest@ == rd0.subrange(done, rd0.len() as int),
            out@.len() == done,
            forall|i: int| 0 <= i < done ==> iface_from(#[trigger] out@[i], rd0[i]),
        decreases rest@.len(),
    {
        let nic = rest.remove(0);
        assert(nic == rd0[done]);
        proof {
            assert(rest@ =~= rd0.subrange(done + 1, rd0.len() as int));
        }
        let mut mask: Vec<char> = Vec::new();
        mask.push('/');
        push_dec_u64(&mut mask, nic.prefix as u64);
        let subnet_mask = chars_to_string(&mask);
        proof {
            reveal_strlit("/");
            assert(subnet_mask@ =~= "/"@ + dec_str(nic.prefix as nat));
        }
        let mac_address = render_mac(&nic.mac);
        out.push(
            NetworkInterface {
                name: nic.name,
                ip_address: nic.ip_address,
                subnet_mask: Some(subnet_mask),
                gateway: None,
                mac_address: Some(mac_address),
            },
        );
        proof {
            done = done + 1;
        }
    }
    out
}

} // verus!
