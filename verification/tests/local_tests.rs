use sysaudit::date::Date;
use sysaudit::error::Error;
use sysaudit::local::LocalScanner;
use sysaudit::report::IpVersion;
use sysaudit::software::{RegistrySource, Software};
use sysaudit::system::{BuildValues, InterfaceReading, SystemInfo, SystemReadings};
use sysaudit::scanner::ScanError;
use sysaudit::updates::{parse_wmi_date, WindowsUpdate};

fn sample_readings() -> SystemReadings {
    SystemReadings {
        os_name: Some("Windows 11 Pro".to_string()),
        os_version: Some("23H2".to_string()),
        host_name: Some("TEST-PC".to_string()),
        build: Ok(BuildValues { current_build: "22631".to_string(), ubr: 3007 }),
        domain: Some("contoso.local".to_string()),
        cpu_brand: Some("Intel i7-9700".to_string()),
        cpu_cores_physical: Some(8),
        cpu_cores_logical: 8,
        cpu_frequency_mhz: 3000,
        memory_total: 17179869184,
        memory_used: 8589934592,
        memory_free: 8589934592,
        manufacturer: Some("Dell Inc.".to_string()),
        model: Some("OptiPlex 7090".to_string()),
        interfaces: vec![InterfaceReading {
            name: "Ethernet".to_string(),
            ip_address: "192.168.1.10".to_string(),
            prefix: 24,
            mac: [0xAC, 0xB4, 0x80, 0xD6, 0x59, 0x1D],
        }],
    }
}

#[test]
fn test_collect_system_info() {
    let info = SystemInfo::collect(sample_readings()).expect("Should collect system info");
    assert_eq!(info.computer_name, "TEST-PC");
    assert_eq!(info.build_number, "22631.3007");
    assert_eq!(info.domain.as_deref(), Some("contoso.local"));
    assert_eq!(info.network_interfaces[0].mac_address.as_deref(), Some("AC:B4:80:D6:59:1D"));
    assert_eq!(info.network_interfaces[0].subnet_mask.as_deref(), Some("/24"));
}

#[test]
fn test_collect_without_ubr_or_names() {
    let mut readings = sample_readings();
    readings.build = Ok(BuildValues { current_build: "22631".to_string(), ubr: 0 });
    readings.os_name = None;
    readings.domain = Some("".to_string());
    let info = SystemInfo::collect(readings).unwrap();
    assert_eq!(info.build_number, "22631");
    assert_eq!(info.os_name, "Unknown");
    assert_eq!(info.domain, None);
}

#[test]
fn test_collect_fails_without_build_key() {
    let mut readings = sample_readings();
    readings.build = Err("access denied".to_string());
    match SystemInfo::collect(readings) {
        Err(Error::Registry(m)) => assert_eq!(m, "access denied"),
        _ => panic!("Expected a registry error"),
    }
}

#[test]
fn test_local_scanner_produces_report() {
    let scanner = LocalScanner;
    let system = SystemInfo::collect(sample_readings());
    let report = scanner.scan(system, Ok(sample_software()), Ok(vec![]));
    assert!(report.is_ok(), "LocalScanner should succeed when all three sources do");
    let report = report.unwrap();
    assert!(!report.system.host_name.is_empty(), "host_name should not be empty");
    assert!(!report.system.os_name.is_empty(), "os_name should not be empty");
    assert_eq!(report.system.cpu_physical_cores, Some(8));
    assert_eq!(report.system.network_interfaces[0].ip_version, IpVersion::IPv4);
    assert_eq!(report.software[0].name, "Test App");
    assert_eq!(
        report.software[0].install_date.map(|t| (t.date, t.hour)),
        Some((Date::from_ymd_opt(2024, 1, 15).unwrap(), 0))
    );
    assert!(report.timestamp.date.year >= 2024);
}

fn sample_software() -> Vec<Software> {
    vec![Software {
        name: "Test App".to_string(),
        version: Some("2.0".to_string()),
        publisher: Some("Acme".to_string()),
        install_date: Date::from_ymd_opt(2024, 1, 15),
        install_location: None,
        source: RegistrySource::LocalMachine64,
    }]
}

#[test]
fn test_local_scanner_fails_whole_on_any_failure() {
    let scanner = LocalScanner;
    let report = scanner.scan(
        SystemInfo::collect(sample_readings()),
        Err(Error::Registry("hive unreadable".to_string())),
        Ok(vec![]),
    );
    match report {
        Err(ScanError::Local(m)) => assert_eq!(m, "Registry error: hive unreadable"),
        _ => panic!("Expected the scan to fail as a whole"),
    }

    let report = scanner.scan(
        SystemInfo::collect(sample_readings()),
        Ok(vec![]),
        Err(Error::Wmi("query failed".to_string())),
    );
    match report {
        Err(ScanError::Local(m)) => assert_eq!(m, "WMI error: query failed"),
        _ => panic!("Expected the scan to fail as a whole"),
    }
}

#[test]
fn test_ipv6_family_derived() {
    let scanner = LocalScanner;
    let mut readings = sample_readings();
    readings.interfaces[0].ip_address = "fe80::1".to_string();
    let report = scanner.scan(SystemInfo::collect(readings), Ok(vec![]), Ok(vec![])).unwrap();
    assert_eq!(report.system.network_interfaces[0].ip_version, IpVersion::IPv6);
}

#[test]
fn test_parse_wmi_date_slash() {
    assert_eq!(parse_wmi_date("01/15/2024"), Date::from_ymd_opt(2024, 1, 15));
}

#[test]
fn test_parse_wmi_date_iso() {
    assert_eq!(parse_wmi_date("2024-01-15"), Date::from_ymd_opt(2024, 1, 15));
}

#[test]
fn test_update_row_filtering() {
    let u = WindowsUpdate::from_query_row(
        Some("KB5034441".to_string()),
        Some("".to_string()),
        Some("01/15/2024".to_string()),
        Some("NT AUTHORITY".to_string()),
    )
    .unwrap();
    assert_eq!(u.hotfix_id, "KB5034441");
    assert_eq!(u.description, None);
    assert_eq!(u.installed_on, Date::from_ymd_opt(2024, 1, 15));
    assert_eq!(u.installed_by.as_deref(), Some("NT AUTHORITY"));
    assert!(WindowsUpdate::from_query_row(Some("  ".to_string()), None, None, None).is_none());
    assert!(WindowsUpdate::from_query_row(None, None, None, None).is_none());
}

#[test]
fn test_scan_error_messages() {
    assert_eq!(
        ScanError::Timeout(30).message(),
        "operation timed out after 30s"
    );
    assert_eq!(
        ScanError::RemoteAuth { host: "h".to_string(), user: "u".to_string() }.message(),
        "authentication failed for u@h"
    );
}
