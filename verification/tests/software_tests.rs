use sysaudit::date::Date;
use sysaudit::software::{
    build_software, parse_install_date, RegistrySource, SoftwareKeyValues, SoftwareReadings,
    SoftwareScanner,
};

fn kv(name: &str) -> SoftwareKeyValues {
    SoftwareKeyValues {
        display_name: Some(name.to_string()),
        display_version: None,
        publisher: None,
        install_location: None,
        install_date: None,
    }
}

#[test]
fn test_parse_install_date_valid() {
    assert_eq!(parse_install_date("20240115"), Date::from_ymd_opt(2024, 1, 15));
}

#[test]
fn test_parse_install_date_invalid() {
    assert_eq!(parse_install_date("invalid"), None);
    assert_eq!(parse_install_date("2024"), None);
    assert_eq!(parse_install_date(""), None);
    assert_eq!(parse_install_date("20240230"), None); // Invalid day
    assert_eq!(parse_install_date("20241301"), None); // Invalid month
    assert_eq!(parse_install_date("ABCDEFGH"), None); // Non-numeric
}

#[test]
fn test_parse_install_date_future() {
    // Technically valid format, logic doesn't reject future dates
    assert_eq!(parse_install_date("99991231"), Date::from_ymd_opt(9999, 12, 31));
}

#[test]
fn test_build_software_full() {
    let sw = build_software(
        "Test App".into(),
        Some("2.0".into()),
        Some("Acme".into()),
        Some(r"C:\Acme".into()),
        Some("20240115".into()),
        RegistrySource::LocalMachine64,
    );
    let sw = sw.unwrap();
    assert_eq!(sw.name, "Test App");
    assert_eq!(sw.version.as_deref(), Some("2.0"));
    assert_eq!(sw.publisher.as_deref(), Some("Acme"));
    assert_eq!(sw.install_date, Date::from_ymd_opt(2024, 1, 15));
    assert_eq!(sw.install_location.as_deref(), Some(r"C:\Acme"));
    assert_eq!(sw.source, RegistrySource::LocalMachine64);
}

#[test]
fn test_build_software_empty_name_rejected() {
    let sw = build_software("".into(), None, None, None, None, RegistrySource::CurrentUser);
    assert!(sw.is_none());
}

#[test]
fn test_build_software_whitespace_name_rejected() {
    let sw = build_software("   ".into(), None, None, None, None, RegistrySource::LocalMachine32);
    assert!(sw.is_none());
}

#[test]
fn test_build_software_empty_install_location_filtered() {
    let sw = build_software(
        "App".into(),
        None,
        None,
        Some("".into()), // empty string
        None,
        RegistrySource::LocalMachine64,
    );
    assert!(sw.unwrap().install_location.is_none());
}

#[test]
fn test_build_software_invalid_date_ignored() {
    let sw = build_software(
        "App".into(),
        None,
        None,
        None,
        Some("not-a-date".into()),
        RegistrySource::LocalMachine64,
    );
    assert!(sw.unwrap().install_date.is_none());
}

#[test]
fn test_scan_orders_by_lowercased_name() {
    let readings = SoftwareReadings {
        machine64: vec![kv("zebra Tool"), kv("Alpha Suite")],
        machine32: vec![kv("beta Kit")],
        user: vec![kv("  ")],
    };
    let out = SoftwareScanner::new().scan(readings).unwrap();
    let names: Vec<String> = out.iter().map(|s| s.name.clone()).collect();
    assert_eq!(
        names,
        vec!["Alpha Suite".to_string(), "beta Kit".to_string(), "zebra Tool".to_string()]
    );
}

#[test]
fn test_scan_honours_hive_toggles() {
    let readings = SoftwareReadings {
        machine64: vec![kv("Main App")],
        machine32: vec![kv("Old App")],
        user: vec![kv("User App")],
    };
    let out = SoftwareScanner::new()
        .with_32bit(false)
        .with_user_installs(false)
        .scan(readings)
        .unwrap();
    assert_eq!(out.len(), 1);
    assert_eq!(out[0].name, "Main App");
    assert_eq!(out[0].source, RegistrySource::LocalMachine64);
}

#[test]
fn test_parse_install_date_leap_years() {
    assert_eq!(parse_install_date("20240229"), Date::from_ymd_opt(2024, 2, 29));
    assert_eq!(parse_install_date("20230229"), None);
    assert_eq!(parse_install_date("19000229"), None); // century, not a leap year
    assert_eq!(parse_install_date("20000229"), Date::from_ymd_opt(2000, 2, 29));
}
