use sysaudit::date::{Date, Timestamp};
use sysaudit::remote::{handle_transport_outcome, RemoteScanner, SecretText};
use sysaudit::report::{
    IndustrialSoftwareDto, IpVersion, NetworkInterfaceDto, SoftwareDto, SysauditReport,
    SystemInfoDto,
};
use sysaudit::scanner::ScanError;
use sysaudit::transport::{ScriptedTransport, WinrmTransport};
use sysaudit::wire::{decode_report, encode_report};

fn ts(y: u32, mo: u32, d: u32, h: u32, mi: u32, s: u32) -> Timestamp {
    Timestamp::from_parts(y, mo, d, h, mi, s).unwrap()
}

fn mock_report() -> SysauditReport {
    SysauditReport {
        system: SystemInfoDto {
            os_name: "Mock OS".to_string(),
            os_version: "10.0".to_string(),
            host_name: "MOCK-PC".to_string(),
            cpu_info: "Mock CPU".to_string(),
            cpu_physical_cores: Some(4),
            memory_total_bytes: 8000000,
            memory_used_bytes: 4000000,
            manufacturer: None,
            model: None,
            network_interfaces: vec![],
        },
        software: vec![],
        industrial: vec![],
        timestamp: ts(2024, 1, 15, 12, 0, 0),
    }
}

fn full_report() -> SysauditReport {
    SysauditReport {
        system: SystemInfoDto {
            os_name: "Windows 11 Pro".to_string(),
            os_version: "23H2".to_string(),
            host_name: "TEST-PC".to_string(),
            cpu_info: "Intel i7-9700".to_string(),
            cpu_physical_cores: None,
            memory_total_bytes: 17179869184,
            memory_used_bytes: 8589934592,
            manufacturer: Some("Dell Inc.".to_string()),
            model: Some(r#"OptiPlex "7090""#.to_string()),
            network_interfaces: vec![NetworkInterfaceDto {
                name: "Ethernet".to_string(),
                ip_address: "192.168.1.10".to_string(),
                ip_version: IpVersion::IPv4,
                mac_address: Some("AC:B4:80:D6:59:1D".to_string()),
            }],
        },
        software: vec![SoftwareDto {
            name: "Test App".to_string(),
            version: Some("1.0.0".to_string()),
            vendor: Some("Test\\Corp".to_string()),
            install_date: Some(Timestamp::at_midnight(
                Date::from_ymd_opt(2024, 1, 1).unwrap(),
            )),
        }],
        industrial: vec![IndustrialSoftwareDto {
            vendor: "Citect".to_string(),
            product: "AVEVA Plant SCADA 2023".to_string(),
            version: Some("8.0".to_string()),
            install_path: Some(r"C:\Citect".to_string()),
        }],
        timestamp: ts(2026, 10, 11, 23, 59, 58),
    }
}

struct FailingTransport;

impl WinrmTransport for FailingTransport {
    fn execute(&self, _command: &str) -> Result<String, ScanError> {
        Err(ScanError::RemoteExecution {
            host: "test".to_string(),
            message: "execution failed".to_string(),
        })
    }
}

#[test]
fn test_remote_scanner_success() {
    let response_json = encode_report(&mock_report());
    let transport = ScriptedTransport { output: Some(response_json) };

    let result = RemoteScanner::scan_with_transport(&transport, "powershell mock");

    assert!(result.is_ok());
    let report = result.unwrap();
    assert_eq!(report.system.host_name, "MOCK-PC");
}

#[test]
fn test_remote_scanner_execution_error() {
    let result = RemoteScanner::scan_with_transport(&FailingTransport, "powershell mock");

    assert!(result.is_err());
    match result.unwrap_err() {
        ScanError::RemoteExecution { message, .. } => assert_eq!(message, "execution failed"),
        _ => panic!("Expected RemoteExecution error"),
    }
}

#[test]
fn test_remote_scanner_deserialization_error() {
    let transport = ScriptedTransport { output: Some("{ invalid_json ]".to_string()) };

    let result = RemoteScanner::scan_with_transport(&transport, "powershell mock");

    assert!(result.is_err());
    match result.unwrap_err() {
        ScanError::Deserialization(_) => {} // Expected
        _ => panic!("Expected Deserialization error"),
    }
}

#[test]
fn test_transport_error_never_becomes_deserialization() {
    let outcome: Result<String, ScanError> = Err(ScanError::RemoteConnection {
        host: "h1".to_string(),
        message: "refused".to_string(),
    });
    match handle_transport_outcome(outcome) {
        Err(ScanError::RemoteConnection { host, message }) => {
            assert_eq!(host, "h1");
            assert_eq!(message, "refused");
        }
        _ => panic!("Expected the transport error unchanged"),
    }
}

#[test]
fn test_wire_round_trip_full() {
    let original = full_report();
    let text = encode_report(&original);
    let decoded = decode_report(&text).expect("canonical text should decode");
    assert_eq!(decoded, original);
}

#[test]
fn test_wire_round_trip_minimal() {
    let original = mock_report();
    let text = encode_report(&original);
    assert_eq!(decode_report(&text), Some(original));
}

#[test]
fn test_decode_rejects_trailing_text() {
    let mut text = encode_report(&mock_report());
    text.push(' ');
    assert_eq!(decode_report(&text), None);
}

#[test]
fn test_decode_accepts_only_canonical_escapes() {
    // A decoded report must re-encode to the given text, so an equivalent
    // document written with a different escape spelling is rejected.
    let mut original = mock_report();
    original.system.os_name = "A<B".to_string();
    let text = encode_report(&original).replace("A<B", r"A\u003cB");
    assert_eq!(decode_report(&text), None);
    // Control characters round-trip through their canonical escapes.
    original.system.os_name = "A\nB".to_string();
    let text = encode_report(&original);
    assert!(text.contains(r"\u000A"));
    assert_eq!(decode_report(&text), Some(original));
}

#[test]
fn test_command_encoding_reproducible() {
    let a = RemoteScanner::new(
        "192.168.1.100".to_string(),
        "admin".to_string(),
        SecretText::new(SECRET_ONE.to_string()),
    );
    let b = RemoteScanner::new(
        "10.0.0.7".to_string(),
        "operator".to_string(),
        SecretText::new(SECRET_TWO.to_string()),
    )
    .with_https()
    .with_timeout_secs(5);
    let ca = a.build_command();
    assert_eq!(ca, a.build_command());
    assert_eq!(ca, b.build_command());
    assert!(ca.starts_with("powershell -NonInteractive -NoProfile -EncodedCommand "));
}

#[test]
fn test_encode_command_exact() {
    // "ab" in UTF-16LE is the bytes 61 00 62 00, whose base64 text is fixed.
    let command = sysaudit::encoding::encode_command("ab");
    assert_eq!(command, "powershell -NonInteractive -NoProfile -EncodedCommand YQBiAA==");
}

#[test]
fn test_remote_defaults() {
    let a = RemoteScanner::new(
        "host".to_string(),
        "user".to_string(),
        SecretText::new(SECRET_ONE.to_string()),
    );
    assert_eq!(a.port(), 5985);
    let b = RemoteScanner::new(
        "host".to_string(),
        "user".to_string(),
        SecretText::new(SECRET_ONE.to_string()),
    )
    .with_https();
    assert_eq!(b.port(), 5986);
}

const SECRET_ONE: &str = "first placeholder credential";
const SECRET_TWO: &str = "second placeholder credential";

#[test]
fn test_wire_round_trip_extremes() {
    let mut original = mock_report();
    original.system.memory_total_bytes = u64::MAX;
    original.system.memory_used_bytes = 0;
    original.system.cpu_physical_cores = Some(u32::MAX);
    original.system.os_name = String::new();
    original.system.model = Some("\\\"\n\t".to_string());
    let text = encode_report(&original);
    assert_eq!(decode_report(&text), Some(original));
}
