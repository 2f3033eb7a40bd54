use sysaudit::industrial::{
    classify_industrial, CitectInstall, IndustrialReadings, IndustrialScanner, UninstallEntry,
    Vendor,
};

fn all_vendors() -> Vec<Vendor> {
    vec![
        Vendor::Citect,
        Vendor::Digifort,
        Vendor::ABB,
        Vendor::Rockwell,
        Vendor::Siemens,
        Vendor::SchneiderElectric,
    ]
}

fn empty_readings() -> IndustrialReadings {
    IndustrialReadings {
        citect_installs: vec![],
        digifort_present: false,
        rockwell_products: vec![],
        schneider_products: vec![],
        uninstall_entries: vec![],
    }
}

fn entry(name: &str) -> UninstallEntry {
    UninstallEntry {
        display_name: name.to_string(),
        display_version: None,
        install_location: None,
    }
}

#[test]
fn test_vendor_display() {
    assert_eq!(Vendor::Citect.display_name(), "Citect");
    assert_eq!(Vendor::ABB.display_name(), "ABB");
    assert_eq!(Vendor::SchneiderElectric.display_name(), "Schneider Electric");
    assert_eq!(Vendor::Other("Custom".into()).display_name(), "Custom");
}

#[test]
fn test_all_vendors_constructor() {
    let scanner = IndustrialScanner::all_vendors();
    assert_eq!(scanner.vendors().len(), 6);
}

#[test]
fn test_classify_citect() {
    let v = all_vendors();
    let result = classify_industrial("Citect SCADA 2023", Some("8.0".into()), None, &v);
    assert!(result.is_some());
    assert_eq!(result.unwrap().vendor, Vendor::Citect);
}

#[test]
fn test_classify_aveva_scada() {
    let v = all_vendors();
    let result = classify_industrial("AVEVA Plant SCADA 2023", None, None, &v);
    assert!(result.is_some());
    assert_eq!(result.unwrap().vendor, Vendor::Citect);
}

#[test]
fn test_classify_aveva_without_scada_no_match() {
    let v = all_vendors();
    // "aveva" alone without "scada" should NOT match
    let result = classify_industrial("AVEVA Edge 2024", None, None, &v);
    assert!(result.is_none());
}

#[test]
fn test_classify_rockwell() {
    let v = all_vendors();
    for name in ["Rockwell Automation", "Allen-Bradley Tools", "Studio 5000 Logix"] {
        let result = classify_industrial(name, None, None, &v);
        assert!(result.is_some(), "should match: {}", name);
        assert_eq!(result.unwrap().vendor, Vendor::Rockwell);
    }
}

#[test]
fn test_classify_siemens() {
    let v = all_vendors();
    for name in ["SIMATIC WinCC", "TIA Portal V18", "WinCC Unified"] {
        let result = classify_industrial(name, None, None, &v);
        assert!(result.is_some(), "should match: {}", name);
        assert_eq!(result.unwrap().vendor, Vendor::Siemens);
    }
}

#[test]
fn test_classify_abb() {
    let v = all_vendors();
    let result = classify_industrial("ABB Automation Builder 2.x", None, None, &v);
    assert!(result.is_some());
    assert_eq!(result.unwrap().vendor, Vendor::ABB);
}

#[test]
fn test_classify_abb_no_keyword_no_match() {
    let v = all_vendors();
    // "abb" alone without "automation" or "builder" should NOT match
    let result = classify_industrial("ABB Robot Studio", None, None, &v);
    assert!(result.is_none());
}

#[test]
fn test_classify_schneider() {
    let v = all_vendors();
    let result = classify_industrial("Schneider Electric EcoStruxure", None, None, &v);
    assert!(result.is_some());
    assert_eq!(result.unwrap().vendor, Vendor::SchneiderElectric);
}

#[test]
fn test_classify_unrecognized_no_match() {
    let v = all_vendors();
    let result = classify_industrial("Microsoft Visual Studio", None, None, &v);
    assert!(result.is_none());
}

#[test]
fn test_classify_vendor_not_in_filter() {
    // Only scanning for Citect - Rockwell should not match
    let v = vec![Vendor::Citect];
    let result = classify_industrial("Rockwell Automation", None, None, &v);
    assert!(result.is_none());
}

#[test]
fn test_classify_preserves_metadata() {
    let v = all_vendors();
    let path = r"C:\Program Files\Citect".to_string();
    let result = classify_industrial(
        "Citect SCADA",
        Some("8.1.0".into()),
        Some(path.clone()),
        &v,
    );
    let sw = result.unwrap();
    assert_eq!(sw.version.as_deref(), Some("8.1.0"));
    assert_eq!(sw.install_path, Some(path));
    assert_eq!(sw.product, "Citect SCADA");
}

#[test]
fn test_classify_deterministic_repeat() {
    let v = all_vendors();
    let a = classify_industrial("SIMATIC WinCC", Some("18".into()), None, &v);
    let b = classify_industrial("SIMATIC WinCC", Some("18".into()), None, &v);
    assert_eq!(a, b);
    let c = classify_industrial("nothing industrial", None, None, &v);
    let d = classify_industrial("nothing industrial", None, None, &v);
    assert_eq!(c, d);
}

#[test]
fn test_scan_sorts_by_product() {
    let scanner = IndustrialScanner::all_vendors();
    let mut readings = empty_readings();
    readings.uninstall_entries = vec![
        entry("Studio 5000 Logix Designer"),
        entry("Citect SCADA 2023"),
        entry("Plain Text Editor"),
        entry("ABB Automation Builder"),
    ];
    let out = scanner.scan(&readings).unwrap();
    let products: Vec<String> = out.iter().map(|s| s.product.clone()).collect();
    assert_eq!(
        products,
        vec![
            "ABB Automation Builder".to_string(),
            "Citect SCADA 2023".to_string(),
            "Studio 5000 Logix Designer".to_string(),
        ]
    );
}

#[test]
fn test_scan_dedup_same_vendor() {
    let scanner = IndustrialScanner::all_vendors();
    let mut readings = empty_readings();
    readings.uninstall_entries = vec![entry("Citect SCADA 2023"), entry("Citect SCADA 2023")];
    let out = scanner.scan(&readings).unwrap();
    assert_eq!(out.len(), 1);
    assert_eq!(out[0].product, "Citect SCADA 2023");
    assert_eq!(out[0].vendor, Vendor::Citect);
}

#[test]
fn test_scan_dedup_differing_vendor() {
    // Two probes can discover the same product text under different
    // vendors; deduplication goes by product text alone and keeps the
    // record that sorts first.
    let scanner = IndustrialScanner::all_vendors();
    let mut readings = empty_readings();
    readings.rockwell_products = vec!["Shared Console".to_string()];
    readings.schneider_products = vec!["Shared Console".to_string()];
    let out = scanner.scan(&readings).unwrap();
    assert_eq!(out.len(), 1);
    assert_eq!(out[0].product, "Shared Console");
    assert_eq!(out[0].vendor, Vendor::Rockwell);
}

#[test]
fn test_scan_probes_and_filter() {
    let scanner = IndustrialScanner::with_vendors(vec![Vendor::Citect]);
    let mut readings = empty_readings();
    readings.citect_installs = vec![CitectInstall {
        version: "2023".to_string(),
        ini_path: Some(r"C:\Citect".to_string()),
    }];
    readings.digifort_present = true;
    readings.uninstall_entries = vec![entry("Rockwell Automation")];
    let out = scanner.scan(&readings).unwrap();
    // Digifort's probe does not run and Rockwell is filtered out.
    assert_eq!(out.len(), 1);
    assert_eq!(out[0].product, "AVEVA Plant SCADA 2023");
    assert_eq!(out[0].vendor, Vendor::Citect);
    assert_eq!(out[0].version.as_deref(), Some("2023"));
    assert_eq!(out[0].install_path.as_deref(), Some(r"C:\Citect"));
}

#[test]
fn test_scan_empty_readings() {
    let scanner = IndustrialScanner::all_vendors();
    let out = scanner.scan(&empty_readings()).unwrap();
    assert!(out.is_empty());
}
