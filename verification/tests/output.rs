use chrono::TimeZone;
use fing::addr::{parse_ip, IpAddr};
use fing::model::{Device, Guess, ScanResult, Timestamp};
use fing::output::export::{
    confidence_text, csv_records, instant_text, split_instant, table_rows, to_csv, to_table,
};
use fing::output::privacy::{
    display_identity, display_mac, mask_lower_24_bits, masked_scan_result, MacAddressDisplay,
    OutputOptions,
};
use fing::output::sources::{
    collect_device_sources, compact_source_summary, source_code, source_legend, source_summary,
};

fn ip(text: &str) -> IpAddr {
    parse_ip(&text.chars().collect::<Vec<_>>()).unwrap()
}

fn now() -> Timestamp {
    let time = chrono::Utc.with_ymd_and_hms(2026, 1, 1, 0, 0, 0).unwrap();
    time.timestamp() as Timestamp * 1_000_000_000
}

fn device() -> Device {
    Device::new(ip("192.168.1.10"), now())
}

fn value(guess: &Option<Guess>) -> Option<&str> {
    guess.as_ref().map(|guess| guess.value.as_str())
}

fn masking() -> OutputOptions {
    OutputOptions {
        mac: MacAddressDisplay::MaskLower24,
    }
}

fn result(device: Device) -> ScanResult {
    ScanResult {
        target: "192.168.1.0/24".to_string(),
        interface: "en0".to_string(),
        scanned_at: now(),
        devices: vec![device],
        warnings: Vec::new(),
    }
}

#[test]
fn csv_contains_expected_headers_and_values() {
    let mut device = device();
    device.interface = Some("en0".to_string());
    device.mac = Some("aa:bb:cc:dd:ee:ff".to_string());
    device.vendor = Some("Example Inc".to_string());
    device.add_name("host", "rdns", 60);

    let csv = to_csv(&vec![device], OutputOptions::default()).unwrap();

    assert!(csv.contains("ip,interface,mac,vendor,make,model,hostname,os,device_type,confidence"));
    assert!(csv.contains("192.168.1.10"));
    assert!(csv.contains("en0"));
    assert!(csv.contains("Example Inc"));
    assert!(csv.contains(",0.60,"));
    assert_eq!(
        csv.lines().nth(1),
        Some("192.168.1.10,en0,aa:bb:cc:dd:ee:ff,Example Inc,,,host,,,0.60,\"arp,oui,rdns\",2026-01-01T00:00:00+00:00,2026-01-01T00:00:00+00:00")
    );
}

#[test]
fn human_tables_omit_device_type_column() {
    let mut device = device();
    device.set_device_type_guess("smart-home", "identity_rule", 68);

    let table = to_table(&vec![device], OutputOptions::default());

    assert!(!table.contains("Type"));
    assert!(!table.contains("smart-home"));
    assert!(table.contains("Last Seen"));
    assert!(table.contains("192.168.1.10"));
}

#[test]
fn csv_masks_mac_when_requested() {
    let mut device = device();
    device.mac = Some("aa:bb:cc:dd:ee:ff".to_string());

    let csv = to_csv(&vec![device], masking()).unwrap();

    assert!(csv.contains("aa:bb:cc:**:**:**"));
    assert!(!csv.contains("aa:bb:cc:dd:ee:ff"));
}

#[test]
fn table_masks_mac_when_requested() {
    let mut device = device();
    device.mac = Some("aa:bb:cc:dd:ee:ff".to_string());

    let table = to_table(&vec![device], masking());

    assert!(table.contains("aa:bb:cc:**:**:**"));
    assert!(!table.contains("aa:bb:cc:dd:ee:ff"));
}

#[test]
fn table_and_csv_mask_mac_like_identity_fields_when_requested() {
    let mut device = device();
    device.add_name("AA-BB-CC-DD-EE-FF", "mdns", 90);
    device.set_model_guess("AABBCCDDEEFF", "upnp", 85);

    let table = to_table(&vec![device.clone()], masking());
    let csv = to_csv(&vec![device], masking()).unwrap();

    assert!(table.contains("aa:bb:cc:**:**:**"));
    assert!(csv.contains("aa:bb:cc:**:**:**"));
    assert!(!table.contains("AA-BB-CC-DD-EE-FF"));
    assert!(!csv.contains("AABBCCDDEEFF"));
}

#[test]
fn rows_put_hyphens_and_blanks_for_what_is_missing() {
    let rows = table_rows(&vec![device()], OutputOptions::default());
    assert_eq!(
        rows,
        vec![vec![
            "192.168.1.10",
            "-",
            "-",
            "-",
            "-",
            "-",
            "-",
            "-",
            "0.00",
            "",
            "2026-01-01T00:00:00+00:00"
        ]]
    );
    let records = csv_records(&vec![device()], OutputOptions::default());
    assert_eq!(records.len(), 2);
    assert_eq!(records[0].len(), 13);
    assert_eq!(records[1][1], "");
}

#[test]
fn confidence_has_two_decimals() {
    assert_eq!(confidence_text(0), "0.00");
    assert_eq!(confidence_text(5), "0.05");
    assert_eq!(confidence_text(60), "0.60");
    assert_eq!(confidence_text(100), "1.00");
}

#[test]
fn instants_are_written_in_utc() {
    assert_eq!(instant_text(0), "1970-01-01T00:00:00+00:00");
    assert_eq!(instant_text(now()), "2026-01-01T00:00:00+00:00");
    assert_eq!(split_instant(-1), (-1, 999_999_999));
    assert_eq!(
        instant_text(-1),
        "1969-12-31T23:59:59.999999999+00:00"
    );
}

#[test]
fn masks_lower_24_bits_of_colon_mac() {
    assert_eq!(mask_lower_24_bits("aa:bb:cc:dd:ee:ff"), "aa:bb:cc:**:**:**");
}

#[test]
fn masks_lower_24_bits_of_hyphen_mac() {
    assert_eq!(mask_lower_24_bits("AA-BB-CC-DD-EE-FF"), "aa:bb:cc:**:**:**");
}

#[test]
fn masks_lower_24_bits_of_compact_mac() {
    assert_eq!(mask_lower_24_bits("AABBCCDDEEFF"), "aa:bb:cc:**:**:**");
}

#[test]
fn keeps_unparseable_mac_unchanged() {
    assert_eq!(mask_lower_24_bits("not-a-mac"), "not-a-mac");
}

#[test]
fn masking_twice_is_masking_once() {
    let once = mask_lower_24_bits("AABBCCDDEEFF");
    assert_eq!(mask_lower_24_bits(&once), once);
    assert_eq!(
        display_mac(&Some("aa:bb:cc:dd:ee:ff".to_string()), OutputOptions::default()),
        "aa:bb:cc:dd:ee:ff"
    );
    assert_eq!(display_mac(&None, masking()), "-");
    assert_eq!(
        display_identity("nas aa:bb:cc:dd:ee:ff", OutputOptions::default()),
        "nas aa:bb:cc:dd:ee:ff"
    );
    assert_eq!(
        display_identity("nas aa:bb:cc:dd:ee:ff", masking()),
        "nas aa:bb:cc:**:**:**"
    );
}

#[test]
fn masks_scan_result_without_mutating_input() {
    let mut device = device();
    device.mac = Some("aa:bb:cc:dd:ee:ff".to_string());
    device.vendor = Some("vendor aa-bb-cc-dd-ee-ff".to_string());
    device.add_name("AABBCCDDEEFF", "mdns", 90);
    device.add_name("android-AABBCCDDEEFF", "netbios", 80);
    device.set_model_guess("aa:bb:cc:dd:ee:ff camera", "upnp", 85);
    device.set_os_guess("AA-BB-CC-DD-EE-FF OS", "netbios", 80);
    device.add_service("aa-bb-cc-dd-ee-ff", "mdns", None, 70);
    let result = result(device);

    let masked = masked_scan_result(&result, masking());

    assert_eq!(masked.devices[0].mac.as_deref(), Some("aa:bb:cc:**:**:**"));
    assert_eq!(
        masked.devices[0].hostname.as_deref(),
        Some("aa:bb:cc:**:**:**")
    );
    assert!(masked.devices[0]
        .names
        .iter()
        .any(|name| name.name == "android-aa:bb:cc:**:**:**"));
    assert_eq!(
        masked.devices[0].vendor.as_deref(),
        Some("vendor aa:bb:cc:**:**:**")
    );
    assert_eq!(
        value(&masked.devices[0].model),
        Some("aa:bb:cc:**:**:** camera")
    );
    assert_eq!(value(&masked.devices[0].os), Some("aa:bb:cc:**:**:** OS"));
    assert_eq!(
        masked.devices[0].services[0].name.as_str(),
        "aa:bb:cc:**:**:**"
    );
    assert_eq!(result.devices[0].mac.as_deref(), Some("aa:bb:cc:dd:ee:ff"));
    assert_eq!(result.devices[0].hostname.as_deref(), Some("AABBCCDDEEFF"));
}

#[test]
fn masks_mac_values_embedded_in_evidence() {
    let mut device = device();
    device.add_evidence("dhcp", "mac", "aa:bb:cc:dd:ee:ff", 55);
    device.add_evidence("lldp", "source_mac", "00:11:22:33:44:55", 76);
    device.add_evidence("lldp", "chassis_id", "66778899aabb", 82);
    device.add_evidence("dhcp", "client_id", "01:aa:bb:cc:dd:ee:ff", 55);
    device.add_evidence("tls", "tls_cert_sha256", "aabbccddeeff", 72);
    let result = result(device);

    let masked = masked_scan_result(&result, masking());
    let values = masked.devices[0]
        .evidence
        .iter()
        .map(|evidence| evidence.value.as_str())
        .collect::<Vec<_>>();

    assert!(values.contains(&"aa:bb:cc:**:**:**"));
    assert!(values.contains(&"00:11:22:**:**:**"));
    assert!(values.contains(&"66:77:88:**:**:**"));
    assert!(values.contains(&"01:aa:bb:cc:**:**:**"));
    assert!(values.contains(&"aabbccddeeff"));
    assert!(result.devices[0]
        .evidence
        .iter()
        .any(|evidence| evidence.value == "aa:bb:cc:dd:ee:ff"));
}

#[test]
fn source_summary_hides_rule_engine_as_a_display_source() {
    let mut device = device();
    device.mac = Some("aa:bb:cc:dd:ee:ff".to_string());
    device.vendor = Some("Example Inc".to_string());
    device.set_device_type_guess("smart-home", "identity_rule", 68);
    device.add_evidence("identity_rule", "rule", "example-device", 68);

    assert_eq!(source_summary(&device), "arp,oui");
    assert_eq!(compact_source_summary(&device), "AO");
}

#[test]
fn compact_source_summary_uses_single_letter_source_codes() {
    let mut device = device();
    device.mac = Some("aa:bb:cc:dd:ee:ff".to_string());
    device.vendor = Some("Example Inc".to_string());
    device.add_name("host.local", "mdns", 90);
    device.add_evidence("deep", "port", "443", 55);
    device.add_evidence("local", "hostname", "host", 95);

    assert_eq!(source_summary(&device), "arp,deep,local,mdns,oui");
    assert_eq!(compact_source_summary(&device), "ADLMO");
    assert_eq!(collect_device_sources(&device).len(), 5);
}

#[test]
fn legend_explains_every_known_code() {
    let legend = source_legend();
    for source in ["arp", "oui", "mdns", "netbios", "upnp", "deep", "dhcp", "cache"] {
        let code = source_code(source).to_string();
        assert!(legend.iter().any(|(known, _)| *known == code));
    }
}

#[test]
fn masked_exports_reveal_nothing() {
    let with = |mac: &str, name: &str| {
        let mut device = device();
        device.mac = Some(mac.to_string());
        device.hostname = Some(name.to_string());
        vec![device]
    };
    let one = with("aa:bb:cc:dd:ee:ff", "nas aa:bb:cc:dd:ee:ff in the attic");
    let other = with("AABBCC112233", "nas aa:bb:cc:11:22:33 in the attic");

    assert_eq!(to_table(&one, masking()), to_table(&other, masking()));
    assert_eq!(to_csv(&one, masking()), to_csv(&other, masking()));
    assert_eq!(
        display_identity("nas aa:bb:cc:dd:ee:ff in the attic", masking()),
        "nas aa:bb:cc:**:**:** in the attic"
    );
    assert_eq!(display_identity("nas in the attic", masking()), "nas in the attic");
}

#[test]
fn no_run_of_twelve_digits_is_left() {
    assert_eq!(
        display_identity("nas aabbccddeeff-AABBCC001122", masking()),
        "nas aa:bb:cc:**:**:**-aa:bb:cc:**:**:**"
    );
    assert_eq!(
        display_identity("aabbccddeeff", masking()),
        "aa:bb:cc:**:**:**"
    );
    assert_eq!(
        display_identity("serial aabbccddeeff0 v12", masking()),
        "serial aabbccddeeff0 v12"
    );
    assert_eq!(
        display_identity("11:22:33:44:55:66aabbccddeeff", masking()),
        "11:22:33:44:55:66aabbccddeeff"
    );
}

#[test]
fn masking_keeps_confidences() {
    let mut device = device();
    device.add_name("aabbccddeeff", "mdns", 90);
    device.add_service("http", "deep", Some(80), 70);
    device.add_evidence("dhcp", "mac", "aa:bb:cc:dd:ee:ff", 55);
    device.set_os_guess("Linux", "ssh", 60);
    let shown = masked_scan_result(&result(device), masking());
    let shown = &shown.devices[0];

    assert_eq!(shown.names[0].name, "aa:bb:cc:**:**:**");
    assert_eq!(shown.names[0].confidence, 90);
    assert_eq!(shown.services[0].confidence, 70);
    assert_eq!(shown.evidence[0].value, "aa:bb:cc:**:**:**");
    assert_eq!(shown.evidence[0].confidence, 55);
    assert_eq!(shown.os.as_ref().unwrap().confidence, 60);
    assert_eq!(shown.identity_confidence(), 90);
}
