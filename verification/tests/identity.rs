use chrono::TimeZone;
use fing::addr::{parse_ip, parse_ipv4, IpAddr, Ipv4Addr};
use fing::identity_rules::{
    apply_identity_rules, builtin_rule_db, load_rule_db, observations_for_device, IdentityRule,
    Observation, RuleDb, RuleMatch, RuleOutput,
};
use fing::model::{normalize_name, Device, Guess, Timestamp};
use fing::store::{known_mac_conflict, merge_previous_scan};

const CACHE_SOURCE: &str = "cache";

fn ip(text: &str) -> IpAddr {
    parse_ip(&text.chars().collect::<Vec<_>>()).unwrap()
}

fn at(year: i32, month: u32, day: u32) -> Timestamp {
    let time = chrono::Utc
        .with_ymd_and_hms(year, month, day, 0, 0, 0)
        .unwrap();
    time.timestamp_nanos_opt().unwrap() as Timestamp
}

fn now() -> Timestamp {
    at(2026, 1, 1)
}

fn value(guess: &Option<Guess>) -> Option<&str> {
    guess.as_ref().map(|guess| guess.value.as_str())
}

fn source(guess: &Option<Guess>) -> Option<&str> {
    guess.as_ref().map(|guess| guess.source.as_str())
}

fn merge_one(current: Device, previous: Device) -> Device {
    let mut devices = vec![current];
    merge_previous_scan(&mut devices, &vec![previous]);
    devices.pop().unwrap()
}

#[test]
fn device_picks_highest_confidence_hostname() {
    let mut device = Device::new(ip("192.168.1.10"), now());

    device.add_name("weak.local.", "rdns", 50);
    device.add_name("strong.local.", "mdns", 90);

    assert_eq!(device.hostname.as_deref(), Some("strong"));
}

#[test]
fn duplicate_name_source_is_ignored() {
    let mut device = Device::new(ip("192.168.1.10"), now());

    device.add_name("host.local", "mdns", 90);
    device.add_name("host.local", "mdns", 90);
    device.add_name("host.local", "netbios", 80);

    assert_eq!(device.names.len(), 2);
}

#[test]
fn identity_confidence_uses_best_available_signal() {
    let mut device = Device::new(ip("192.168.1.10"), now());

    device.mac = Some("aa:bb:cc:dd:ee:ff".to_string());
    assert_eq!(device.identity_confidence(), 50);

    device.add_name("host.local", "mdns", 90);
    assert_eq!(device.identity_confidence(), 90);
}

#[test]
fn weaker_guess_does_not_replace_a_stronger_one() {
    let mut device = Device::new(ip("192.168.1.10"), now());

    device.set_os_guess("macOS", "mdns", 85);
    device.set_os_guess("Linux", "deep", 45);
    assert_eq!(value(&device.os), Some("macOS"));

    device.set_os_guess("iOS", "upnp", 90);
    assert_eq!(value(&device.os), Some("iOS"));
    assert_eq!(source(&device.os), Some("upnp"));

    device.set_os_guess("  ", "rule", 99);
    assert_eq!(value(&device.os), Some("iOS"));
}

#[test]
fn repeated_reports_change_nothing() {
    let mut device = Device::new(ip("192.168.1.10"), now());
    device.add_evidence("upnp", "model", "RS819", 80);
    device.add_service("http", "deep", Some(80), 70);
    let before = device.clone();

    device.add_evidence("upnp", "model", "RS819", 80);
    device.add_service("http", "deep", Some(80), 70);
    assert_eq!(device, before);

    device.add_service("http", "deep", Some(8080), 70);
    assert_eq!(device.services.len(), 2);
}

#[test]
fn names_lose_dots_and_the_local_domain() {
    assert_eq!(normalize_name("host.local."), "host");
    assert_eq!(normalize_name(" printer.example.org. "), "printer.example.org");
    assert_eq!(normalize_name("."), "");
}

#[test]
fn observations_include_names_services_and_evidence() {
    let mut device = Device::new(ip("192.168.1.10"), now());
    device.mac = Some("aa:bb:cc:dd:ee:ff".to_string());
    device.vendor = Some("Nintendo Co.,Ltd".to_string());
    device.add_name("switch", "mdns", 90);
    device.add_service("http", "deep", Some(80), 70);
    device.add_evidence("arp", "mac", "aa:bb:cc:dd:ee:ff", 50);
    device.add_evidence("http", "http_header_server", "uhttpd", 80);

    let observations = observations_for_device(&device);

    assert!(observations
        .iter()
        .any(|item| item.source == "arp" && item.key == "mac"));
    assert!(observations.iter().any(|item| item.key == "vendor"));
    assert!(observations.iter().any(|item| item.key == "name"));
    assert!(observations.iter().any(|item| item.value == "80"));
    assert!(observations
        .iter()
        .any(|item| item.key == "http_header_server"));
}

#[test]
fn mac_without_arp_evidence_is_not_an_arp_observation() {
    let mut device = Device::new(ip("192.168.1.10"), now());
    device.mac = Some("aa:bb:cc:dd:ee:ff".to_string());

    let observations = observations_for_device(&device);

    assert!(observations
        .iter()
        .all(|item| item.source != "arp" && item.key != "mac_oui"));
}

#[test]
fn builtin_rules_identify_vendor_backed_devices() {
    let mut device = Device::new(ip("192.168.1.10"), now());
    device.vendor = Some("Nintendo Co.,Ltd".to_string());
    let db = builtin_rule_db().unwrap();

    apply_identity_rules(&mut device, &db);

    assert_eq!(value(&device.make), Some("Nintendo"));
    assert_eq!(value(&device.device_type), Some("game-console"));
}

#[test]
fn builtin_rules_are_sorted_by_priority() {
    let db = load_rule_db().unwrap();

    assert!(!db.rules.is_empty());
    assert!(db
        .rules
        .windows(2)
        .all(|window| window[0].priority >= window[1].priority));
}

fn condition(key: &str) -> RuleMatch {
    RuleMatch {
        source: None,
        key: key.to_string(),
        equals: None,
        contains: None,
        any_of: Vec::new(),
        confidence_min: None,
    }
}

fn camera_rule(conditions: Vec<RuleMatch>) -> RuleDb {
    RuleDb {
        rules: vec![IdentityRule {
            id: "example.camera".to_string(),
            priority: 10,
            confidence: 66,
            conditions,
            set: RuleOutput {
                make: Some("Example".to_string()),
                model: None,
                os: None,
                device_type: Some("camera".to_string()),
            },
        }],
    }
}

#[test]
fn rule_without_a_condition_never_applies() {
    let mut device = Device::new(ip("192.168.1.10"), now());
    device.vendor = Some("Example Inc".to_string());
    let before = device.clone();

    apply_identity_rules(&mut device, &camera_rule(Vec::new()));

    assert_eq!(device, before);
}

#[test]
fn rule_that_fires_sets_guesses_and_leaves_a_fact() {
    let mut device = Device::new(ip("192.168.1.10"), now());
    device.vendor = Some("Example Inc".to_string());
    let mut vendor = condition("vendor");
    vendor.contains = Some("EXAMPLE".to_string());

    apply_identity_rules(&mut device, &camera_rule(vec![vendor]));

    assert_eq!(value(&device.make), Some("Example"));
    assert_eq!(source(&device.make), Some("identity_rule"));
    assert_eq!(value(&device.device_type), Some("camera"));
    assert!(device.model.is_none());
    assert!(device
        .evidence
        .iter()
        .any(|fact| fact.source == "identity_rule" && fact.value == "example.camera"));
    assert!(observations_for_device(&device)
        .iter()
        .all(|item| item.key != "make" && item.key != "device_type"));
}

#[test]
fn rule_condition_reads_source_key_value_and_confidence() {
    let seen = vec![Observation {
        source: "oui".to_string(),
        key: "vendor".to_string(),
        value: "Example Inc".to_string(),
        confidence: 50,
    }];

    let mut contains = condition("vendor");
    contains.contains = Some("example".to_string());
    assert!(contains.matches(&seen));

    let mut other_source = contains.clone();
    other_source.source = Some("mdns".to_string());
    assert!(!other_source.matches(&seen));

    let mut too_weak = contains;
    too_weak.confidence_min = Some(51);
    assert!(!too_weak.matches(&seen));

    let mut equals = condition("vendor");
    equals.equals = Some("example inc".to_string());
    assert!(equals.matches(&seen));

    let mut any_of = condition("vendor");
    any_of.any_of = vec!["acme".to_string(), "INC".to_string()];
    assert!(any_of.matches(&seen));
    any_of.any_of.pop();
    assert!(!any_of.matches(&seen));

    assert!(!condition("name").matches(&seen));
}

#[test]
fn merges_first_seen_by_mac_even_if_ip_changed() {
    let old_time = at(2026, 1, 1);
    let new_time = at(2026, 1, 2);

    let mut previous = Device::new(ip("192.168.1.10"), old_time);
    previous.mac = Some("aa:bb:cc:dd:ee:ff".to_string());
    previous.add_name("old-name", "mdns", 90);

    let mut current = Device::new(ip("192.168.1.20"), new_time);
    current.mac = Some("aa:bb:cc:dd:ee:ff".to_string());

    let current = merge_one(current, previous);

    assert_eq!(current.first_seen, old_time);
    assert_eq!(current.hostname.as_deref(), Some("old-name"));
}

#[test]
fn cached_identity_is_marked_as_cache_source() {
    let old_time = at(2026, 1, 1);
    let new_time = at(2026, 1, 2);

    let mut previous = Device::new(ip("192.168.1.10"), old_time);
    previous.mac = Some("aa:bb:cc:dd:ee:ff".to_string());
    previous.vendor = Some("Example Inc".to_string());
    previous.add_name("old-name", "mdns", 90);
    previous.set_model_guess("Example Camera", "upnp", 85);
    previous.set_os_guess("Embedded Linux", "snmp", 80);

    let mut current = Device::new(ip("192.168.1.20"), new_time);
    current.mac = Some("AA-BB-CC-DD-EE-FF".to_string());

    let current = merge_one(current, previous);

    assert_eq!(current.first_seen, old_time);
    assert_eq!(current.hostname.as_deref(), Some("old-name"));
    assert!(current.names.iter().all(|name| name.source == CACHE_SOURCE));
    assert_eq!(source(&current.model), Some(CACHE_SOURCE));
    assert_eq!(source(&current.os), Some(CACHE_SOURCE));
    assert!(current.evidence.iter().any(|evidence| {
        evidence.source == CACHE_SOURCE
            && evidence.key == "vendor"
            && evidence.value == "Example Inc"
    }));
}

#[test]
fn does_not_merge_cached_identity_by_ip_when_macs_conflict() {
    let old_time = at(2026, 1, 1);
    let new_time = at(2026, 1, 2);

    let mut previous = Device::new(ip("192.168.1.10"), old_time);
    previous.interface = Some("en0".to_string());
    previous.mac = Some("aa:bb:cc:dd:ee:ff".to_string());
    previous.add_name("old-name", "mdns", 90);

    let mut current = Device::new(ip("192.168.1.10"), new_time);
    current.interface = Some("en0".to_string());
    current.mac = Some("00:11:22:33:44:55".to_string());

    let current = merge_one(current, previous);

    assert_eq!(current.first_seen, new_time);
    assert!(current.hostname.is_none());
}

#[test]
fn ip_fallback_preserves_first_seen_without_copying_identity() {
    let old_time = at(2026, 1, 1);
    let new_time = at(2026, 1, 2);

    let mut previous = Device::new(ip("192.168.1.10"), old_time);
    previous.interface = Some("en0".to_string());
    previous.vendor = Some("Example Inc".to_string());
    previous.add_name("old-name", "mdns", 90);
    previous.set_model_guess("Example Camera", "upnp", 85);
    previous.set_os_guess("Embedded Linux", "snmp", 80);

    let mut current = Device::new(ip("192.168.1.10"), new_time);
    current.interface = Some("en0".to_string());

    let current = merge_one(current, previous);

    assert_eq!(current.first_seen, old_time);
    assert!(current.vendor.is_none());
    assert!(current.hostname.is_none());
    assert!(current.model.is_none());
    assert!(current.os.is_none());
}

#[test]
fn mac_conflict_ignores_notation() {
    let mut a = Device::new(ip("192.168.1.10"), now());
    let mut b = a.clone();
    assert!(!known_mac_conflict(&a, &b));

    a.mac = Some("aa:bb:cc:dd:ee:ff".to_string());
    assert!(!known_mac_conflict(&a, &b));

    b.mac = Some("AA-BB-CC-DD-EE-FF".to_string());
    assert!(!known_mac_conflict(&a, &b));

    b.mac = Some("AA-BB-CC-DD-EE-00".to_string());
    assert!(known_mac_conflict(&a, &b));
}

#[test]
fn addresses_are_read_and_written() {
    let v4 = parse_ipv4(&"192.168.1.10".chars().collect::<Vec<_>>()).unwrap();
    assert_eq!(v4, Ipv4Addr::new(192, 168, 1, 10));
    assert_eq!(v4.text(), "192.168.1.10");
    assert!(parse_ipv4(&"192.168.1".chars().collect::<Vec<_>>()).is_none());
    assert!(parse_ipv4(&"192.168.1.256".chars().collect::<Vec<_>>()).is_none());
    assert!(parse_ipv4(&"192.168.01.2".chars().collect::<Vec<_>>()).is_none());

    assert_eq!(ip("fe80::1").text(), "fe80::1");
    assert_eq!(ip("2001:db8:0:0:1:0:0:1").text(), "2001:db8::1:0:0:1");
    assert_eq!(ip("::").text(), "::");
}
