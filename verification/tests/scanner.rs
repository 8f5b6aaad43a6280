use chrono::TimeZone;
use fing::addr::{parse_ip, parse_ipv4, IpAddr};
use fing::dhcp::DhcpLease;
use fing::discovery::cdp::CdpInfo;
use fing::discovery::l2::L2Advertisement;
use fing::discovery::lldp::LldpInfo;
use fing::discovery::ArpHit;
use fing::enrich::mdns::{MdnsInfo, MdnsService};
use fing::identity_rules::RuleDb;
use fing::model::{Device, Guess, ScanResult, Timestamp};
use fing::net::{parse_cidr_target, InterfaceInfo};
use fing::probes::deep::{
    FaviconFingerprint, HttpHeader, PortProbe, ProbeOptions, TlsCertificate,
};
use fing::probes::smb::SmbInfo;
use fing::probes::snmp::SnmpInfo;
use fing::probes::upnp::UpnpInfo;
use fing::scanner::apply::{
    apply_cdp_info, apply_deep_probes, apply_dhcp_lease, apply_lldp_info, apply_mdns_info,
    apply_oui, apply_smb_info, apply_snmp_info, apply_upnp_info, merge_devices_by_interface_ip,
};
use fing::scanner::multi::{plan_scan, MultiAction, MultiScan, ScanPlan, ScanRounds};
use fing::scanner::passive::{
    continuous_passive_interfaces, passive_listener_warning, round_scan_configs,
    ContinuousPassiveManager, ContinuousPassiveUpdate, ListenerOutcome, PassiveInterfaceState,
    PassiveObservation,
};
use fing::scanner::phases::{
    cdp_listen_timeout, idle_phase, lldp_listen_timeout, scan_target_summary, EventForwarder,
    CDP_LISTEN_TIMEOUT, DEEP_LLDP_LISTEN_TIMEOUT,
};
use fing::scanner::session::{HostUpdate, ScanAction, ScanContext, ScanInput, ScanSession};
use fing::scanner::types::{ScanConfig, ScanEvent, ScanProfile};
use fing::text_map::TextMap;

fn ip(text: &str) -> IpAddr {
    parse_ip(&text.chars().collect::<Vec<_>>()).unwrap()
}

fn at(minute: u32) -> Timestamp {
    let time = chrono::Utc
        .with_ymd_and_hms(2026, 1, 1, 0, minute, 0)
        .unwrap();
    time.timestamp() as Timestamp * 1_000_000_000
}

fn device() -> Device {
    Device::new(ip("192.168.1.10"), at(0))
}

fn value(guess: &Option<Guess>) -> Option<&str> {
    guess.as_ref().map(|guess| guess.value.as_str())
}

fn has_evidence(device: &Device, source: &str, key: &str, value: &str) -> bool {
    device
        .evidence
        .iter()
        .any(|item| item.source == source && item.key == key && item.value == value)
}

fn text_map(entries: &[(&str, &str)]) -> TextMap {
    let mut map = TextMap::default();
    for (key, value) in entries {
        map.insert(key.to_string(), value.to_string());
    }
    map
}

fn updated(event: ScanEvent) -> Device {
    match event {
        ScanEvent::DeviceUpdated(device) => *device,
        _ => panic!("expected device update"),
    }
}

fn only_updated(mut events: Vec<ScanEvent>) -> Device {
    assert_eq!(events.len(), 1);
    updated(events.pop().unwrap())
}

#[test]
fn multicast_identity_adds_names_services_and_raw_evidence() {
    let mut device = device();

    apply_mdns_info(
        &mut device,
        MdnsInfo {
            names: vec!["printer.local".to_string()],
            os: Some("AirPrint OS".to_string()),
            model: Some("OfficeJet Pro".to_string()),
            services: vec![MdnsService {
                name: "_ipp._tcp.local".to_string(),
                port: Some(631),
            }],
        },
    );
    apply_upnp_info(
        &mut device,
        UpnpInfo {
            names: vec!["Office Printer".to_string()],
            manufacturer: Some("HP".to_string()),
            model: Some("OfficeJet Pro 9010".to_string()),
            device_type: Some("urn:schemas-upnp-org:device:Printer:1".to_string()),
            server: Some("Linux UPnP".to_string()),
            location: Some("http://192.168.1.10/root.xml".to_string()),
            services: vec!["urn:schemas-upnp-org:service:PrintBasic:1".to_string()],
            usns: vec!["uuid:printer::upnp:rootdevice".to_string()],
        },
    );

    assert_eq!(device.hostname.as_deref(), Some("printer"));
    assert_eq!(value(&device.make), Some("HP"));
    assert_eq!(value(&device.model), Some("OfficeJet Pro"));
    assert!(device
        .services
        .iter()
        .any(|service| service.source == "mdns" && service.port == Some(631)));
    assert!(has_evidence(&device, "mdns", "model", "OfficeJet Pro"));
    assert!(has_evidence(&device, "upnp", "manufacturer", "HP"));
    assert!(has_evidence(&device, "upnp", "model", "OfficeJet Pro 9010"));
    assert!(has_evidence(
        &device,
        "upnp",
        "location",
        "http://192.168.1.10/root.xml"
    ));
}

fn https_probe(favicon: Option<FaviconFingerprint>, subject: Option<String>) -> PortProbe {
    PortProbe {
        port: 443,
        service: "https".to_string(),
        banner: Some("HTTP 200 | server: OpenWrt".to_string()),
        http_headers: vec![HttpHeader {
            name: "server".to_string(),
            value: "uhttpd".to_string(),
        }],
        favicon,
        tls: Some(TlsCertificate {
            sha256: "def456".to_string(),
            subject,
            issuer: None,
            not_before: None,
            not_after: Some("2028-01-01".to_string()),
        }),
    }
}

#[test]
fn deep_snmp_and_smb_keep_protocol_specific_evidence() {
    let mut device = device();

    apply_deep_probes(
        &mut device,
        vec![https_probe(
            Some(FaviconFingerprint {
                url: "https://192.168.1.10/favicon.ico".to_string(),
                sha256: "abc123".to_string(),
                bytes: 42,
            }),
            Some("CN=router".to_string()),
        )],
        ProbeOptions {
            deep: true,
            http: true,
            tls: true,
        },
    );
    apply_snmp_info(
        &mut device,
        SnmpInfo {
            sys_descr: Some("Linux router 6.1".to_string()),
            sys_object_id: Some("1.3.6.1.4.1.8072".to_string()),
            sys_services: Some(4),
            ..SnmpInfo::default()
        },
    );
    apply_smb_info(
        &mut device,
        SmbInfo {
            dialect: Some("SMB 3.1.1".to_string()),
            signing_required: Some(true),
            server_guid: None,
            native_os: Some("Windows Server".to_string()),
            native_lanman: None,
            netbios_computer_name: Some("FILES".to_string()),
            dns_computer_name: Some("files.local".to_string()),
        },
    );

    assert!(has_evidence(
        &device,
        "http",
        "http_header_server",
        "uhttpd"
    ));
    assert!(has_evidence(&device, "http", "favicon_sha256", "abc123"));
    assert!(has_evidence(&device, "tls", "tls_cert_sha256", "def456"));
    assert!(has_evidence(
        &device,
        "snmp",
        "sysObjectID",
        "1.3.6.1.4.1.8072"
    ));
    assert!(has_evidence(&device, "smb", "smb_dialect", "SMB 3.1.1"));
    assert!(device
        .services
        .iter()
        .any(|service| service.source == "snmp" && service.port == Some(161)));
    assert!(device
        .services
        .iter()
        .any(|service| service.source == "smb" && service.port == Some(445)));
}

#[test]
fn deep_probe_application_respects_source_options() {
    let mut device = device();

    apply_deep_probes(
        &mut device,
        vec![https_probe(None, None)],
        ProbeOptions {
            deep: false,
            http: true,
            tls: false,
        },
    );

    assert!(!device
        .services
        .iter()
        .any(|service| service.source == "deep"));
    assert!(!device.evidence.iter().any(|item| item.source == "deep"));
    assert!(has_evidence(
        &device,
        "http",
        "http_header_server",
        "uhttpd"
    ));
    assert!(!device.evidence.iter().any(|item| item.source == "tls"));
}

#[test]
fn lldp_adds_network_device_identity() {
    let mut device = device();

    apply_lldp_info(
        &mut device,
        LldpInfo {
            source_mac: "aa:bb:cc:dd:ee:ff".to_string(),
            chassis_id: Some("00:11:22:33:44:55".to_string()),
            chassis_id_subtype: Some("mac-address".to_string()),
            chassis_mac: Some("00:11:22:33:44:55".to_string()),
            port_id: Some("Gi1/0/1".to_string()),
            port_id_subtype: Some("interface-name".to_string()),
            ttl: Some(120),
            port_description: Some("uplink".to_string()),
            system_name: Some("core-switch".to_string()),
            system_description: Some("ExampleOS 1.0".to_string()),
            system_capabilities: vec!["bridge".to_string(), "router".to_string()],
            enabled_capabilities: vec!["bridge".to_string()],
            management_addresses: vec![ip("192.168.1.2")],
        },
        None,
    );

    assert_eq!(device.mac.as_deref(), Some("00:11:22:33:44:55"));
    assert_eq!(device.hostname.as_deref(), Some("core-switch"));
    assert_eq!(value(&device.device_type), Some("switch"));
    assert!(has_evidence(
        &device,
        "lldp",
        "system_description",
        "ExampleOS 1.0"
    ));
    assert!(has_evidence(
        &device,
        "lldp",
        "management_address",
        "192.168.1.2"
    ));
}

fn cdp_info(device_id: &str, ttl: u8) -> CdpInfo {
    CdpInfo {
        source_mac: "aa:bb:cc:dd:ee:ff".to_string(),
        version: 2,
        ttl,
        device_id: Some(device_id.to_string()),
        addresses: Vec::new(),
        port_id: Some("GigabitEthernet1/0/1".to_string()),
        capabilities: vec!["switch".to_string()],
        software_version: Some("Cisco IOS Software".to_string()),
        platform: Some("cisco WS-C2960X".to_string()),
        native_vlan: None,
        duplex: None,
        management_addresses: Vec::new(),
    }
}

#[test]
fn cdp_adds_cisco_network_device_identity() {
    let mut device = device();
    let mut info = cdp_info("access-switch", 180);
    info.addresses = vec![ip("192.168.1.2")];
    info.native_vlan = Some(100);
    info.duplex = Some("full".to_string());
    info.management_addresses = vec![ip("192.168.1.3")];

    apply_cdp_info(&mut device, info, None);

    assert_eq!(device.mac.as_deref(), Some("aa:bb:cc:dd:ee:ff"));
    assert_eq!(device.hostname.as_deref(), Some("access-switch"));
    assert_eq!(value(&device.make), Some("Cisco"));
    assert_eq!(value(&device.device_type), Some("switch"));
    assert!(has_evidence(
        &device,
        "cdp",
        "software_version",
        "Cisco IOS Software"
    ));
    assert!(has_evidence(
        &device,
        "cdp",
        "management_address",
        "192.168.1.3"
    ));
}

#[test]
fn dhcp_lease_does_not_use_conflicting_mac_for_vendor() {
    let mut device = device();
    device.mac = Some("00:11:22:33:44:55".to_string());
    let ip = device.ip;
    let oui_db = text_map(&[("AABBCC", "Lease Vendor"), ("001122", "Observed Vendor")]);

    apply_dhcp_lease(
        &mut device,
        DhcpLease {
            ip,
            mac: Some("aa:bb:cc:dd:ee:ff".to_string()),
            hostname: Some("workstation".to_string()),
            client_id: Some("client-1".to_string()),
            vendor_class: Some("MSFT 5.0".to_string()),
            expires_at: None,
            source: Some("/tmp/leases".to_string()),
        },
        Some(&oui_db),
    );

    assert_eq!(device.mac.as_deref(), Some("00:11:22:33:44:55"));
    assert_eq!(device.vendor.as_deref(), Some("Observed Vendor"));
    assert_eq!(device.hostname.as_deref(), Some("workstation"));
    assert!(has_evidence(&device, "dhcp", "mac", "aa:bb:cc:dd:ee:ff"));
    assert!(has_evidence(&device, "dhcp", "vendor_class", "MSFT 5.0"));
}

#[test]
fn merged_devices_keep_all_evidence_for_the_same_interface_ip() {
    let early = at(0);
    let late = at(1);
    let mut left = Device::new(ip("192.168.1.10"), early);
    left.interface = Some("en0".to_string());
    left.mac = Some("aa:bb:cc:dd:ee:ff".to_string());
    left.add_name("left", "mdns", 90);

    let mut right = Device::new(left.ip, late);
    right.interface = Some("en0".to_string());
    right.add_service("http", "deep", Some(80), 70);
    right.add_evidence("http", "server", "nginx", 70);

    let merged = merge_devices_by_interface_ip(vec![left, right]);

    assert_eq!(merged.len(), 1);
    assert_eq!(merged[0].first_seen, early);
    assert_eq!(merged[0].last_seen, late);
    assert_eq!(merged[0].hostname.as_deref(), Some("left"));
    assert!(merged[0]
        .services
        .iter()
        .any(|service| service.name == "http"));
    assert!(has_evidence(&merged[0], "http", "server", "nginx"));
}

#[test]
fn merged_devices_hold_both_records() {
    let mut left = device();
    left.add_name("left", "mdns", 90);
    left.set_os_guess("Linux", "ssh", 60);
    let mut right = device();
    right.mac = Some("aa:bb:cc:dd:ee:ff".to_string());
    right.vendor = Some("Example Inc".to_string());
    right.add_name("right.local", "rdns", 60);
    right.add_service("http", "deep", Some(80), 70);
    right.add_evidence("http", "server", "nginx", 70);
    right.set_os_guess("Windows", "smb", 80);
    right.set_model_guess("NAS", "upnp", 85);

    let merged = merge_devices_by_interface_ip(vec![left, right]);

    assert_eq!(merged.len(), 1);
    let merged = &merged[0];
    assert_eq!(merged.mac.as_deref(), Some("aa:bb:cc:dd:ee:ff"));
    assert_eq!(merged.vendor.as_deref(), Some("Example Inc"));
    assert!(merged
        .names
        .iter()
        .any(|name| name.name == "right" && name.source == "rdns"));
    assert!(merged
        .services
        .iter()
        .any(|service| service.name == "http" && service.port == Some(80)));
    assert!(has_evidence(merged, "http", "server", "nginx"));
    assert_eq!(merged.os.as_ref().unwrap().value, "Windows");
    assert_eq!(merged.model.as_ref().unwrap().confidence, 85);
    assert_eq!(merged.hostname.as_deref(), Some("left"));
}

#[test]
fn vendors_come_from_known_prefixes() {
    let mut known = device();
    known.mac = Some("AA-BB-CC-00-00-01".to_string());
    let mut devices = vec![known, device()];

    apply_oui(&mut devices, &text_map(&[("AABBCC", "Example Inc")]));

    assert_eq!(devices[0].vendor.as_deref(), Some("Example Inc"));
    assert!(devices[1].vendor.is_none());
}

#[test]
fn profile_timeouts_are_ordered_by_depth() {
    assert!(ScanProfile::Fast.default_timeout() < ScanProfile::Normal.default_timeout());
    assert!(ScanProfile::Normal.default_timeout() < ScanProfile::Deep.default_timeout());
}

#[test]
fn ip_sort_key_orders_ipv4_numerically() {
    let ips = [ip("192.168.1.20"), ip("192.168.1.2")];

    assert!(ips[1].less(&ips[0]));
    assert!(!ips[0].less(&ips[1]));
    assert!(ips[0].less(&ip("::1")));
}

#[test]
fn multi_interface_merge_keeps_same_ip_on_different_interfaces() {
    let mut left = device();
    left.interface = Some("en0".to_string());
    let mut right = device();
    right.interface = Some("en0.100".to_string());

    let merged = merge_devices_by_interface_ip(vec![left, right]);

    assert_eq!(merged.len(), 2);
}

fn passive_manager() -> ContinuousPassiveManager {
    ContinuousPassiveManager {
        states: vec![PassiveInterfaceState {
            interface: "en0".to_string(),
            targets: vec![parse_cidr_target("192.168.1.0/24").unwrap()],
            oui: false,
            devices: Vec::new(),
            pending_observations: Vec::new(),
        }],
        rules: RuleDb { rules: Vec::new() },
        oui_db: TextMap::default(),
    }
}

fn passive_update_at(
    advertisement: L2Advertisement,
    received_at: Timestamp,
) -> ContinuousPassiveUpdate {
    ContinuousPassiveUpdate::Observation {
        interface: "en0".to_string(),
        observation: Box::new(PassiveObservation::from_advertisement_at(
            advertisement,
            received_at,
        )),
    }
}

fn edge_switch() -> L2Advertisement {
    L2Advertisement::Lldp(LldpInfo {
        source_mac: "aa:bb:cc:dd:ee:ff".to_string(),
        chassis_id: Some("aa:bb:cc:dd:ee:ff".to_string()),
        chassis_id_subtype: Some("mac-address".to_string()),
        chassis_mac: Some("aa:bb:cc:dd:ee:ff".to_string()),
        port_id: Some("Gi1/0/1".to_string()),
        port_id_subtype: Some("interface-name".to_string()),
        ttl: Some(120),
        port_description: None,
        system_name: Some("edge-switch".to_string()),
        system_description: None,
        system_capabilities: vec!["bridge".to_string()],
        enabled_capabilities: vec!["bridge".to_string()],
        management_addresses: vec![ip("192.168.1.2")],
    })
}

#[test]
fn continuous_passive_lldp_update_emits_device_by_management_address() {
    let mut manager = passive_manager();

    let events = manager.apply_passive_update(passive_update_at(edge_switch(), at(0)), at(0));

    let device = only_updated(events);
    assert_eq!(device.ip.text(), "192.168.1.2");
    assert_eq!(device.interface.as_deref(), Some("en0"));
    assert_eq!(device.hostname.as_deref(), Some("edge-switch"));
    assert_eq!(value(&device.device_type), Some("switch"));
}

#[test]
fn continuous_passive_cdp_pending_update_enriches_later_scan_device() {
    let mut manager = passive_manager();

    let events = manager.apply_passive_update(
        passive_update_at(L2Advertisement::Cdp(cdp_info("access-switch", 180)), at(0)),
        at(0),
    );
    assert!(events.is_empty());

    let mut device = Device::new(ip("192.168.1.44"), at(0));
    device.interface = Some("en0".to_string());
    device.mac = Some("aa:bb:cc:dd:ee:ff".to_string());

    let event = manager.observe_scan_event(ScanEvent::DeviceUpdated(Box::new(device)), at(0));
    let device = updated(event);

    assert_eq!(device.hostname.as_deref(), Some("access-switch"));
    assert_eq!(value(&device.make), Some("Cisco"));
    assert!(device
        .evidence
        .iter()
        .any(|item| item.source == "cdp" && item.key == "software_version"));
}

#[test]
fn continuous_passive_replaces_same_ip_when_scan_mac_changes() {
    let mut manager = passive_manager();
    let ip = ip("192.168.1.44");
    let first_seen = at(0);
    let later_seen = at(5);

    let mut first = Device::new(ip, first_seen);
    first.interface = Some("en0".to_string());
    first.mac = Some("aa:bb:cc:dd:ee:ff".to_string());
    first.add_name("old-host.local", "mdns", 90);
    let _ = manager.observe_scan_event(ScanEvent::DeviceUpdated(Box::new(first)), first_seen);

    let mut replacement = Device::new(ip, later_seen);
    replacement.interface = Some("en0".to_string());
    replacement.mac = Some("00:11:22:33:44:55".to_string());
    let event =
        manager.observe_scan_event(ScanEvent::DeviceUpdated(Box::new(replacement)), later_seen);
    let device = updated(event);

    assert_eq!(device.mac.as_deref(), Some("00:11:22:33:44:55"));
    assert!(device.hostname.is_none());
    assert_eq!(device.first_seen, later_seen);
    assert_eq!(device.last_seen, later_seen);
}

#[test]
fn continuous_passive_duplicate_observation_refreshes_last_seen() {
    let mut manager = passive_manager();
    let first_seen = at(0);
    let later_seen = first_seen + 5_000_000_000;

    let first =
        manager.apply_passive_update(passive_update_at(edge_switch(), first_seen), first_seen);
    let second =
        manager.apply_passive_update(passive_update_at(edge_switch(), later_seen), later_seen);

    assert_eq!(first.len(), 1);
    assert_eq!(only_updated(second).last_seen, later_seen);
}

#[test]
fn expired_passive_observation_is_not_applied_to_later_scan_device() {
    let mut manager = passive_manager();
    let now = at(1);
    let observation = PassiveObservation::from_advertisement_at(
        L2Advertisement::Cdp(cdp_info("expired-switch", 1)),
        now - 10_000_000_000,
    );
    manager.states[0].pending_observations.push(observation);

    let mut device = Device::new(ip("192.168.1.44"), now);
    device.interface = Some("en0".to_string());
    device.mac = Some("aa:bb:cc:dd:ee:ff".to_string());

    let event = manager.observe_scan_event(ScanEvent::DeviceUpdated(Box::new(device)), now);

    assert!(updated(event).hostname.is_none());
    assert!(manager.states[0].pending_observations.is_empty());
}

#[test]
fn listener_ends_are_worth_a_warning_only_when_they_fail() {
    assert_eq!(
        passive_listener_warning("LLDP", "en0", ListenerOutcome::Ended),
        None
    );
    assert_eq!(
        passive_listener_warning("LLDP", "en0", ListenerOutcome::Failed("denied".to_string()))
            .as_deref(),
        Some("LLDP listener failed on en0: denied")
    );
    assert_eq!(
        passive_listener_warning("CDP", "en0", ListenerOutcome::TaskFailed("lost".to_string()))
            .as_deref(),
        Some("CDP listener task failed on en0: lost")
    );
}

fn scan_config() -> ScanConfig {
    ScanConfig {
        target: Some("192.168.1.0/24".to_string()),
        iface: Some("en0".to_string()),
        profile: ScanProfile::Normal,
        timeout: 1,
        concurrency: 1,
        oui: false,
        rdns: false,
        mdns: false,
        netbios: false,
        upnp: false,
        deep: false,
        ssh: false,
        http: false,
        tls: false,
        smb: false,
        snmp: false,
        snmp_community: "public".to_string(),
        lldp: false,
        cdp: false,
        dhcp: false,
        dhcp_paths: Vec::new(),
        cache_enabled: false,
        cache_path: "cache.json".to_string(),
        oui_path: "oui.json".to_string(),
    }
}

fn interface() -> InterfaceInfo {
    InterfaceInfo {
        name: "en0".to_string(),
        ip: parse_ipv4(&"192.168.1.2".chars().collect::<Vec<_>>()).unwrap(),
        netmask: parse_ipv4(&"255.255.255.0".chars().collect::<Vec<_>>()).unwrap(),
        prefix: 24,
        network: parse_cidr_target("192.168.1.0/24").unwrap(),
        mac: Some("02:00:00:00:00:01".to_string()),
    }
}

#[test]
fn zero_interval_skips_idle_phase() {
    assert_eq!(idle_phase(0, 3), None);
    assert_eq!(
        idle_phase(250, 3),
        Some("idle 250ms after round 3".to_string())
    );
}

#[test]
fn explicit_lldp_uses_minimum_listen_window() {
    let mut config = scan_config();
    config.profile = ScanProfile::Normal;
    config.lldp = true;
    config.timeout = 500;

    assert_eq!(lldp_listen_timeout(&config), DEEP_LLDP_LISTEN_TIMEOUT);

    config.lldp = false;
    assert_eq!(lldp_listen_timeout(&config), 500);

    config.cdp = true;
    assert_eq!(cdp_listen_timeout(&config), CDP_LISTEN_TIMEOUT);
}

#[test]
fn child_events_are_forwarded_as_parent_phase_stream() {
    let device = Device::new(ip("192.168.1.44"), at(0));
    let mut forwarder = EventForwarder::new();
    let mut events = Vec::new();
    for event in [
        ScanEvent::Started {
            target: "192.168.1.0/24".to_string(),
            interface: "en0".to_string(),
            profile: ScanProfile::Normal,
        },
        ScanEvent::Phase("ARP discovery".to_string()),
        ScanEvent::Warning("ARP fallback".to_string()),
        ScanEvent::DeviceUpdated(Box::new(device.clone())),
        ScanEvent::Finished {
            devices: vec![device],
            warnings: vec!["ignored".to_string()],
        },
    ] {
        events.extend(forwarder.forward(event));
    }

    assert_eq!(events.len(), 4);
    assert!(matches!(
        &events[0],
        ScanEvent::Phase(phase) if phase == "en0: scanning 192.168.1.0/24"
    ));
    assert!(matches!(
        &events[1],
        ScanEvent::Phase(phase) if phase == "en0: ARP discovery"
    ));
    assert!(matches!(
        &events[2],
        ScanEvent::Warning(warning) if warning == "en0: ARP fallback"
    ));
    assert!(matches!(
        &events[3],
        ScanEvent::DeviceUpdated(device) if device.ip.text() == "192.168.1.44"
    ));
}

#[test]
fn scan_target_summary_deduplicates_configured_ranges() {
    let mut config = scan_config();
    let same = config.clone();
    config.target = Some("10.0.0.0/24".to_string());

    assert_eq!(
        scan_target_summary(&vec![same, config]),
        "192.168.1.0/24,10.0.0.0/24"
    );
}

#[test]
fn continuous_rounds_listen_outside_the_rounds() {
    let mut config = scan_config();
    config.lldp = true;
    let interfaces =
        continuous_passive_interfaces(&vec![config.clone()], &vec![interface()], None).unwrap();
    assert_eq!(interfaces.len(), 1);
    assert!(interfaces[0].lldp);
    assert!(!interfaces[0].cdp);

    let rounds = round_scan_configs(&vec![config.clone()]);
    assert!(!rounds[0].lldp);

    config.iface = Some("en9".to_string());
    assert!(continuous_passive_interfaces(&vec![config], &vec![interface()], None).is_err());
}

fn start(config: ScanConfig) -> (ScanSession, Vec<ScanEvent>) {
    ScanSession::start(ScanContext {
        config,
        interface: interface(),
        target: parse_cidr_target("192.168.1.0/24").unwrap(),
        oui_db: text_map(&[("AABBCC", "Example Inc")]),
        rules: RuleDb { rules: Vec::new() },
        local_name: Some("laptop".to_string()),
        scanned_at: at(0),
        emit_finished: true,
    })
}

fn hit(address: &str, mac: &str) -> ArpHit {
    ArpHit {
        ip: parse_ipv4(&address.chars().collect::<Vec<_>>()).unwrap(),
        mac: mac.to_string(),
        interface: None,
    }
}

#[test]
fn scan_runs_through_its_phases() {
    let mut config = scan_config();
    config.oui = true;
    config.rdns = true;
    config.dhcp = true;
    let (mut session, events) = start(config);
    assert!(matches!(
        &events[0],
        ScanEvent::Started { target, interface, .. }
            if target == "192.168.1.0/24" && interface == "en0"
    ));

    let hits = vec![hit("192.168.1.7", "aa:bb:cc:00:00:07")];
    let step = session.step(ScanInput::Swept(Ok(hits)), at(0));
    assert!(matches!(&step.action, ScanAction::ReadLeases(paths) if paths.is_empty()));
    assert!(step.listen.is_none());

    let step = session.step(ScanInput::Leases(Vec::new(), Vec::new()), at(0));
    assert!(matches!(
        step.action,
        ScanAction::Multicast {
            mdns: false,
            upnp: false
        }
    ));

    let step = session.step(
        ScanInput::MulticastDone {
            mdns: None,
            upnp: None,
        },
        at(0),
    );
    let ips = match step.action {
        ScanAction::Names { ips, rdns, netbios } => {
            assert!(rdns);
            assert!(!netbios);
            ips
        }
        _ => panic!("names should be asked for"),
    };
    assert!(ips.contains(&ip("192.168.1.7")));

    let step = session.step(
        ScanInput::Update(ip("192.168.1.7"), HostUpdate::Rdns("nas.example.org".to_string())),
        at(1),
    );
    assert!(matches!(step.action, ScanAction::Wait));
    let device = only_updated(step.events);
    assert_eq!(device.hostname.as_deref(), Some("nas.example.org"));
    assert_eq!(device.vendor.as_deref(), Some("Example Inc"));

    let step = session.step(ScanInput::NamesDone, at(1));
    let mut action = step.action;
    let mut events = step.events;
    for _ in 0..8 {
        let input = match action {
            ScanAction::CloseL2 => ScanInput::L2Closed(None),
            ScanAction::Probes { .. } => ScanInput::ProbesDone,
            ScanAction::Smb(_) => ScanInput::SmbDone,
            _ => break,
        };
        let step = session.step(input, at(1));
        action = step.action;
        events = step.events;
    }
    assert!(matches!(action, ScanAction::Finish));
    assert!(matches!(events.last(), Some(ScanEvent::Finished { .. })));
    let result = session.result();
    assert_eq!(result.interface, "en0");
    assert!(result.warnings.is_empty());
    assert!(result
        .devices
        .iter()
        .any(|device| device.hostname.as_deref() == Some("nas.example.org")));
}

#[test]
fn failed_sweep_falls_back_to_the_neighbor_table() {
    let (mut session, _) = start(scan_config());

    let step = session.step(ScanInput::Swept(Err("denied".to_string())), at(0));
    assert!(matches!(step.action, ScanAction::ReadTable));
    assert!(step
        .events
        .iter()
        .any(|event| matches!(event, ScanEvent::Warning(text) if text.contains("denied"))));

    let hits = vec![hit("192.168.1.7", "aa:bb:cc:00:00:07")];
    session.step(ScanInput::Table(hits), at(0));
    let result = session.result();
    assert_eq!(result.warnings.len(), 1);
    assert!(result.devices.iter().any(|device| device.ip == ip("192.168.1.7")));
}

#[test]
fn reports_out_of_place_change_nothing() {
    let (mut session, _) = start(scan_config());
    let step = session.step(ScanInput::NamesDone, at(0));
    assert!(matches!(step.action, ScanAction::Wait));
    assert!(step.events.is_empty());
}

#[test]
fn several_interfaces_are_united() {
    let mut second = scan_config();
    second.iface = Some("en1".to_string());
    let configs = match plan_scan(vec![scan_config(), second]) {
        ScanPlan::Many(configs) => configs,
        _ => panic!("two configurations are many"),
    };
    assert!(matches!(plan_scan(Vec::new()), ScanPlan::Refused(_)));
    assert!(matches!(plan_scan(vec![scan_config()]), ScanPlan::Single(_)));

    let (mut scan, event) =
        MultiScan::start(&configs, RuleDb { rules: Vec::new() }, at(0), true);
    assert!(matches!(
        event,
        ScanEvent::Started { interface, .. } if interface == "en0,en1"
    ));
    for name in ["en0", "en1"] {
        let mut device = device();
        device.interface = Some(name.to_string());
        scan.child_done(ScanResult {
            target: "192.168.1.0/24".to_string(),
            interface: name.to_string(),
            scanned_at: at(0),
            devices: vec![device],
            warnings: vec!["slow".to_string()],
        });
    }
    let (events, action) = scan.children_done();
    assert_eq!(action, MultiAction::Finish);
    assert!(matches!(events.last(), Some(ScanEvent::Finished { .. })));
    let result = scan.result();
    assert_eq!(result.devices.len(), 2);
    assert_eq!(result.interface, "en0,en1");
}

#[test]
fn rounds_count_and_pause() {
    let mut rounds = ScanRounds::new(250);
    assert!(matches!(
        rounds.begin()[0],
        ScanEvent::RoundStarted { round: 1 }
    ));
    assert!(matches!(
        rounds.failed("down"),
        ScanEvent::Warning(text) if text == "scan round 1 failed: down"
    ));
    assert!(matches!(
        rounds.finish(),
        Some(ScanEvent::Phase(text)) if text == "idle 250ms after round 1"
    ));
    assert_eq!(rounds.round, 2);
}

#[test]
fn evidence_stays_in_the_target_network() {
    let (mut session, _) = start(scan_config());
    let hits = vec![hit("192.168.1.7", "aa:bb:cc:00:00:07")];
    session.step(ScanInput::Swept(Ok(hits)), at(0));
    let known = session.devices.len();

    let named = |name: &str| MdnsInfo {
        names: vec![name.to_string()],
        os: None,
        model: None,
        services: Vec::new(),
    };
    let outside = HostUpdate::Mdns(named("stray.local"));
    let step = session.step(ScanInput::Update(ip("10.0.0.7"), outside), at(1));
    assert!(step.events.is_empty());
    assert_eq!(session.devices.len(), known);

    let inside = HostUpdate::Mdns(named("desk.local"));
    let step = session.step(ScanInput::Update(ip("192.168.1.8"), inside), at(1));
    assert_eq!(step.events.len(), 1);
    assert_eq!(session.devices.len(), known + 1);
    for device in &session.devices {
        assert!(device.ip.text().starts_with("192.168.1."));
        assert_eq!(device.interface.as_deref(), Some("en0"));
    }
}

#[test]
fn repeated_warnings_of_an_interface_are_kept_once() {
    let mut config = scan_config();
    config.iface = Some("en0".to_string());
    let configs = vec![config.clone(), config];
    let (mut scan, _) = MultiScan::start(&configs, RuleDb { rules: Vec::new() }, at(0), false);
    for _ in 0..2 {
        scan.child_done(ScanResult {
            target: "192.168.1.0/24".to_string(),
            interface: "en0".to_string(),
            scanned_at: at(0),
            devices: Vec::new(),
            warnings: vec!["slow".to_string(), "slow".to_string(), "late".to_string()],
        });
    }
    assert_eq!(scan.warnings, vec!["en0: slow", "en0: late"]);
}
