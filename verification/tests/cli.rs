use fing::cli::{
    live_interface_panel, output_options_from_args, scan_configs_from_args,
    scan_targets_from_args, scan_timeout, should_run_live_tui, FingerprintSelection,
    FingerprintSourceArg, LiveOutputArg, OutputArg, ScanArgs,
};
use fing::output::privacy::MacAddressDisplay;
use fing::scanner::types::{ScanConfig, ScanProfile};

fn scan_args() -> ScanArgs {
    ScanArgs {
        dhcp_leases: Vec::new(),
        fingerprints: Vec::new(),
        format: OutputArg::Table,
        live: LiveOutputArg::Auto,
        mask_mac: false,
        concurrency: 128,
        scan_interval_ms: 0,
        profile: ScanProfile::Normal,
        ranges: Vec::new(),
        timeout_ms: None,
        snmp_community: "public".to_string(),
        interfaces: vec!["en0".to_string()],
    }
}

fn configs(args: &ScanArgs) -> Result<Vec<ScanConfig>, String> {
    scan_configs_from_args(args, 1, "cache.json".to_string(), "oui.json".to_string())
}

#[test]
fn builds_configs_for_every_interface_range_pair() {
    let mut args = scan_args();
    args.interfaces = vec!["en0".to_string(), "en0.100".to_string()];
    args.ranges = vec!["192.168.10.99/24".to_string(), "10.10.40.0/28".to_string()];

    let configs = configs(&args).unwrap();

    assert_eq!(configs.len(), 4);
    assert_eq!(configs[0].iface.as_deref(), Some("en0"));
    assert_eq!(configs[0].target.as_deref(), Some("192.168.10.0/24"));
    assert_eq!(configs[1].iface.as_deref(), Some("en0"));
    assert_eq!(configs[1].target.as_deref(), Some("10.10.40.0/28"));
    assert_eq!(configs[2].iface.as_deref(), Some("en0.100"));
    assert_eq!(configs[2].target.as_deref(), Some("192.168.10.0/24"));
    assert_eq!(configs[3].iface.as_deref(), Some("en0.100"));
    assert_eq!(configs[3].target.as_deref(), Some("10.10.40.0/28"));
}

#[test]
fn default_scan_has_no_explicit_range() {
    let args = scan_args();

    let configs = configs(&args).unwrap();

    assert_eq!(configs.len(), 1);
    assert_eq!(configs[0].iface.as_deref(), Some("en0"));
    assert_eq!(configs[0].target, None);
    assert!(configs[0].oui);
    assert!(configs[0].rdns);
    assert!(configs[0].mdns);
    assert!(configs[0].netbios);
    assert!(configs[0].upnp);
    assert!(configs[0].snmp);
    assert!(!configs[0].lldp);
    assert!(!configs[0].cdp);
    assert!(configs[0].dhcp);
}

#[test]
fn deep_scan_enables_l2_neighbor_protocols_by_default() {
    let mut args = scan_args();
    args.profile = ScanProfile::Deep;

    let configs = configs(&args).unwrap();

    assert!(configs[0].lldp);
    assert!(configs[0].cdp);
}

#[test]
fn invalid_range_is_reported() {
    let mut args = scan_args();
    args.ranges = vec!["192.168.10.0/24".to_string(), "10.0.0.0/40".to_string()];

    assert_eq!(
        scan_targets_from_args(&args),
        Err("invalid IPv4 CIDR target: 10.0.0.0/40".to_string())
    );
    assert!(configs(&args).is_err());
}

#[test]
fn live_tui_mode_is_one_tristate_option() {
    let mut args = scan_args();
    args.live = LiveOutputArg::Never;

    assert_eq!(args.live, LiveOutputArg::Never);
    assert!(should_run_live_tui(
        OutputArg::Table,
        LiveOutputArg::Auto,
        true
    ));
    assert!(!should_run_live_tui(
        OutputArg::Table,
        LiveOutputArg::Auto,
        false
    ));
    assert!(should_run_live_tui(
        OutputArg::Table,
        LiveOutputArg::Always,
        false
    ));
    assert!(!should_run_live_tui(
        OutputArg::Table,
        LiveOutputArg::Never,
        true
    ));
    assert!(!should_run_live_tui(
        OutputArg::Json,
        LiveOutputArg::Always,
        true
    ));
}

#[test]
fn parses_mac_masking_option() {
    let mut args = scan_args();
    assert_eq!(output_options_from_args(&args).mac, MacAddressDisplay::Full);

    args.mask_mac = true;

    assert!(args.mask_mac);
    assert_eq!(
        output_options_from_args(&args).mac,
        MacAddressDisplay::MaskLower24
    );
}

#[test]
fn fingerprint_sources_are_an_allowlist_when_specified() {
    let mut args = scan_args();
    args.fingerprints = vec![
        FingerprintSourceArg::Dhcp,
        FingerprintSourceArg::Mdns,
        FingerprintSourceArg::Lldp,
        FingerprintSourceArg::Cdp,
        FingerprintSourceArg::Snmp,
    ];

    let configs = configs(&args).unwrap();
    assert!(!configs[0].oui);
    assert!(!configs[0].rdns);
    assert!(configs[0].mdns);
    assert!(!configs[0].netbios);
    assert!(!configs[0].upnp);
    assert!(configs[0].snmp);
    assert!(configs[0].lldp);
    assert!(configs[0].cdp);
    assert!(configs[0].dhcp);
}

#[test]
fn fast_profile_leaves_neighbor_protocols_out() {
    let selection = FingerprintSelection::from_args(&Vec::new(), ScanProfile::Fast);
    assert!(selection.oui);
    assert!(!selection.lldp);
    assert!(!selection.cdp);
}

#[test]
fn timeout_comes_from_the_option_or_the_profile() {
    let mut args = scan_args();
    assert_eq!(scan_timeout(&args), 1200);
    args.timeout_ms = Some(75);
    assert_eq!(scan_timeout(&args), 75);
}

#[test]
fn live_panel_lists_scanned_interfaces_once() {
    let mut args = scan_args();
    args.interfaces = vec!["en1".to_string(), "en0".to_string()];
    args.ranges = vec!["10.0.0.0/30".to_string(), "10.0.1.0/30".to_string()];
    let configs = configs(&args).unwrap();

    let panel = live_interface_panel(&configs, Vec::new(), Some("en7".to_string()));
    assert_eq!(panel.scan_interfaces, vec!["en0", "en1"]);
    assert_eq!(panel.default_interface.as_deref(), Some("en7"));

    let panel = live_interface_panel(&Vec::new(), Vec::new(), Some("en7".to_string()));
    assert_eq!(panel.scan_interfaces, vec!["en7"]);
}
