use chrono::TimeZone;
use fing::addr::{parse_ip, parse_ipv4, IpAddr};
use fing::model::{Device, Guess, Timestamp};
use fing::net::{parse_cidr_target, InterfaceInfo};
use fing::output::live::columns::{
    device_row, device_row_style, visible_columns, visible_columns_for_devices, DeviceColumn,
    DeviceTableColumn, RowTone,
};
use fing::output::live::devices::{device_log_summary, device_matches_search, DeviceKey};
use fing::output::live::interfaces::{
    desired_interface_panel_width, interface_column_kinds, interface_panel_height,
    interface_panel_width, interface_row, interface_row_style, top_panel_height,
    visible_interface_columns, InterfaceColumn, InterfaceTableColumn, InterfaceTone,
    LiveInterfacePanel, INTERFACE_PANEL_VISIBLE_ROWS,
};
use fing::output::live::layout::{
    corrected_table_offset, fit_cell, panel_content_width, shrink_widths_to_fit, spread_width,
    table_spacing_width,
};
use fing::output::live::logs::{
    help_line, source_footer_line, source_legend, styled_log_line, LiveLogEntry, LiveLogLevel,
    TextSpan, Tone,
};
use fing::output::live::table::{
    KeyCode, KeyEvent, KeyModifiers, LiveInputAction, LiveOutcome, LiveTable,
    MAX_LIVE_LOG_LINES,
};
use fing::output::privacy::{MacAddressDisplay, OutputOptions};
use fing::scanner::types::{ScanEvent, ScanProfile};

const NONE: KeyModifiers = KeyModifiers {
    control: false,
    shift: false,
    other: false,
};
const CONTROL: KeyModifiers = KeyModifiers {
    control: true,
    shift: false,
    other: false,
};

fn ip(text: &str) -> IpAddr {
    parse_ip(&text.chars().collect::<Vec<_>>()).unwrap()
}

fn at(hour: u32, minute: u32, second: u32) -> Timestamp {
    let time = chrono::Utc
        .with_ymd_and_hms(2026, 1, 1, hour, minute, second)
        .unwrap();
    time.timestamp() as Timestamp * 1_000_000_000
}

fn value(guess: &Option<Guess>) -> Option<&str> {
    guess.as_ref().map(|guess| guess.value.as_str())
}

fn masking() -> OutputOptions {
    OutputOptions {
        mac: MacAddressDisplay::MaskLower24,
    }
}

fn empty_table() -> LiveTable {
    LiveTable::new(OutputOptions::default(), LiveInterfacePanel::default())
}

fn apply(app: &mut LiveTable, event: ScanEvent) {
    app.apply(event, at(0, 0, 0), "00:00:00");
}

fn report(app: &mut LiveTable, device: Device) {
    apply(app, ScanEvent::DeviceUpdated(Box::new(device)));
}

fn seen_on_en0(address: &str) -> Device {
    let mut device = Device::new(ip(address), at(0, 0, 0));
    device.interface = Some("en0".to_string());
    device
}

fn press(app: &mut LiveTable, code: KeyCode, modifiers: KeyModifiers) -> LiveInputAction {
    app.handle_key(KeyEvent { code, modifiers }, at(0, 0, 0))
}

fn type_key(app: &mut LiveTable, key: char) -> LiveInputAction {
    press(app, KeyCode::Char(key), NONE)
}

fn line_to_string(line: &[TextSpan]) -> String {
    line.iter().map(|span| span.text.as_str()).collect()
}

fn sample_interface_panel() -> LiveInterfacePanel {
    let iface = |name: &str, ip: &str, mask: &str, prefix: u8, network: &str, mac: &str| {
        InterfaceInfo {
            name: name.to_string(),
            ip: parse_ipv4(&ip.chars().collect::<Vec<_>>()).unwrap(),
            netmask: parse_ipv4(&mask.chars().collect::<Vec<_>>()).unwrap(),
            prefix,
            network: parse_cidr_target(network).unwrap(),
            mac: Some(mac.to_string()),
        }
    };
    LiveInterfacePanel {
        interfaces: vec![
            iface(
                "en0",
                "192.168.22.197",
                "255.255.252.0",
                22,
                "192.168.20.0/22",
                "22:7c:bf:92:90:95",
            ),
            iface(
                "en7",
                "192.168.22.206",
                "255.255.252.0",
                22,
                "192.168.20.0/22",
                "00:e0:4c:96:80:5b",
            ),
            iface(
                "utun4",
                "100.100.152.126",
                "255.255.255.255",
                32,
                "100.100.152.126/32",
                "00:00:00:00:00:00",
            ),
        ],
        default_interface: Some("en7".to_string()),
        scan_interfaces: vec!["en7".to_string()],
    }
}

fn has_column(columns: &[DeviceTableColumn], kind: DeviceColumn) -> bool {
    columns.iter().any(|column| column.kind == kind)
}

fn column_width(columns: &[DeviceTableColumn], kind: DeviceColumn) -> u16 {
    columns
        .iter()
        .find(|column| column.kind == kind)
        .map(|column| column.width)
        .unwrap_or_else(|| panic!("missing {kind:?} column"))
}

fn total_device_table_width(columns: &[DeviceTableColumn]) -> u16 {
    columns
        .iter()
        .map(|column| column.width)
        .sum::<u16>()
        .saturating_add(table_spacing_width(columns.len()))
}

fn interface_column_width(columns: &[InterfaceTableColumn], kind: InterfaceColumn) -> u16 {
    columns
        .iter()
        .find(|column| column.kind == kind)
        .map(|column| column.width)
        .unwrap_or_else(|| panic!("missing {kind:?} column"))
}

fn total_interface_table_width(columns: &[InterfaceTableColumn]) -> u16 {
    columns
        .iter()
        .map(|column| column.width)
        .sum::<u16>()
        .saturating_add(table_spacing_width(columns.len()))
}

#[test]
fn table_offset_keeps_cursor_moving_inside_viewport() {
    assert_eq!(corrected_table_offset(0, 0, 5), 0);
    assert_eq!(corrected_table_offset(1, 0, 5), 0);
    assert_eq!(corrected_table_offset(4, 0, 5), 0);
}

#[test]
fn table_offset_scrolls_only_at_edges() {
    assert_eq!(corrected_table_offset(5, 0, 5), 1);
    assert_eq!(corrected_table_offset(2, 4, 5), 2);
}

#[test]
fn tui_cells_are_trimmed_to_stable_widths() {
    assert_eq!(fit_cell("abcdef".to_string(), 0), "");
    assert_eq!(fit_cell("abcdef".to_string(), 4), "abc~");
    assert_eq!(fit_cell("abc".to_string(), 4), "abc");
}

#[test]
fn widths_are_spread_and_shrunk_to_the_total() {
    assert_eq!(spread_width(10, 3), vec![4, 3, 3]);
    assert_eq!(spread_width(2, 3), vec![1, 1, 0]);
    assert!(spread_width(2, 0).is_empty());

    let mut widths = vec![10, 5, 5];
    shrink_widths_to_fit(&mut widths, vec![4, 4, 4], 15);
    assert_eq!(widths, vec![7, 4, 4]);
    shrink_widths_to_fit(&mut widths, vec![4, 4, 4], 9);
    assert_eq!(widths, vec![3, 3, 3]);
    shrink_widths_to_fit(&mut widths, vec![4, 4, 4], 20);
    assert_eq!(widths, vec![3, 3, 3]);
}

#[test]
fn tui_allocates_identity_columns_from_remaining_width() {
    let wide = visible_columns(180);
    assert_eq!(column_width(&wide, DeviceColumn::Ip), 15);
    assert_eq!(column_width(&wide, DeviceColumn::Interface), 8);
    assert_eq!(column_width(&wide, DeviceColumn::Mac), 17);
    assert_eq!(column_width(&wide, DeviceColumn::Confidence), 6);
    assert_eq!(column_width(&wide, DeviceColumn::Sources), 10);
    assert_eq!(column_width(&wide, DeviceColumn::Seen), 8);

    let wide_identity_widths = [
        column_width(&wide, DeviceColumn::Vendor),
        column_width(&wide, DeviceColumn::Model),
        column_width(&wide, DeviceColumn::Name),
        column_width(&wide, DeviceColumn::Os),
    ];
    let min = wide_identity_widths.into_iter().min().unwrap();
    let max = wide_identity_widths.into_iter().max().unwrap();
    assert!(max - min <= 1);
    assert!(min > column_width(&wide, DeviceColumn::Sources));

    let medium = visible_columns(132);
    assert!(has_column(&medium, DeviceColumn::Vendor));
    assert!(has_column(&medium, DeviceColumn::Os));
    assert!(has_column(&medium, DeviceColumn::Sources));
    assert!(!has_column(&medium, DeviceColumn::Model));

    let medium_identity_widths = [
        column_width(&medium, DeviceColumn::Vendor),
        column_width(&medium, DeviceColumn::Name),
        column_width(&medium, DeviceColumn::Os),
    ];
    let min = medium_identity_widths.into_iter().min().unwrap();
    let max = medium_identity_widths.into_iter().max().unwrap();
    assert!(max - min <= 1);
    assert_eq!(total_device_table_width(&medium), panel_content_width(132));
}

#[test]
fn tui_rebalances_identity_columns_toward_truncated_values() {
    let mut device = Device::new(ip("192.168.22.195"), at(0, 0, 0));
    device.vendor = Some("Amazon Technologies Inc.".to_string());
    device.set_model_guess("RS819", "upnp", 85);
    device.add_name("7ff41467-6f7e-607c-3a1d-4f8fad4a", "mdns", 90);
    device.set_os_guess("Windows/SMB capable", "netbios", 90);
    let devices = vec![&device];

    let equal = visible_columns(180);
    let dynamic = visible_columns_for_devices(180, &devices, OutputOptions::default());

    assert_eq!(total_device_table_width(&dynamic), panel_content_width(180));
    assert_eq!(column_width(&dynamic, DeviceColumn::Ip), 15);
    assert!(column_width(&dynamic, DeviceColumn::Name) > column_width(&equal, DeviceColumn::Name));
    assert!(
        column_width(&dynamic, DeviceColumn::Name)
            >= "7ff41467-6f7e-607c-3a1d-4f8fad4a".len() as u16
    );
    assert!(
        column_width(&dynamic, DeviceColumn::Vendor) >= "Amazon Technologies Inc.".len() as u16
    );
    assert!(column_width(&dynamic, DeviceColumn::Os) >= "Windows/SMB capable".len() as u16);
    assert!(
        column_width(&dynamic, DeviceColumn::Model) < column_width(&equal, DeviceColumn::Model)
    );
}

#[test]
fn tui_keeps_ipv4_column_wide_enough_for_full_address() {
    let narrow = visible_columns(80);

    assert_eq!(column_width(&narrow, DeviceColumn::Ip), 15);
    assert_eq!(
        fit_cell(
            "255.255.255.255".to_string(),
            column_width(&narrow, DeviceColumn::Ip) as usize
        ),
        "255.255.255.255"
    );
    assert_eq!(total_device_table_width(&narrow), panel_content_width(80));
}

#[test]
fn seen_column_shows_the_local_clock() {
    let device = Device::new(ip("192.168.1.10"), at(0, 0, 0));
    let column = DeviceTableColumn {
        kind: DeviceColumn::Seen,
        width: 8,
    };

    assert_eq!(
        column.value(&device, OutputOptions::default(), "13:00:00"),
        "13:00:00"
    );
}

#[test]
fn top_row_shrinks_interfaces_and_gives_live_scan_the_rest() {
    let panel = sample_interface_panel();
    let width = interface_panel_width(180, &panel, OutputOptions::default());

    assert!(width < 90);
    assert!(180 - width > width);
    assert_eq!(
        width,
        desired_interface_panel_width(
            &interface_column_kinds(),
            &panel,
            OutputOptions::default()
        )
    );
    assert_eq!(interface_panel_width(60, &panel, OutputOptions::default()), 36);
    assert_eq!(interface_panel_width(20, &panel, OutputOptions::default()), 20);
}

#[test]
fn interface_columns_use_minimum_content_widths() {
    let panel = sample_interface_panel();
    let width = interface_panel_width(180, &panel, OutputOptions::default());
    let columns = visible_interface_columns(width, &panel, OutputOptions::default());

    assert_eq!(interface_column_width(&columns, InterfaceColumn::Use), 4);
    assert_eq!(
        interface_column_width(&columns, InterfaceColumn::Default),
        3
    );
    assert_eq!(interface_column_width(&columns, InterfaceColumn::Name), 5);
    assert_eq!(interface_column_width(&columns, InterfaceColumn::Ipv4), 15);
    assert_eq!(
        interface_column_width(&columns, InterfaceColumn::Network),
        18
    );
    assert_eq!(interface_column_width(&columns, InterfaceColumn::Mac), 17);
    assert_eq!(
        total_interface_table_width(&columns),
        panel_content_width(width)
    );
}

#[test]
fn narrow_interface_panel_leaves_columns_out() {
    let panel = sample_interface_panel();
    let columns = visible_interface_columns(60, &panel, OutputOptions::default());
    assert_eq!(columns.len(), 5);
    let columns = visible_interface_columns(20, &panel, OutputOptions::default());
    assert_eq!(columns.len(), 2);
    assert!(total_interface_table_width(&columns) <= panel_content_width(20));
}

#[test]
fn interface_panel_reserves_six_visible_rows() {
    assert_eq!(interface_panel_height(), INTERFACE_PANEL_VISIBLE_ROWS + 3);
    assert_eq!(top_panel_height(), interface_panel_height());
}

#[test]
fn rows_are_toned_by_what_is_known() {
    let mut device = Device::new(ip("192.168.1.10"), at(0, 0, 0));
    assert_eq!(device_row_style(&device), RowTone::Unknown);
    device.vendor = Some("Example Inc".to_string());
    assert_eq!(device_row_style(&device), RowTone::VendorOnly);
    device.add_name("host", "mdns", 90);
    assert_eq!(device_row_style(&device), RowTone::Identified);
    let columns = visible_columns(180);
    let (_, tone) = device_row(&device, &columns, OutputOptions::default(), "", false);
    assert_eq!(tone, RowTone::Stale);

    assert_eq!(interface_row_style(true, false), InterfaceTone::Scanned);
    assert_eq!(interface_row_style(false, true), InterfaceTone::Default);
    assert_eq!(interface_row_style(false, false), InterfaceTone::Other);
}

#[test]
fn tui_log_lines_show_timestamps_and_keep_green_out_of_live_log() {
    let entry = LiveLogEntry {
        timestamp: at(12, 34, 56),
        level: LiveLogLevel::Info,
        message: "scan started target=192.168.20.0/22 iface=en7".to_string(),
    };

    let line = styled_log_line(&entry, "12:34:56", 120);

    assert_eq!(line[0].text, "12:34:56");
    assert_eq!(line[0].tone, Tone::Time);
    assert_eq!(line[2].text, "scan");
    assert_eq!(line[2].tone, Tone::Log(LiveLogLevel::Info));
    assert_eq!(line[6].text, "target=");
    assert_eq!(line[6].tone, Tone::LogKey(LiveLogLevel::Info));
    assert_eq!(line[7].text, "192.168.20.0/22");
    assert_eq!(line[7].tone, Tone::Log(LiveLogLevel::Info));
    assert_eq!(line[9].text, "iface=");
    assert_eq!(line[9].tone, Tone::LogKey(LiveLogLevel::Info));
    assert_eq!(line[10].text, "en7");
    assert_eq!(line[10].tone, Tone::Log(LiveLogLevel::Info));
    assert!(line
        .iter()
        .all(|span| span.tone != Tone::Label && span.tone != Tone::Value));
}

#[test]
fn device_live_log_summary_is_dense_and_single_line_safe() {
    let mut device = Device::new(ip("192.168.22.153"), at(12, 34, 56));
    device.interface = Some("en7".to_string());
    device.mac = Some("aa:bb:cc:dd:ee:ff".to_string());
    device.vendor = Some("Sony Corporation".to_string());
    device.set_model_guess("BRAVIA 4K VH2", "upnp", 85);
    device.add_name("Living Room TV", "upnp", 85);
    device.set_os_guess("Android TV", "upnp", 85);
    device.add_service("http", "deep", Some(80), 70);
    device.add_evidence("upnp", "manufacturer", "Sony Corporation", 80);

    let summary = device_log_summary(&device, masking(), "12:34:56");

    assert!(summary.contains("ip=192.168.22.153"));
    assert!(summary.contains("iface=en7"));
    assert!(summary.contains("mac=aa:bb:cc:**:**:**"));
    assert!(summary.contains("vendor=Sony_Corporation"));
    assert!(summary.contains("model=BRAVIA_4K_VH2"));
    assert!(summary.contains("name=Living_Room_TV"));
    assert!(summary.contains("os=Android_TV"));
    assert!(summary.contains("conf="));
    assert!(summary.contains("sources="));
    assert!(summary.contains("seen=12:34:56"));
    assert!(summary.contains("svc=1"));
    assert!(summary.contains("ev=1"));
}

#[test]
fn live_log_lines_truncate_to_panel_width() {
    let entry = LiveLogEntry {
        timestamp: at(12, 34, 56),
        level: LiveLogLevel::Device,
        message: "device updated ip=192.168.22.153 iface=en7 vendor=Sony_Corporation model=BRAVIA_4K_VH2 name=Living_Room_TV os=Android_TV sources=AOU".to_string(),
    };

    let line = styled_log_line(&entry, "12:34:56", 72);
    let text = line_to_string(&line);

    assert_eq!(text.chars().count(), 72);
    assert!(text.ends_with('~'));
    assert!(text.contains("ip=192.168.22.153"));
}

#[test]
fn live_tui_omits_device_type_column() {
    let mut device = Device::new(ip("192.168.1.10"), at(0, 0, 0));
    device.set_device_type_guess("smart-home", "identity_rule", 68);

    let columns = visible_columns(180);
    assert!(!columns.iter().any(|column| column.title() == "Type"));

    let (cells, _) = device_row(&device, &columns, OutputOptions::default(), "", true);
    assert!(!cells.iter().any(|cell| cell.contains("smart-home")));
    let mut app = empty_table();
    report(&mut app, device);
    assert!(!app.logs[0].message.contains("type="));
    assert!(!app.logs[0].message.contains("smart-home"));
}

#[test]
fn source_column_uses_single_letter_source_codes() {
    let mut device = Device::new(ip("192.168.1.10"), at(0, 0, 0));
    device.mac = Some("aa:bb:cc:dd:ee:ff".to_string());
    device.vendor = Some("Example Inc".to_string());
    device.add_name("host.local", "mdns", 90);
    device.add_evidence("deep", "port", "443", 55);
    device.add_evidence("local", "hostname", "host", 95);

    let sources = DeviceTableColumn {
        kind: DeviceColumn::Sources,
        width: 10,
    }
    .value(&device, OutputOptions::default(), "");
    assert_eq!(sources, "ADLMO");
}

#[test]
fn interface_rows_mask_mac_addresses() {
    let mut panel = sample_interface_panel();
    panel.scan_interfaces = vec!["en0".to_string()];
    panel.interfaces[0].mac = Some("aa:bb:cc:dd:ee:ff".to_string());
    let width = interface_panel_width(180, &panel, masking());
    let columns = visible_interface_columns(width, &panel, masking());

    let (cells, tone) = interface_row(&panel.interfaces[0], &columns, &panel, masking());

    assert_eq!(
        cells,
        vec![
            "scan",
            "-",
            "en0",
            "192.168.22.197",
            "192.168.20.0/22",
            "aa:bb:cc:**:**:**"
        ]
    );
    assert_eq!(tone, InterfaceTone::Scanned);
    let (_, tone) = interface_row(&panel.interfaces[1], &columns, &panel, masking());
    assert_eq!(tone, InterfaceTone::Default);
}

#[test]
fn continuous_live_updates_do_not_erase_existing_identity() {
    let first_seen = at(0, 0, 0);
    let later_seen = at(0, 0, 5);
    let ip = ip("192.168.1.44");
    let mut enriched = Device::new(ip, first_seen);
    enriched.interface = Some("en0".to_string());
    enriched.mac = Some("aa:bb:cc:dd:ee:ff".to_string());
    enriched.vendor = Some("Example Inc".to_string());
    enriched.add_name("workstation.local", "mdns", 90);
    enriched.set_os_guess("macOS", "mdns", 85);
    enriched.add_service("_ssh._tcp.local", "mdns", Some(22), 75);

    let mut app = empty_table();
    report(&mut app, enriched);

    let mut next_round_arp_only = Device::new(ip, later_seen);
    next_round_arp_only.interface = Some("en0".to_string());
    next_round_arp_only.mac = Some("aa:bb:cc:dd:ee:ff".to_string());
    next_round_arp_only.vendor = Some("Example Inc".to_string());
    assert_eq!(app.seen_after(&next_round_arp_only), later_seen);
    report(&mut app, next_round_arp_only);

    let stored = &app
        .row(&DeviceKey {
            interface: "en0".to_string(),
            ip,
        })
        .expect("live table should keep the device row")
        .device;

    assert_eq!(stored.hostname.as_deref(), Some("workstation"));
    assert_eq!(value(&stored.os), Some("macOS"));
    assert!(stored
        .services
        .iter()
        .any(|service| service.name == "_ssh._tcp.local"));
    assert_eq!(stored.last_seen, later_seen);
    assert_eq!(app.logs.len(), 1);
}

#[test]
fn continuous_round_marks_unseen_devices_stale() {
    let mut app = empty_table();

    apply(&mut app, ScanEvent::RoundStarted { round: 1 });
    for address in ["192.168.1.10", "192.168.1.20"] {
        report(&mut app, seen_on_en0(address));
    }

    apply(&mut app, ScanEvent::RoundStarted { round: 2 });
    let stale_key = DeviceKey {
        interface: "en0".to_string(),
        ip: ip("192.168.1.10"),
    };
    let refreshed_key = DeviceKey {
        interface: "en0".to_string(),
        ip: ip("192.168.1.20"),
    };
    assert!(!app.device_is_current_round(&stale_key));
    assert!(!app.device_is_current_round(&refreshed_key));

    report(&mut app, seen_on_en0("192.168.1.20"));

    assert!(!app.device_is_current_round(&stale_key));
    assert!(app.device_is_current_round(&refreshed_key));
}

#[test]
fn continuous_live_replaces_same_ip_when_mac_changes() {
    let first_seen = at(0, 0, 0);
    let later_seen = at(0, 5, 0);
    let ip = ip("192.168.1.44");
    let key = DeviceKey {
        interface: "en0".to_string(),
        ip,
    };
    let mut app = empty_table();

    apply(&mut app, ScanEvent::RoundStarted { round: 1 });
    let mut first = Device::new(ip, first_seen);
    first.interface = Some("en0".to_string());
    first.mac = Some("aa:bb:cc:dd:ee:ff".to_string());
    first.vendor = Some("Old Vendor".to_string());
    first.add_name("old-host.local", "mdns", 90);
    first.add_service("http", "deep", Some(80), 70);
    report(&mut app, first);

    apply(&mut app, ScanEvent::RoundStarted { round: 2 });
    let mut replacement = Device::new(ip, later_seen);
    replacement.interface = Some("en0".to_string());
    replacement.mac = Some("00:11:22:33:44:55".to_string());
    replacement.vendor = Some("New Vendor".to_string());
    report(&mut app, replacement);

    let stored = &app
        .row(&key)
        .expect("device row should remain keyed by IP")
        .device;
    assert_eq!(stored.mac.as_deref(), Some("00:11:22:33:44:55"));
    assert_eq!(stored.vendor.as_deref(), Some("New Vendor"));
    assert!(stored.hostname.is_none());
    assert!(stored.services.is_empty());
    assert_eq!(stored.first_seen, later_seen);
    assert_eq!(stored.last_seen, later_seen);
    assert!(app.device_is_current_round(&key));
    assert!(app.logs.last().unwrap().message.starts_with("device replaced "));
}

#[test]
fn live_tui_selects_the_most_recently_refreshed_device() {
    let mut app = empty_table();

    for address in ["192.168.1.10", "192.168.1.30", "192.168.1.20"] {
        report(&mut app, seen_on_en0(address));
    }

    assert_eq!(app.selected, 1);

    report(&mut app, seen_on_en0("192.168.1.30"));

    assert_eq!(app.selected, 2);
}

#[test]
fn live_tui_cursor_is_user_navigable() {
    let mut app = empty_table();

    for address in ["192.168.1.10", "192.168.1.30", "192.168.1.20"] {
        report(&mut app, seen_on_en0(address));
    }

    assert_eq!(app.selected, 1);
    for (code, modifiers, selected) in [
        (KeyCode::Down, NONE, 2),
        (KeyCode::Up, NONE, 1),
        (KeyCode::Char('j'), NONE, 2),
        (KeyCode::Char('k'), NONE, 1),
        (KeyCode::Char('d'), CONTROL, 2),
        (KeyCode::Char('u'), CONTROL, 0),
        (KeyCode::Home, NONE, 0),
        (KeyCode::End, NONE, 2),
        (KeyCode::PageUp, NONE, 0),
        (KeyCode::PageDown, NONE, 2),
    ] {
        assert_eq!(press(&mut app, code, modifiers), LiveInputAction::Continue);
        assert_eq!(app.selected, selected);
    }
}

#[test]
fn live_tui_ctrl_z_pause_freezes_auto_follow_until_escape_resumes() {
    let mut app = empty_table();

    for address in ["192.168.1.10", "192.168.1.20"] {
        report(&mut app, seen_on_en0(address));
    }

    assert_eq!(app.selected, 1);
    assert_eq!(
        press(&mut app, KeyCode::Char('z'), CONTROL),
        LiveInputAction::Pause
    );
    assert!(app.paused);
    assert_eq!(
        press(&mut app, KeyCode::Up, NONE),
        LiveInputAction::Continue
    );
    assert_eq!(app.selected, 0);

    let mut refreshed = seen_on_en0("192.168.1.20");
    refreshed.add_name("updated", "mdns", 90);
    report(&mut app, refreshed);
    assert_eq!(app.selected, 0);

    let footer = line_to_string(&source_legend(140, app.footer_indicator()));
    assert!(footer.trim_end().ends_with("Paused"));
    assert!(footer.ends_with(' '));

    assert_eq!(press(&mut app, KeyCode::Esc, NONE), LiveInputAction::Resume);
    assert!(!app.paused);
}

#[test]
fn live_tui_filters_devices_with_case_insensitive_partial_search() {
    let mut app = empty_table();

    let mut nas = seen_on_en0("192.168.1.10");
    nas.mac = Some("aa:bb:cc:dd:ee:ff".to_string());
    nas.vendor = Some("Synology Incorporated".to_string());
    nas.set_model_guess("RS819", "upnp", 85);
    nas.add_name("utakata", "mdns", 90);
    nas.set_os_guess("DSM", "upnp", 85);

    let mut laptop = seen_on_en0("192.168.1.20");
    laptop.mac = Some("00:e0:4c:96:80:5b".to_string());
    laptop.vendor = Some("Apple, Inc.".to_string());
    laptop.add_name("Shizk-Book", "mdns", 90);
    laptop.set_os_guess("macOS", "mdns", 85);

    report(&mut app, nas);
    report(&mut app, laptop);

    assert_eq!(type_key(&mut app, '/'), LiveInputAction::Continue);
    for key in "apple".chars() {
        assert_eq!(type_key(&mut app, key), LiveInputAction::Continue);
    }

    {
        let visible = app.visible_device_entries();
        assert_eq!(visible.len(), 1);
        assert_eq!(visible[0].device.vendor.as_deref(), Some("Apple, Inc."));
    }

    let footer = line_to_string(&source_legend(180, app.footer_indicator()));
    assert!(footer.contains("filter=/apple"));
    assert!(footer.starts_with(" Sources:"));
    assert!(footer.trim_end().ends_with("filter=/apple"));
    assert!(footer.ends_with(' '));

    assert_eq!(
        press(&mut app, KeyCode::Backspace, NONE),
        LiveInputAction::Continue
    );
    assert_eq!(app.search_query, "appl");
    assert_eq!(
        press(&mut app, KeyCode::Char('x'), CONTROL),
        LiveInputAction::Continue
    );
    assert_eq!(app.search_query, "appl");
}

#[test]
fn source_footer_truncates_sources_before_right_aligned_filter() {
    let line = source_footer_line(36, "filter=/apple".to_string());
    let text = line_to_string(&line);

    assert_eq!(text.chars().count(), 36);
    assert!(text.starts_with(" Sources:"));
    assert!(text.trim_end().ends_with("filter=/apple"));
    assert!(text.ends_with(' '));
    assert!(text.contains('~'));
    assert!(!text.contains("K=Cache"));
}

#[test]
fn bars_fill_any_width() {
    for width in 0..200 {
        let footer = source_footer_line(width, "filter=/apple".to_string());
        assert_eq!(line_to_string(&footer).chars().count(), width);
        let help = help_line(width, "12:34:56");
        assert_eq!(line_to_string(&help).chars().count(), width);
    }
}

#[test]
fn source_footer_right_indicator_uses_green_chrome() {
    let filter_line = source_footer_line(80, "filter=/apple".to_string());
    let filter_start = filter_line
        .iter()
        .position(|span| span.text == "filter=")
        .unwrap();
    assert_eq!(filter_line[filter_start].tone, Tone::Label);
    assert_eq!(filter_line[filter_start + 1].tone, Tone::Label);

    let paused_line = source_footer_line(80, "Paused".to_string());
    let paused = paused_line
        .iter()
        .find(|span| span.text == "Paused")
        .unwrap();
    assert_eq!(paused.tone, Tone::Label);
}

#[test]
fn live_tui_search_matches_ip_mac_model_name_and_os() {
    let mut device = Device::new(ip("192.168.1.10"), at(0, 0, 0));
    device.mac = Some("aa:bb:cc:dd:ee:ff".to_string());
    device.vendor = Some("Synology Incorporated".to_string());
    device.set_model_guess("RS819", "upnp", 85);
    device.add_name("utakata", "mdns", 90);
    device.set_os_guess("DSM", "upnp", 85);

    for query in ["192.168.1", "AA:BB", "synology", "rs819", "TAKA", "dsm"] {
        assert!(
            device_matches_search(&device, query),
            "{query} should match searchable device fields"
        );
    }
    assert!(!device_matches_search(&device, "android"));
}

#[test]
fn live_tui_escape_clears_search_without_exiting() {
    let mut app = empty_table();

    assert_eq!(type_key(&mut app, '/'), LiveInputAction::Continue);
    assert_eq!(type_key(&mut app, 'n'), LiveInputAction::Continue);
    assert_eq!(app.search_query, "n");

    assert_eq!(
        press(&mut app, KeyCode::Esc, NONE),
        LiveInputAction::Continue
    );
    assert!(app.search_query.is_empty());
    assert!(!app.search_editing);

    assert_eq!(
        press(&mut app, KeyCode::Esc, NONE),
        LiveInputAction::Continue
    );
    assert_eq!(type_key(&mut app, 'q'), LiveInputAction::Continue);
    assert_eq!(
        press(&mut app, KeyCode::Char('c'), CONTROL),
        LiveInputAction::Exit
    );
    assert_eq!(app.outcome(), LiveOutcome::Cancelled);
    assert!(app.outcome().is_cancelled());
}

#[test]
fn live_tui_moves_status_summary_into_live_scan_panel() {
    let mut app = empty_table();
    apply(
        &mut app,
        ScanEvent::Started {
            target: "192.168.20.0/22".to_string(),
            interface: "en7".to_string(),
            profile: ScanProfile::Normal,
        },
    );
    apply(&mut app, ScanEvent::Phase("ARP discovery".to_string()));

    assert_eq!(
        line_to_string(&app.status_line()),
        "status=scanning  profile=normal  phase=ARP discovery"
    );
    assert_eq!(app.logs.len(), 1);
    assert_eq!(
        app.logs[0].message,
        "scan started target=192.168.20.0/22 iface=en7 profile=normal"
    );
    assert_eq!(app.interface_panel.scan_interfaces, vec!["en7"]);
}

#[test]
fn live_tui_reserves_bottom_row_for_source_legend() {
    let app = empty_table();

    let last_row = line_to_string(&source_legend(180, app.footer_indicator()));

    assert!(last_row.contains("Sources:"));
    assert!(last_row.starts_with(" Sources:"));
    assert!(last_row.contains("A=ARP"));
    assert!(last_row.contains("O=OUI"));
    assert!(last_row.contains("M=mDNS"));
}

#[test]
fn live_tui_reserves_top_row_for_keyboard_help() {
    let first_row = line_to_string(&help_line(180, "12:34:56"));

    assert!(first_row.contains("Keys:"));
    assert!(first_row.starts_with(" Keys:"));
    assert!(first_row.contains("Ctrl-Z=Pause"));
    assert!(!first_row.contains("w=Pause"));
    assert!(!first_row.contains("Esc=Resume"));
    assert!(first_row.contains("j=Down k=Up"));
    assert!(first_row.contains("Ctrl-D=PageDown"));
    assert!(first_row.contains("Ctrl-U=PageUp"));
    assert!(!first_row.contains("Ctrl-D/U"));
    assert!(!first_row.contains("Up/Down,j/k"));
    assert!(!first_row.contains('|'));
    assert!(first_row.contains("Ctrl-C=Quit"));
    assert!(first_row.contains("Now="));
    assert!(first_row.ends_with(' '));
    assert!(!first_row.contains("Live Scan"));
}

#[test]
fn help_line_truncates_to_available_width() {
    let line = help_line(48, "12:34:56");
    let text = line_to_string(&line);

    assert_eq!(text.chars().count(), 48);
    assert!(text.starts_with(" Keys: /=Filter j=Down k=Up"));
    assert!(text.contains("Now=12:34:56"));
    assert!(text.trim_end().ends_with("Now=12:34:56"));
    assert!(text.ends_with(' '));
}

#[test]
fn help_line_styles_keys_label_as_chrome() {
    let line = help_line(120, "12:34:56");

    assert_eq!(line[1].text, "Keys:");
    assert_eq!(line[1].tone, Tone::Label);
    assert_eq!(line[2].tone, Tone::Value);
    assert!(line_to_string(&line).contains("Ctrl-D=PageDown"));
    assert!(line_to_string(&line).contains("Ctrl-U=PageUp"));
    assert!(line_to_string(&line).contains("Now=12:34:56"));
}

#[test]
fn live_tui_log_discards_old_entries_and_autoscrolls() {
    let mut app = empty_table();
    for index in 0..(MAX_LIVE_LOG_LINES + 5) {
        app.push_log(
            at(0, 0, 0),
            LiveLogLevel::Info,
            &format!("log-{index:03}"),
        );
    }

    assert_eq!(app.logs.len(), MAX_LIVE_LOG_LINES);
    assert_eq!(app.logs[0].message, "log-005");

    let shown = &app.logs[app.first_visible_log()..];
    assert!(shown.iter().any(|entry| entry.message == "log-204"));
    assert!(shown.iter().any(|entry| entry.message == "log-199"));
    assert!(!shown.iter().any(|entry| entry.message == "log-198"));
}

#[test]
fn finished_scan_replaces_the_rows() {
    let mut app = empty_table();
    report(&mut app, seen_on_en0("192.168.1.10"));
    apply(&mut app, ScanEvent::Warning("slow".to_string()));
    apply(&mut app, ScanEvent::Warning("slow".to_string()));
    assert_eq!(app.warnings.len(), 1);

    apply(
        &mut app,
        ScanEvent::Finished {
            devices: vec![seen_on_en0("192.168.1.30"), seen_on_en0("192.168.1.20")],
            warnings: vec!["slow".to_string(), "late".to_string()],
        },
    );

    assert!(app.finished);
    assert_eq!(app.outcome(), LiveOutcome::Completed);
    assert_eq!(app.rows.len(), 2);
    assert_eq!(app.rows[0].key.ip, ip("192.168.1.20"));
    assert_eq!(app.selected, 0);
    assert_eq!(
        app.logs.last().unwrap().message,
        "scan complete devices=2 warnings=2"
    );
    assert_eq!(
        app.logs
            .iter()
            .filter(|entry| entry.message == "warning slow")
            .count(),
        1
    );
}

#[test]
fn scan_that_stops_early_is_noted() {
    let mut app = empty_table();
    app.stop(at(0, 0, 0));
    assert!(app.finished);
    assert_eq!(app.phase, "stopped");
    assert_eq!(app.warnings, vec!["scan stopped before completion"]);
    app.stop(at(0, 0, 0));
    assert_eq!(app.logs.len(), 1);
}

#[test]
fn cursor_stays_on_screen() {
    let mut app = empty_table();
    for index in 1..=20 {
        report(&mut app, seen_on_en0(&format!("192.168.1.{index}")));
    }
    assert_eq!(app.selected, 19);
    assert_eq!(app.update_table_offset(8), 15);
    press(&mut app, KeyCode::Home, NONE);
    assert_eq!(app.update_table_offset(8), 0);
}
