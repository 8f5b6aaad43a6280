use chrono::TimeZone;
use fing::addr::{parse_ip, parse_ipv4, IpAddr, Ipv4Addr, Ipv4Net};
use fing::dhcp::{
    default_lease_paths, normalize_mac, parse_dnsmasq_leases_at, parse_isc_lease_time, parse_isc_leases_at,
    parse_lease_file, parse_systemd_lease, read_leases, LeaseFile, LeaseInstant, LeaseRead,
};
use fing::model::Timestamp;
use fing::net::{
    default_interface_name, list_interfaces, looks_virtual_or_special, normalize_cidr_target,
    parse_cidr_target, parse_ip_route_default_interface, parse_route_get_default_interface,
    parse_target, prefix_from_netmask, select_interface, HardwareAddress, InterfaceInfo,
    RawInterface,
};

fn ip(text: &str) -> IpAddr {
    parse_ip(&text.chars().collect::<Vec<_>>()).unwrap()
}

fn v4(text: &str) -> Ipv4Addr {
    parse_ipv4(&text.chars().collect::<Vec<_>>()).unwrap()
}

fn net(text: &str) -> Ipv4Net {
    parse_cidr_target(text).unwrap()
}

fn at(year: i32, month: u32, day: u32) -> Timestamp {
    let time = chrono::Utc
        .with_ymd_and_hms(year, month, day, 0, 0, 0)
        .unwrap();
    time.timestamp() as Timestamp * 1_000_000_000
}

fn lease_end(year: i32, month: u32, day: u32, hour: u32, minute: u32, second: u32) -> LeaseInstant {
    let time = chrono::Utc
        .with_ymd_and_hms(year, month, day, hour, minute, second)
        .unwrap();
    LeaseInstant {
        seconds: time.timestamp(),
        nanos: 0,
    }
}

#[test]
fn parses_isc_dhcpd_lease() {
    let input = r#"
            lease 192.168.1.44 {
              hardware ethernet aa:bb:cc:dd:ee:ff;
              client-hostname "office";
              set vendor-class-identifier = "MSFT 5.0";
              binding state active;
              ends 6 2100/01/01 00:00:00;
            }
        "#;

    let leases = parse_isc_leases_at(input, at(2026, 1, 1));

    assert_eq!(leases.len(), 1);
    assert_eq!(leases[0].ip, ip("192.168.1.44"));
    assert_eq!(leases[0].mac.as_deref(), Some("aa:bb:cc:dd:ee:ff"));
    assert_eq!(leases[0].hostname.as_deref(), Some("office"));
    assert_eq!(leases[0].vendor_class.as_deref(), Some("MSFT 5.0"));
    assert!(leases[0].expires_at.is_some());
    assert_eq!(leases[0].expires_at, Some(lease_end(2100, 1, 1, 0, 0, 0)));
}

#[test]
fn skips_inactive_or_expired_isc_leases() {
    let input = r#"
            lease 192.168.1.44 {
              hardware ethernet aa:bb:cc:dd:ee:ff;
              client-hostname "active";
              binding state active;
              ends 6 2026/01/02 00:00:00;
            }
            lease 192.168.1.45 {
              hardware ethernet 00:11:22:33:44:55;
              client-hostname "expired";
              binding state active;
              ends 3 2025/12/31 00:00:00;
            }
            lease 192.168.1.46 {
              hardware ethernet 66:77:88:99:aa:bb;
              client-hostname "released";
              binding state free;
              ends 6 2026/01/02 00:00:00;
            }
        "#;

    let leases = parse_isc_leases_at(input, at(2026, 1, 1));

    assert_eq!(leases.len(), 1);
    assert_eq!(leases[0].hostname.as_deref(), Some("active"));
}

#[test]
fn parses_dnsmasq_lease_line() {
    let leases = parse_dnsmasq_leases_at(
        "4102444800 aa:bb:cc:dd:ee:ff 192.168.1.10 laptop 01:aa\n",
        at(2026, 1, 1),
    );

    assert_eq!(leases[0].hostname.as_deref(), Some("laptop"));
    assert_eq!(leases[0].mac.as_deref(), Some("aa:bb:cc:dd:ee:ff"));
    assert!(leases[0].expires_at.is_some());
    assert_eq!(leases[0].expires_at, Some(lease_end(2100, 1, 1, 0, 0, 0)));
}

#[test]
fn skips_expired_dnsmasq_lease_line() {
    let leases = parse_dnsmasq_leases_at(
        "1760000000 aa:bb:cc:dd:ee:ff 192.168.1.10 laptop 01:aa\n",
        at(2026, 1, 1),
    );

    assert!(leases.is_empty());
}

#[test]
fn parses_systemd_networkd_lease() {
    let leases = parse_systemd_lease("ADDRESS=192.168.1.9\nHOSTNAME=printer\nCLIENTID=abc\n");

    assert_eq!(leases[0].ip, ip("192.168.1.9"));
    assert_eq!(leases[0].hostname.as_deref(), Some("printer"));
    assert_eq!(leases[0].client_id.as_deref(), Some("abc"));
}

#[test]
fn isc_times_are_utc() {
    let time = |text: &str| parse_isc_lease_time(&text.chars().collect::<Vec<_>>());

    assert_eq!(
        time("4 2024/02/29 12:34:56"),
        Some(lease_end(2024, 2, 29, 12, 34, 56))
    );
    assert_eq!(time("4 2023/02/29 12:34:56"), None);
    assert_eq!(time("never"), None);
}

#[test]
fn leap_seconds_stay_apart_from_the_next_second() {
    let time = |text: &str| parse_isc_lease_time(&text.chars().collect::<Vec<_>>()).unwrap();
    let leap = time("6 2016/12/31 23:59:60");
    let next = time("0 2017/01/01 00:00:00");

    assert_eq!(
        leap,
        LeaseInstant {
            seconds: next.seconds - 1,
            nanos: 1_000_000_000,
        }
    );
    assert_ne!(leap, next);

    let new_year = at(2017, 1, 1);
    assert!(leap.is_after(new_year - 1));
    assert!(!leap.is_after(new_year));
    assert!(next.is_after(new_year - 1));
    assert!(!next.is_after(new_year));

    let input = "lease 192.168.1.44 {\n ends 6 2016/12/31 23:59:60;\n}\n";
    assert_eq!(
        parse_isc_leases_at(input, new_year - 1)[0].expires_at,
        Some(leap)
    );
    assert!(parse_isc_leases_at(input, new_year).is_empty());
}

#[test]
fn lease_ends_before_the_epoch_are_compared() {
    let end = LeaseInstant {
        seconds: -2,
        nanos: 250_000_000,
    };

    assert!(end.is_after(-1_750_000_001));
    assert!(!end.is_after(-1_750_000_000));
}

#[test]
fn lease_files_that_fail_become_warnings() {
    let now = at(2026, 1, 1);
    let good = LeaseFile {
        path: "/var/lib/misc/dnsmasq.leases".to_string(),
        text: "4102444800 aa:bb:cc:dd:ee:ff 192.168.1.10 laptop 01:aa\n".to_string(),
    };
    assert_eq!(parse_lease_file(&good, now).len(), 1);

    let reads = vec![
        LeaseRead {
            path: "/var/lib/misc".to_string(),
            files: Ok(vec![good]),
        },
        LeaseRead {
            path: "/missing".to_string(),
            files: Err("no such file".to_string()),
        },
    ];
    let (leases, warnings) = read_leases(&reads, now);

    assert_eq!(leases.len(), 1);
    assert_eq!(warnings.len(), 1);
    assert!(warnings[0].contains("/missing"));
    assert!(warnings[0].contains("no such file"));
}

#[test]
fn parses_macos_default_interface() {
    let output = "route to: default\ninterface: en0\n";
    assert_eq!(
        parse_route_get_default_interface(output).as_deref(),
        Some("en0")
    );
}

#[test]
fn parses_linux_default_interface() {
    let output = "default via 192.168.1.1 dev wlan0 proto dhcp src 192.168.1.5 metric 600\n";
    assert_eq!(
        parse_ip_route_default_interface(output).as_deref(),
        Some("wlan0")
    );
}

#[test]
fn computes_contiguous_prefix() {
    assert_eq!(prefix_from_netmask(v4("255.255.255.0")).unwrap(), 24);
    assert_eq!(prefix_from_netmask(v4("255.255.0.0")).unwrap(), 16);
}

#[test]
fn rejects_non_contiguous_netmask() {
    assert!(prefix_from_netmask(v4("255.0.255.0")).is_err());
}

#[test]
fn every_prefix_has_its_mask() {
    for prefix in 0..=32u8 {
        let text = format!("10.0.0.0/{prefix}");
        let mask = text.parse::<ipnet::Ipv4Net>().unwrap().netmask().to_string();
        assert_eq!(prefix_from_netmask(v4(&mask)), Ok(prefix));
    }
}

#[test]
fn default_interface_prefers_the_first_command() {
    let route = "interface: en0\n";
    let linux = "default via 192.168.1.1 dev wlan0\n";
    assert_eq!(
        default_interface_name(Some(route), Some(linux)).as_deref(),
        Some("en0")
    );
    assert_eq!(
        default_interface_name(Some("nothing\n"), Some(linux)).as_deref(),
        Some("wlan0")
    );
    assert_eq!(default_interface_name(None, None), None);
}

fn interfaces() -> Vec<InterfaceInfo> {
    let raw = |name: &str, ip: &str, mask: &str, loopback: bool| RawInterface {
        name: name.to_string(),
        ip: v4(ip),
        netmask: v4(mask),
        loopback,
    };
    list_interfaces(
        &vec![
            raw("utun4", "10.8.0.2", "255.255.255.0", false),
            raw("lo0", "127.0.0.1", "255.0.0.0", true),
            raw("en1", "192.168.2.5", "255.255.255.0", false),
        ],
        &vec![HardwareAddress {
            name: "en1".to_string(),
            mac: Some("aa:bb:cc:dd:ee:ff".to_string()),
        }],
    )
    .unwrap()
}

#[test]
fn interfaces_are_listed_without_loopback() {
    let all = interfaces();

    assert!(all.iter().all(|iface| iface.name != "lo0"));
    let en1 = all.iter().find(|iface| iface.name == "en1").unwrap();
    assert_eq!(en1.prefix, 24);
    assert_eq!(en1.network, net("192.168.2.0/24"));
    assert_eq!(en1.mac.as_deref(), Some("aa:bb:cc:dd:ee:ff"));
    assert!(looks_virtual_or_special("utun4"));
    assert!(!looks_virtual_or_special("en1"));
}

#[test]
fn interface_is_selected_by_name_then_default_then_kind() {
    let all = interfaces();

    let named = select_interface(&all, Some("utun4"), Some("en1")).unwrap();
    assert_eq!(named.name, "utun4");
    let default = select_interface(&all, None, Some("utun4")).unwrap();
    assert_eq!(default.name, "utun4");
    let ordinary = select_interface(&all, None, None).unwrap();
    assert_eq!(ordinary.name, "en1");
    assert!(select_interface(&all, Some("en9"), None).is_err());
    assert!(select_interface(&Vec::new(), None, None).is_err());
}

#[test]
fn targets_are_normalized_or_rejected() {
    assert_eq!(
        normalize_cidr_target("192.168.10.99/24").as_deref(),
        Ok("192.168.10.0/24")
    );
    assert_eq!(
        normalize_cidr_target("192.168.10.99/33"),
        Err("invalid IPv4 CIDR target: 192.168.10.99/33".to_string())
    );
    assert!(normalize_cidr_target("fe80::/64").is_err());

    let all = interfaces();
    let en1 = all.iter().find(|iface| iface.name == "en1").unwrap();
    assert_eq!(parse_target(None, en1), Ok(net("192.168.2.0/24")));
    assert_eq!(
        parse_target(Some("10.0.0.7/30"), en1),
        Ok(net("10.0.0.4/30"))
    );
}

#[test]
fn hosts_of_a_network_match_ipnet() {
    for text in ["10.0.0.0/24", "10.0.0.0/30", "10.0.0.0/31", "10.0.0.9/32"] {
        let ours = net(text)
            .hosts()
            .iter()
            .map(|host| host.text())
            .collect::<Vec<_>>();
        let theirs = text
            .parse::<ipnet::Ipv4Net>()
            .unwrap()
            .hosts()
            .map(|host| host.to_string())
            .collect::<Vec<_>>();
        assert_eq!(ours, theirs);
    }
}

#[test]
fn lease_paths_are_sorted_and_listed_once() {
    let found = vec![
        "/run/systemd/netif/leases/3".to_string(),
        "/run/systemd/netif/leases/2".to_string(),
        "/run/systemd/netif/leases/3".to_string(),
    ];
    assert_eq!(
        default_lease_paths(&found),
        vec![
            "/run/systemd/netif/leases/2",
            "/run/systemd/netif/leases/3",
            "/var/db/dhcpclient/leases",
            "/var/db/dhcpd_leases",
            "/var/lib/dhcp/dhclient.leases",
            "/var/lib/dhcp/dhcpd.leases",
            "/var/lib/dhcp3/dhclient.leases",
            "/var/lib/misc/dnsmasq.leases",
        ]
    );
}

#[test]
fn addresses_and_networks_read_back() {
    for text in ["0.0.0.0", "192.168.1.44", "10.0.0.255", "255.255.255.255"] {
        assert_eq!(v4(text).text(), text);
    }
    assert_eq!(parse_ipv4(&"192.168.1.044".chars().collect::<Vec<_>>()), None);
    assert_eq!(parse_ipv4(&"256.1.1.1".chars().collect::<Vec<_>>()), None);
    for text in ["192.168.1.0/24", "10.0.0.0/8", "0.0.0.0/0", "203.0.113.8/32"] {
        assert_eq!(net(text).text(), text);
        assert_eq!(normalize_cidr_target(text).unwrap(), text);
    }
    let normal = normalize_cidr_target("192.168.1.42/24").unwrap();
    assert_eq!(normal, "192.168.1.0/24");
    assert_eq!(normalize_cidr_target(&normal).unwrap(), normal);
}

#[test]
fn lease_mac_in_colon_form_is_stable() {
    let mac = normalize_mac(&"AABB.CCDD.EEFF".chars().collect::<Vec<_>>()).unwrap();
    assert_eq!(mac, "aa:bb:cc:dd:ee:ff");
    assert_eq!(
        normalize_mac(&mac.chars().collect::<Vec<_>>()).as_deref(),
        Some("aa:bb:cc:dd:ee:ff")
    );
    assert_eq!(normalize_mac(&"aa:bb".chars().collect::<Vec<_>>()), None);
}

#[test]
fn leases_are_sorted_and_not_repeated() {
    let now = at(2026, 1, 1);
    let file = |path: &str, text: &str| LeaseRead {
        path: path.to_string(),
        files: Ok(vec![LeaseFile {
            path: path.to_string(),
            text: text.to_string(),
        }]),
    };
    let reads = vec![
        file(
            "/a",
            "4102444800 aa:bb:cc:dd:ee:01 192.168.1.20 desk 01:aa\n4102444800 aa:bb:cc:dd:ee:02 192.168.1.3 phone 01:bb\n",
        ),
        file(
            "/b",
            "4102444800 aa:bb:cc:dd:ee:01 192.168.1.20 desk 01:aa\n",
        ),
    ];
    let (leases, warnings) = read_leases(&reads, now);

    assert!(warnings.is_empty());
    let found = leases.iter().map(|lease| lease.ip.text()).collect::<Vec<_>>();
    assert_eq!(found, vec!["192.168.1.3", "192.168.1.20"]);
    assert_eq!(leases[1].source.as_deref(), Some("/a"));
}

#[test]
fn ipv6_addresses_read_back() {
    for text in [
        "::",
        "::1",
        "fe80::1",
        "2001:db8::8:0:0:1",
        "2001:db8:0:1:1:1:1:1",
        "1:2:3:4:5:6:7:8",
        "::ffff:192.168.1.44",
    ] {
        assert_eq!(ip(text).text(), text);
    }
    assert_eq!(ip("2001:DB8:0:0:8:0:0:1").text(), "2001:db8::8:0:0:1");
    for text in ["1:2:3:4:5:6:7", "1::2::3", "12345::", "::1.2.3", "1:2:3:4:5:6:7:8:9"] {
        assert_eq!(parse_ip(&text.chars().collect::<Vec<_>>()), None);
    }
}
