use fing::addr::{parse_ip, IpAddr};
use fing::enrich::mdns::{
    build_mdns_query, mdns_questions, parse_mdns_packet, read_dns_name, records_to_mdns_info,
    service_instance_name, service_type_name, write_dns_name, MdnsCollector, MdnsRecord,
};
use fing::enrich::netbios::{build_netbios_query, parse_netbios_response, NETBIOS_TRANSACTION};
use fing::enrich::oui::{
    lookup_vendor, normalize_oui_prefix, oui_db_json, oui_db_of, parse_ieee_oui_csv, parse_oui_db,
    parse_oui_table,
};
use fing::enrich::rdns::{ptr_hostname, reverse_lookup_name};

fn ip(text: &str) -> IpAddr {
    parse_ip(&text.chars().collect::<Vec<_>>()).unwrap()
}

#[test]
fn normalizes_oui_prefix() {
    assert_eq!(
        normalize_oui_prefix("aa:bb:cc:dd:ee:ff").as_deref(),
        Some("AABBCC")
    );
    assert_eq!(normalize_oui_prefix("aabb").as_deref(), None);
}

#[test]
fn parses_ieee_oui_csv_header_and_rows() {
    let csv = "Registry,Assignment,Organization Name,Organization Address\nMA-L,AABBCC,\"Example, Inc\",Somewhere\nMA-L,112233,Other,Elsewhere\n";
    let db = parse_ieee_oui_csv(csv).unwrap();

    assert_eq!(db.get("AABBCC").as_deref(), Some("Example, Inc"));
    assert_eq!(db.get("112233").as_deref(), Some("Other"));
    assert_eq!(db.get("445566"), None);
    assert_eq!(
        lookup_vendor("aa-bb-cc-00-00-01", &db).as_deref(),
        Some("Example, Inc")
    );
    assert_eq!(lookup_vendor("44:55:66:00:00:01", &db), None);
}

#[test]
fn parses_ieee_oui_csv() {
    let csv = "Registry,Assignment,Organization Name,Organization Address\nMA-L,AABBCC,Example Inc,Somewhere\n";
    let db = parse_ieee_oui_csv(csv).unwrap();

    assert_eq!(db.get("AABBCC").as_deref(), Some("Example Inc"));
}

#[test]
fn ragged_oui_csv_is_rejected() {
    let csv = "Registry,Assignment,Organization Name\nMA-L,AABBCC\n";
    assert!(parse_ieee_oui_csv(csv).is_err());
}

#[test]
fn oui_table_is_read_by_its_heads() {
    let texts = |row: [&str; 2]| row.iter().map(|cell| cell.to_string()).collect::<Vec<_>>();
    let db = parse_oui_table(
        &texts(["Organization Name", "Assignment"]),
        &vec![texts(["Example Inc", "aabbcc"]), texts(["", "112233"])],
    );

    assert_eq!(db.get("AABBCC").as_deref(), Some("Example Inc"));
}

#[test]
fn builds_fqdn_reverse_lookup_name() {
    let ipv4 = reverse_lookup_name(ip("192.168.1.20"));
    let ipv6 = reverse_lookup_name(ip("2001:db8::1"));

    assert_eq!(ipv4, "20.1.168.192.in-addr.arpa.");
    assert!(ipv6.ends_with('.'));
    assert!(ipv6.ends_with(".ip6.arpa."));
    assert_eq!(
        ipv6,
        "1.0.0.0.0.0.0.0.0.0.0.0.0.0.0.0.0.0.0.0.0.0.0.0.8.b.d.0.1.0.0.2.ip6.arpa."
    );
}

#[test]
fn reverse_lookup_names_are_those_of_the_resolver() {
    let expected = hickory_resolver::proto::rr::Name::from(
        "192.168.1.20/32".parse::<ipnet::Ipv4Net>().unwrap().addr(),
    );
    assert_eq!(
        reverse_lookup_name(ip("192.168.1.20")).trim_end_matches('.'),
        expected.to_ascii().trim_end_matches('.')
    );
    let expected = hickory_resolver::proto::rr::Name::from(
        "2001:db8::abcd/128".parse::<ipnet::Ipv6Net>().unwrap().addr(),
    );
    assert_eq!(
        reverse_lookup_name(ip("2001:db8::abcd")).trim_end_matches('.'),
        expected.to_ascii().trim_end_matches('.')
    );
}

#[test]
fn first_pointer_answer_names_the_host() {
    assert_eq!(
        ptr_hostname(&vec![
            None,
            Some("nas.example.org.".to_string()),
            Some("other.".to_string())
        ])
        .as_deref(),
        Some("nas.example.org")
    );
    assert_eq!(ptr_hostname(&vec![None]), None);
}

fn address_packet() -> Vec<u8> {
    let mut packet = Vec::new();
    packet.extend_from_slice(&0_u16.to_be_bytes());
    packet.extend_from_slice(&0x8400_u16.to_be_bytes());
    packet.extend_from_slice(&1_u16.to_be_bytes());
    packet.extend_from_slice(&1_u16.to_be_bytes());
    packet.extend_from_slice(&0_u16.to_be_bytes());
    packet.extend_from_slice(&0_u16.to_be_bytes());
    write_dns_name(&mut packet, "host.local").unwrap();
    packet.extend_from_slice(&1_u16.to_be_bytes());
    packet.extend_from_slice(&1_u16.to_be_bytes());
    packet.extend_from_slice(&0xc00c_u16.to_be_bytes());
    packet.extend_from_slice(&1_u16.to_be_bytes());
    packet.extend_from_slice(&1_u16.to_be_bytes());
    packet.extend_from_slice(&120_u32.to_be_bytes());
    packet.extend_from_slice(&4_u16.to_be_bytes());
    packet.extend_from_slice(&[192, 168, 1, 20]);
    packet
}

#[test]
fn parses_mdns_a_record_with_compressed_name() {
    let records = parse_mdns_packet(&address_packet());
    assert_eq!(
        records,
        vec![MdnsRecord::Address {
            host: "host.local".to_string(),
            ip: ip("192.168.1.20")
        }]
    );
}

#[test]
fn mdns_txt_for_service_instance_enriches_srv_target_host() {
    let records = vec![
        MdnsRecord::Address {
            host: "printer.local".to_string(),
            ip: ip("192.168.1.20"),
        },
        MdnsRecord::Srv {
            name: "Office._ipp._tcp.local".to_string(),
            target: "printer.local".to_string(),
            port: 631,
        },
        MdnsRecord::Txt {
            name: "Office._ipp._tcp.local".to_string(),
            attrs: vec!["model=OfficeJet Pro".to_string()],
        },
    ];

    let info = records_to_mdns_info(&records);
    let device = &info
        .iter()
        .find(|host| host.ip == ip("192.168.1.20"))
        .expect("mDNS info should be keyed by the SRV target host IP")
        .info;

    assert_eq!(device.model.as_deref(), Some("OfficeJet Pro"));
    assert!(device.names.iter().any(|name| name == "Office"));
    assert!(device
        .services
        .iter()
        .any(|service| { service.name == "ipp" && service.port == Some(631) }));
}

#[test]
fn mdns_names_are_read_back() {
    let mut packet = vec![0xff; 3];
    write_dns_name(&mut packet, "printer._ipp._tcp.local").unwrap();
    let end = packet.len();
    assert_eq!(
        read_dns_name(&packet, 3),
        Some(("printer._ipp._tcp.local".to_string(), end))
    );
    assert_eq!(read_dns_name(&[0xc0, 0x00], 0), None);
    assert!(write_dns_name(&mut packet, &"a".repeat(64)).is_err());
}

#[test]
fn mdns_query_counts_its_questions() {
    let query = build_mdns_query(&["_ipp._tcp.local", "_http._tcp.local"]).unwrap();
    assert_eq!(&query[4..6], &[0, 2]);
    assert_eq!(service_instance_name("Office._ipp._tcp.local"), "Office");
    assert_eq!(service_type_name("Office._ipp._tcp.local"), "ipp");
}

#[test]
fn mdns_collector_reports_what_packets_add() {
    let mut collector = MdnsCollector::new();
    let hosts = collector.receive(&address_packet());
    assert_eq!(hosts.len(), 1);
    assert_eq!(hosts[0].ip, ip("192.168.1.20"));
    assert!(collector.receive(&[0; 3]).len() <= 1);
}

#[test]
fn parses_netbios_name_table_response() {
    let query = build_netbios_query(0x1234);
    let mut response = Vec::new();
    response.extend_from_slice(&0x1234_u16.to_be_bytes());
    response.extend_from_slice(&0x8500_u16.to_be_bytes());
    response.extend_from_slice(&1_u16.to_be_bytes());
    response.extend_from_slice(&1_u16.to_be_bytes());
    response.extend_from_slice(&0_u16.to_be_bytes());
    response.extend_from_slice(&0_u16.to_be_bytes());
    response.extend_from_slice(&query[12..]);
    response.extend_from_slice(&0xc00c_u16.to_be_bytes());
    response.extend_from_slice(&0x0021_u16.to_be_bytes());
    response.extend_from_slice(&0x0001_u16.to_be_bytes());
    response.extend_from_slice(&30_u32.to_be_bytes());
    response.extend_from_slice(&37_u16.to_be_bytes());
    response.push(2);
    let mut name = [b' '; 15];
    name[..6].copy_from_slice(b"OFFICE");
    response.extend_from_slice(&name);
    response.push(0x00);
    response.extend_from_slice(&0_u16.to_be_bytes());
    let mut group = [b' '; 15];
    group[..9].copy_from_slice(b"WORKGROUP");
    response.extend_from_slice(&group);
    response.push(0x00);
    response.extend_from_slice(&0x8000_u16.to_be_bytes());

    let parsed = parse_netbios_response(&response);
    assert_eq!(parsed.transaction_id, 0x1234);
    assert_eq!(parsed.names, vec!["OFFICE".to_string()]);
}

#[test]
fn mdns_hosts_are_reported_once() {
    let mut collector = MdnsCollector::new();
    assert_eq!(collector.receive(&address_packet()).len(), 1);
    assert!(collector.receive(&address_packet()).is_empty());
    assert!(collector.receive(&[0; 12]).is_empty());
    assert_eq!(collector.reported.len(), 1);
}

#[test]
fn standing_queries_are_well_formed() {
    let questions = mdns_questions();
    let query = build_mdns_query(&questions).unwrap();
    assert_eq!(&query[4..6], &[0, 6]);
    assert_eq!(
        read_dns_name(&query, 12).unwrap().0,
        "_services._dns-sd._udp.local"
    );
    assert_eq!(&build_netbios_query(NETBIOS_TRANSACTION)[..2], &[0x40, 0x00]);
}

#[test]
fn vendor_database_file_is_read() {
    let db = parse_oui_db(br#"{"AABBCC": "Example Inc", "00112\u0033": "Caf\u00e9 \"Net\""}"#).unwrap();
    assert_eq!(db.entries.len(), 2);
    assert_eq!(
        lookup_vendor("aa:bb:cc:00:00:01", &db).as_deref(),
        Some("Example Inc")
    );
    assert_eq!(
        lookup_vendor("00-11-23-00-00-01", &db).as_deref(),
        Some("Caf\u{e9} \"Net\"")
    );
    assert_eq!(lookup_vendor("11:22:33:00:00:01", &db), None);
    assert!(parse_oui_db(b"{}").unwrap().entries.is_empty());
}

#[test]
fn later_members_of_a_vendor_file_win() {
    let db = parse_oui_db(br#"{"AABBCC": "Old", "AABBCC": "New"}"#).unwrap();
    assert_eq!(db.entries.len(), 1);
    assert_eq!(db.get("AABBCC").as_deref(), Some("New"));
}

#[test]
fn broken_vendor_files_are_refused() {
    assert!(parse_oui_db(b"").unwrap_err().contains("EOF"));
    assert!(parse_oui_db(b"{\"AABBCC\": 7}")
        .unwrap_err()
        .contains("expected a string"));
    assert!(parse_oui_db(b"[]").is_err());
    assert!(parse_oui_db(b"{} x").is_err());
    assert!(parse_oui_db(&[b'{', b'"', 0xff, b'"', b':', b'"', b'"', b'}']).is_err());
}

#[test]
fn vendor_database_reads_back() {
    let csv = "Registry,Assignment,Organization Name\nMA-L,AABBCC,Example Inc\n\
               MA-L,001122,\"Caf\u{e9} \"\"Net\"\" \\ Co\"\nMA-L,AABBCC,Renamed Inc\n";
    let db = parse_ieee_oui_csv(csv).unwrap();
    let bytes = oui_db_json(&db).unwrap();
    let read = parse_oui_db(&bytes).unwrap();

    assert_eq!(read.entries.len(), 2);
    assert_eq!(read.get("AABBCC").as_deref(), Some("Renamed Inc"));
    assert_eq!(
        read.get("001122").as_deref(),
        Some("Caf\u{e9} \"Net\" \\ Co")
    );
    assert_eq!(read.get("334455"), db.get("334455"));
    assert_eq!(
        String::from_utf8(oui_db_json(&oui_db_of(&vec![("AABBCC".to_string(), "A\n".to_string())])).unwrap())
            .unwrap(),
        "{\n  \"AABBCC\": \"A\\n\"\n}"
    );
}
