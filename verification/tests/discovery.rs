use fing::addr::{parse_ipv4, IpAddr, Ipv4Addr, Ipv4Net};
use fing::discovery::cdp::parse_cdp_frame;
use fing::discovery::l2::{L2Advertisement, L2Listener, L2Protocols};
use fing::discovery::lldp::parse_lldp_frame;
use fing::discovery::{
    arp_batch_size, arp_hit_matches_target_interface, arp_retry_passes, arp_table,
    arp_target_hosts, build_arp_request, parse_arp_reply, parse_arp_table, record_arp_reply,
    retryable_datalink_read_error, unresolved_targets, ArpAction, ArpHit, ArpSweep, ReadFailure,
};
use fing::net::parse_cidr_target;
use pnet::packet::arp::{ArpHardwareTypes, ArpOperations, ArpPacket, MutableArpPacket};
use pnet::packet::ethernet::{EtherTypes, EthernetPacket, MutableEthernetPacket};
use pnet::packet::{MutablePacket, Packet};
use pnet::util::MacAddr;

const CDP_MULTICAST: [u8; 6] = [0x01, 0x00, 0x0c, 0xcc, 0xcc, 0xcc];
const LLC_SNAP_HEADER: [u8; 8] = [0xaa, 0xaa, 0x03, 0x00, 0x00, 0x0c, 0x20, 0x00];

fn v4(text: &str) -> Ipv4Addr {
    parse_ipv4(&text.chars().collect::<Vec<_>>()).unwrap()
}

fn net(text: &str) -> Ipv4Net {
    parse_cidr_target(text).unwrap()
}

fn cdp_frame(payload: &[u8]) -> Vec<u8> {
    let mut frame = Vec::new();
    frame.extend_from_slice(&CDP_MULTICAST);
    frame.extend_from_slice(&[0xaa, 0xbb, 0xcc, 0xdd, 0xee, 0xff]);
    frame.extend_from_slice(&((LLC_SNAP_HEADER.len() + payload.len()) as u16).to_be_bytes());
    frame.extend_from_slice(&LLC_SNAP_HEADER);
    frame.extend_from_slice(payload);
    frame
}

fn cdp_header() -> Vec<u8> {
    vec![2, 180, 0, 0]
}

fn tlv(tlv_type: u16, value: &[u8]) -> Vec<u8> {
    let mut tlv = Vec::new();
    tlv.extend_from_slice(&tlv_type.to_be_bytes());
    tlv.extend_from_slice(&((value.len() + 4) as u16).to_be_bytes());
    tlv.extend_from_slice(value);
    tlv
}

fn address_tlv(octets: [u8; 4]) -> Vec<u8> {
    let mut value = Vec::new();
    value.extend_from_slice(&1_u32.to_be_bytes());
    value.extend_from_slice(&[1, 1, 0xcc]);
    value.extend_from_slice(&4_u16.to_be_bytes());
    value.extend_from_slice(&octets);
    value
}

fn lldp_frame() -> Vec<u8> {
    let mut frame = vec![
        0x01, 0x80, 0xc2, 0x00, 0x00, 0x0e, // destination
        0xaa, 0xbb, 0xcc, 0xdd, 0xee, 0xff, // source
        0x88, 0xcc, // ethertype
        0x02, 0x07, 0x04, 0x00, 0x11, 0x22, 0x33, 0x44, 0x55, // chassis
        0x04, 0x08, 0x05, b'G', b'i', b'1', b'/', b'0', b'/', b'1', // port
        0x06, 0x02, 0x00, 0x78, // ttl
        0x0a, 0x07, b's', b'w', b'i', b't', b'c', b'h', b'1', // name
        0x0e, 0x04, 0x00, 0x14, 0x00, 0x04, // capabilities
        0x10, 0x0c, 0x05, 0x01, 192, 168, 1, 2, 0x02, 0x00, 0x00, 0x00, 0x05,
        0x00, // management address
        0x00, 0x00, // end
    ];
    frame.extend_from_slice(&[0, 0, 0, 0]);
    frame
}

fn arp_reply_packet(sender_ip: &str, sender_mac: MacAddr) -> [u8; 42] {
    let mut buffer = [0_u8; 42];
    let mut ethernet_packet = MutableEthernetPacket::new(&mut buffer).unwrap();
    ethernet_packet.set_destination(MacAddr::broadcast());
    ethernet_packet.set_source(sender_mac);
    ethernet_packet.set_ethertype(EtherTypes::Arp);

    let mut arp_packet = MutableArpPacket::new(ethernet_packet.payload_mut()).unwrap();
    arp_packet.set_hardware_type(ArpHardwareTypes::Ethernet);
    arp_packet.set_protocol_type(EtherTypes::Ipv4);
    arp_packet.set_hw_addr_len(6);
    arp_packet.set_proto_addr_len(4);
    arp_packet.set_operation(ArpOperations::Reply);
    arp_packet.set_sender_hw_addr(sender_mac);
    arp_packet.set_sender_proto_addr(sender_ip.parse().unwrap());
    arp_packet.set_target_hw_addr(MacAddr::zero());
    arp_packet.set_target_proto_addr("192.168.1.2".parse().unwrap());
    buffer
}

#[test]
fn parses_cdp_frame_with_identity_and_addresses() {
    let payload = [
        cdp_header(),
        tlv(0x0001, b"switch1"),
        tlv(0x0002, &address_tlv([192, 168, 1, 2])),
        tlv(0x0003, b"GigabitEthernet1/0/1"),
        tlv(0x0004, &0x0000_0009_u32.to_be_bytes()),
        tlv(0x0005, b"Cisco IOS Software"),
        tlv(0x0006, b"cisco WS-C2960X"),
        tlv(0x000a, &100_u16.to_be_bytes()),
        tlv(0x000b, &[1]),
        tlv(0x0016, &address_tlv([192, 168, 1, 3])),
    ]
    .concat();
    let frame = cdp_frame(&payload);

    let info = parse_cdp_frame(&frame).unwrap();

    assert_eq!(info.source_mac, "aa:bb:cc:dd:ee:ff");
    assert_eq!(info.version, 2);
    assert_eq!(info.ttl, 180);
    assert_eq!(info.device_id.as_deref(), Some("switch1"));
    assert_eq!(info.port_id.as_deref(), Some("GigabitEthernet1/0/1"));
    assert_eq!(
        info.addresses,
        vec![IpAddr::V4(Ipv4Addr::new(192, 168, 1, 2))]
    );
    assert_eq!(
        info.management_addresses,
        vec![IpAddr::V4(Ipv4Addr::new(192, 168, 1, 3))]
    );
    assert_eq!(info.capabilities, vec!["router", "switch"]);
    assert_eq!(info.native_vlan, Some(100));
    assert_eq!(info.duplex.as_deref(), Some("full"));
    assert_eq!(info.software_version.as_deref(), Some("Cisco IOS Software"));
    assert_eq!(info.platform.as_deref(), Some("cisco WS-C2960X"));
}

#[test]
fn ignores_non_cdp_frames() {
    let frame = [0xff, 0xff, 0xff, 0xff, 0xff, 0xff];

    assert!(parse_cdp_frame(&frame).is_none());
}

#[test]
fn parses_cdp_frame_with_ethernet_padding() {
    let payload = [
        cdp_header(),
        tlv(0x0001, b"switch1"),
        tlv(0x0003, b"GigabitEthernet1/0/1"),
    ]
    .concat();
    let mut frame = cdp_frame(&payload);
    frame.extend_from_slice(&[0_u8; 32]);

    let info = parse_cdp_frame(&frame).unwrap();

    assert_eq!(info.device_id.as_deref(), Some("switch1"));
    assert_eq!(info.port_id.as_deref(), Some("GigabitEthernet1/0/1"));
}

#[test]
fn parses_lldp_frame_with_management_address_and_capabilities() {
    let info = parse_lldp_frame(&lldp_frame()).unwrap();

    assert_eq!(info.source_mac, "aa:bb:cc:dd:ee:ff");
    assert_eq!(info.chassis_mac.as_deref(), Some("00:11:22:33:44:55"));
    assert_eq!(info.port_id.as_deref(), Some("Gi1/0/1"));
    assert_eq!(info.ttl, Some(120));
    assert_eq!(info.system_name.as_deref(), Some("switch1"));
    assert_eq!(info.enabled_capabilities, vec!["bridge"]);
    assert_eq!(
        info.management_addresses,
        vec![IpAddr::V4(Ipv4Addr::new(192, 168, 1, 2))]
    );
}

#[test]
fn ignores_non_lldp_ethernet_frames() {
    let frame = [
        0xff, 0xff, 0xff, 0xff, 0xff, 0xff, 0xaa, 0xbb, 0xcc, 0xdd, 0xee, 0xff, 0x08, 0x06,
    ];

    assert!(parse_lldp_frame(&frame).is_none());
}

#[test]
fn listener_reports_each_neighbor_once() {
    let both = L2Protocols {
        lldp: true,
        cdp: true,
    };
    let mut listener = L2Listener::new(both);

    assert!(matches!(
        listener.receive(&lldp_frame()),
        Some(L2Advertisement::Lldp(_))
    ));
    assert!(listener.receive(&lldp_frame()).is_none());
    assert_eq!(listener.heard.lldp.len(), 1);
    assert!(L2Listener::repeat(both, &lldp_frame()).is_some());

    let cdp_only = L2Protocols {
        lldp: false,
        cdp: true,
    };
    assert!(L2Listener::new(cdp_only).receive(&lldp_frame()).is_none());
}

#[test]
fn parses_macos_arp_table() {
    let input = "? (192.168.1.1) at aa:bb:cc:dd:ee:ff on en0 ifscope [ethernet]\n";
    let hits = parse_arp_table(input);

    assert_eq!(hits.len(), 1);
    assert_eq!(hits[0].ip, v4("192.168.1.1"));
    assert_eq!(hits[0].mac, "aa:bb:cc:dd:ee:ff");
    assert_eq!(hits[0].interface.as_deref(), Some("en0"));
}

#[test]
fn parses_linux_neigh_table() {
    let input = "192.168.1.20 dev wlan0 lladdr 11:22:33:44:55:66 REACHABLE\n";
    let hits = parse_arp_table(input);

    assert_eq!(hits.len(), 1);
    assert_eq!(hits[0].ip, v4("192.168.1.20"));
    assert_eq!(hits[0].mac, "11:22:33:44:55:66");
    assert_eq!(hits[0].interface.as_deref(), Some("wlan0"));
}

#[test]
fn arp_table_fallback_requires_matching_interface() {
    let target = net("192.168.1.0/24");
    let input = "? (192.168.1.1) at aa:bb:cc:dd:ee:ff on en0 ifscope [ethernet]\n\
             ? (192.168.1.2) at 11:22:33:44:55:66 on en1 ifscope [ethernet]\n";
    let hits = parse_arp_table(input);
    let filtered = hits
        .into_iter()
        .filter(|hit| arp_hit_matches_target_interface(hit, target, "en0"))
        .collect::<Vec<_>>();

    assert_eq!(filtered.len(), 1);
    assert_eq!(filtered[0].ip, v4("192.168.1.1"));
    assert_eq!(arp_table(&vec![input.to_string()], target, "en0"), filtered);
}

#[test]
fn arp_reply_recording_dedupes_callback_by_sender_ip() {
    let target = net("192.168.1.0/24");
    let packet = arp_reply_packet(
        "192.168.1.20",
        MacAddr::new(0xaa, 0xbb, 0xcc, 0xdd, 0xee, 0xff),
    );
    let mut hits = Vec::new();
    let mut callbacks = 0;

    for _ in 0..2 {
        if record_arp_reply(&packet, target, &mut hits).is_some() {
            callbacks += 1;
        }
    }

    assert_eq!(callbacks, 1);
    assert_eq!(hits.len(), 1);
    assert_eq!(hits[0].mac, "aa:bb:cc:dd:ee:ff");
}

#[test]
fn arp_replies_from_other_networks_are_ignored() {
    let packet = arp_reply_packet(
        "10.0.0.20",
        MacAddr::new(0xaa, 0xbb, 0xcc, 0xdd, 0xee, 0xff),
    );
    let mut hits = Vec::new();

    assert!(record_arp_reply(&packet, net("192.168.1.0/24"), &mut hits).is_none());
    assert!(hits.is_empty());
    assert!(parse_arp_reply(&packet[..41]).is_none());
}

#[test]
fn arp_request_is_what_pnet_reads() {
    let mac = [0x02, 0x11, 0x22, 0x33, 0x44, 0x55];
    let request = build_arp_request(&mac, v4("192.168.1.2"), v4("192.168.1.20"));

    let ethernet = EthernetPacket::new(&request).unwrap();
    assert_eq!(ethernet.get_destination(), MacAddr::broadcast());
    assert_eq!(ethernet.get_source().to_string(), "02:11:22:33:44:55");
    assert_eq!(ethernet.get_ethertype(), EtherTypes::Arp);
    let arp = ArpPacket::new(ethernet.payload()).unwrap();
    assert_eq!(arp.get_operation(), ArpOperations::Request);
    assert_eq!(arp.get_hardware_type(), ArpHardwareTypes::Ethernet);
    assert_eq!(arp.get_protocol_type(), EtherTypes::Ipv4);
    assert_eq!(arp.get_sender_hw_addr().to_string(), "02:11:22:33:44:55");
    assert_eq!(arp.get_sender_proto_addr().to_string(), "192.168.1.2");
    assert_eq!(arp.get_target_proto_addr().to_string(), "192.168.1.20");
}

#[test]
fn arp_batch_size_scales_down_for_smaller_ranges() {
    assert_eq!(arp_batch_size(32), 16);
    assert_eq!(arp_batch_size(128), 16);
    assert_eq!(arp_batch_size(2048), 32);
    assert_eq!(arp_batch_size(8192), 64);
    assert_eq!(arp_batch_size(32768), 128);
}

#[test]
fn arp_retry_passes_add_an_extra_retry_for_deeper_timeouts() {
    assert_eq!(arp_retry_passes(128, 2500), 3);
    assert_eq!(arp_retry_passes(128, 1200), 2);
    assert_eq!(arp_retry_passes(128, 650), 1);
}

#[test]
fn arp_retry_passes_only_retry_when_timeout_budget_allows_it() {
    assert_eq!(arp_retry_passes(16, 1200), 1);
    assert_eq!(arp_retry_passes(128, 650), 1);
    assert_eq!(arp_retry_passes(128, 1200), 2);
}

#[test]
fn unresolved_targets_skip_ips_already_recorded() {
    let targets = vec![
        v4("192.168.1.10"),
        v4("192.168.1.11"),
        v4("192.168.1.12"),
    ];
    let hits = vec![ArpHit {
        ip: v4("192.168.1.11"),
        mac: "aa:bb:cc:dd:ee:ff".to_string(),
        interface: None,
    }];

    assert_eq!(
        unresolved_targets(&targets, &hits),
        vec![v4("192.168.1.10"), v4("192.168.1.12")]
    );
}

#[test]
fn retries_only_transient_datalink_read_errors() {
    assert!(retryable_datalink_read_error(ReadFailure::TimedOut));
    assert!(retryable_datalink_read_error(ReadFailure::WouldBlock));
    assert!(retryable_datalink_read_error(ReadFailure::Interrupted));
    assert!(!retryable_datalink_read_error(ReadFailure::Other));
}

#[test]
fn sweep_asks_every_host_and_no_host_that_answered() {
    let target = net("192.168.1.0/28");
    let source = v4("192.168.1.2");
    let mut sweep = ArpSweep::new(target, source, 1200);
    let expected = arp_target_hosts(target, source);
    assert_eq!(expected.len(), 13);

    let mut asked = Vec::new();
    let mut waited = Vec::new();
    for _ in 0..100 {
        match sweep.next_action() {
            ArpAction::Send(batch) => asked.extend(batch),
            ArpAction::Receive(window) => waited.push(window),
            ArpAction::Finished => {}
        }
    }

    assert_eq!(asked, expected);
    assert_eq!(waited.last(), Some(&1200));
    assert!(matches!(sweep.next_action(), ArpAction::Finished));
}

#[test]
fn sweep_retries_only_unanswered_hosts() {
    let target = net("192.168.1.0/25");
    let mut sweep = ArpSweep::new(target, v4("192.168.1.2"), 1200);
    let packet = arp_reply_packet(
        "192.168.1.20",
        MacAddr::new(0xaa, 0xbb, 0xcc, 0xdd, 0xee, 0xff),
    );
    assert_eq!(sweep.receive(&packet).unwrap().ip, v4("192.168.1.20"));
    assert!(sweep.receive(&packet).is_none());

    let mut asked = Vec::new();
    for _ in 0..1000 {
        if let ArpAction::Send(batch) = sweep.next_action() {
            asked.extend(batch);
        }
    }

    assert!(!asked.contains(&v4("192.168.1.20")));
    assert_eq!(asked.len(), 2 * 124);
}

#[test]
fn own_requests_are_not_taken_for_replies() {
    let mac = [0x02, 0, 0x5e, 0x10, 0, 1];
    let request = build_arp_request(&mac, v4("192.168.1.2"), v4("192.168.1.44"));
    assert!(parse_arp_reply(&request).is_none());

    let mut reply = request.clone();
    reply[21] = 2;
    let found = parse_arp_reply(&reply).unwrap();
    assert_eq!(found.ip, v4("192.168.1.2"));
    assert_eq!(found.mac, "02:00:5e:10:00:01");

    let mut hits = Vec::new();
    assert!(record_arp_reply(&reply, net("10.0.0.0/8"), &mut hits).is_none());
    assert!(record_arp_reply(&reply, net("192.168.1.0/24"), &mut hits).is_some());
    assert!(record_arp_reply(&reply, net("192.168.1.0/24"), &mut hits).is_none());
    assert_eq!(hits.len(), 1);
}
