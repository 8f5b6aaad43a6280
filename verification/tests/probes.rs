use fing::addr::{parse_ip, IpAddr};
use fing::ber::{decode_integer, decode_oid, integer, oid, tlv};
use fing::probes::deep::{
    base_url, device_type_hint_from_port, favicon_fingerprint, favicon_url,
    favicon_worth_reading, head_request, header_evidence_key, http_banner_from_response,
    http_server_from_banner, interesting_headers, next_read, os_hint_from_banner, port_probe,
    probe_kind, probed_ports, sanitize_banner, tls_certificate, web_probe_found, HttpHeader,
    PortRead, MAX_FAVICON_BYTES,
};
use fing::probes::same_ip_family;
use fing::probes::smb::{
    add_host_names, parse_ntlm_challenge_host_info, parse_smb2_negotiate_response,
    parse_smb2_session_setup_ntlm_host_info, session_step, smb2_negotiate_request,
    smb2_session_setup_request, SessionStep, MAX_SMB_RESPONSE_BYTES,
};
use fing::probes::snmp::{
    build_get_request_for_oids, parse_system_response, system_request, SYS_DESCR_OID,
    SYS_NAME_OID, SYS_OBJECT_ID_OID, SYS_SERVICES_OID,
};
use fing::probes::upnp::{
    describe_events, description_location_allowed, description_worth_reading,
    friendly_device_type, parse_ssdp_response, parse_upnp_description,
    read_limited_description_body, ssdp_request, SsdpCollector, SsdpResponse, XmlEvent,
    MAX_UPNP_DESCRIPTION_BYTES,
};
use fing::text_map::TextMap;

fn ip(text: &str) -> IpAddr {
    parse_ip(&text.chars().collect::<Vec<_>>()).unwrap()
}

fn sequence<const N: usize>(parts: [Vec<u8>; N]) -> Vec<u8> {
    tlv(0x30, &parts.concat())
}

fn smb2_header() -> Vec<u8> {
    smb2_negotiate_request()[4..68].to_vec()
}

fn set_netbios_len(packet: &mut [u8]) {
    let len = (packet.len() - 4) as u32;
    packet[1..4].copy_from_slice(&len.to_be_bytes()[1..]);
}

fn push_u16(out: &mut Vec<u8>, value: u16) {
    out.extend_from_slice(&value.to_le_bytes());
}

fn push_u32(out: &mut Vec<u8>, value: u32) {
    out.extend_from_slice(&value.to_le_bytes());
}

fn push_security_buffer(out: &mut Vec<u8>, len: u16, offset: u32) {
    push_u16(out, len);
    push_u16(out, len);
    push_u32(out, offset);
}

fn push_av_pair(out: &mut Vec<u8>, av_id: u16, value: &[u8]) {
    push_u16(out, av_id);
    push_u16(out, value.len() as u16);
    out.extend_from_slice(value);
}

fn utf16le(value: &str) -> Vec<u8> {
    value.encode_utf16().flat_map(u16::to_le_bytes).collect()
}

fn ntlm_challenge_blob(nb_name: &str, dns_name: &str) -> Vec<u8> {
    let target_name = utf16le("EXAMPLE");
    let mut target_info = Vec::new();
    push_av_pair(&mut target_info, 1, &utf16le(nb_name));
    push_av_pair(&mut target_info, 3, &utf16le(dns_name));
    push_av_pair(&mut target_info, 0, &[]);

    let target_name_offset = 56_u32;
    let target_info_offset = target_name_offset + target_name.len() as u32;
    let mut blob = Vec::new();
    blob.extend_from_slice(b"NTLMSSP\0");
    push_u32(&mut blob, 2);
    push_security_buffer(&mut blob, target_name.len() as u16, target_name_offset);
    push_u32(&mut blob, 0x0088_8207);
    blob.extend_from_slice(&[0_u8; 8]);
    blob.extend_from_slice(&[0_u8; 8]);
    push_security_buffer(&mut blob, target_info.len() as u16, target_info_offset);
    blob.extend_from_slice(&[0_u8; 8]);
    blob.extend_from_slice(&target_name);
    blob.extend_from_slice(&target_info);
    blob
}

fn smb2_negotiate_response_packet() -> Vec<u8> {
    let mut packet = vec![0, 0, 0, 0];
    packet.extend_from_slice(&smb2_header());
    let body_start = packet.len();
    packet.resize(body_start + 64, 0);
    packet[body_start..body_start + 2].copy_from_slice(&65_u16.to_le_bytes());
    packet[body_start + 2..body_start + 4].copy_from_slice(&2_u16.to_le_bytes());
    packet[body_start + 4..body_start + 6].copy_from_slice(&0x0311_u16.to_le_bytes());
    packet[body_start + 8..body_start + 24].copy_from_slice(&[1_u8; 16]);
    let security = b"Windows Server\x00";
    let security_offset = (64 + 64) as u16;
    packet.extend_from_slice(security);
    packet[body_start + 56..body_start + 58].copy_from_slice(&security_offset.to_le_bytes());
    packet[body_start + 58..body_start + 60]
        .copy_from_slice(&(security.len() as u16).to_le_bytes());
    set_netbios_len(&mut packet);
    packet
}

#[test]
fn extracts_http_server_header() {
    let banner = "HTTP/1.1 200 OK | Server: nginx/1.25 | Date: now";
    assert_eq!(
        http_server_from_banner(banner).as_deref(),
        Some("nginx/1.25")
    );
}

#[test]
fn derives_os_hint_from_ssh_banner() {
    assert_eq!(
        os_hint_from_banner("ssh", "SSH-2.0-OpenSSH_9.8").unwrap(),
        ("Unix-like", 55)
    );
}

#[test]
fn derives_device_type_from_printer_port() {
    assert_eq!(device_type_hint_from_port(9100).unwrap(), ("printer", 65));
}

#[test]
fn normalizes_http_header_evidence_keys() {
    assert_eq!(
        header_evidence_key("x-powered-by"),
        "http_header_x_powered_by"
    );
}

#[test]
fn builds_http_banner_from_headers() {
    let banner = http_banner_from_response(
        200,
        &vec![HttpHeader {
            name: "server".to_string(),
            value: "nginx".to_string(),
        }],
    )
    .unwrap();

    assert!(banner.contains("HTTP 200"));
    assert!(banner.contains("server: nginx"));
    assert_eq!(banner, "HTTP 200 | server: nginx");
}

#[test]
fn favicon_fingerprint_rejects_large_content_length_without_reading() {
    assert!(!favicon_worth_reading(Some(MAX_FAVICON_BYTES as u64 + 1)));
    assert!(favicon_worth_reading(Some(MAX_FAVICON_BYTES as u64)));
    assert!(favicon_worth_reading(None));
}

#[test]
fn favicon_fingerprint_rejects_unknown_size_body_above_limit() {
    let body = vec![b'a'; MAX_FAVICON_BYTES + 1];
    let fingerprint =
        favicon_fingerprint(&body, "http://192.168.1.1/favicon.ico".to_string());

    assert!(fingerprint.is_none());
    assert!(favicon_fingerprint(&[], String::new()).is_none());
}

#[test]
fn favicon_fingerprint_is_the_sha256_of_the_body() {
    let fingerprint = favicon_fingerprint(b"abc", "http://host/favicon.ico".to_string()).unwrap();

    assert_eq!(
        fingerprint.sha256,
        "ba7816bf8f01cfea414140de5dae2223b00361a396177a9cb410ff61f20015ad"
    );
    assert_eq!(fingerprint.bytes, 3);
    assert_eq!(fingerprint.url, "http://host/favicon.ico");
}

#[test]
fn certificate_that_does_not_parse_keeps_its_fingerprint() {
    let certificate = tls_certificate(b"abc");

    assert_eq!(
        certificate.sha256,
        "ba7816bf8f01cfea414140de5dae2223b00361a396177a9cb410ff61f20015ad"
    );
    assert!(certificate.subject.is_none());
    assert!(certificate.not_after.is_none());
}

#[test]
fn banners_keep_four_lines_of_text() {
    assert_eq!(
        sanitize_banner(b"SSH-2.0-OpenSSH_9.8\r\n\r\n  two \nthree\nfour\nfive\n").as_deref(),
        Some("SSH-2.0-OpenSSH_9.8 | two | three | four")
    );
    assert_eq!(sanitize_banner(b" \r\n"), None);
    assert_eq!(
        sanitize_banner(&vec![b'x'; 500]).unwrap().chars().count(),
        240
    );
    assert_eq!(sanitize_banner(&[b'a', 0xff]).as_deref(), Some("a\u{fffd}"));
}

#[test]
fn web_requests_name_the_host() {
    assert_eq!(
        head_request(ip("192.168.1.7")),
        "HEAD / HTTP/1.1\r\nHost: 192.168.1.7\r\nConnection: close\r\n\r\n"
    );
    let base = base_url(ip("192.168.1.7"), 443, true);
    assert_eq!(base, "https://192.168.1.7:443");
    assert_eq!(base_url(ip("192.168.1.7"), 80, false), "http://192.168.1.7:80");
    assert_eq!(favicon_url(&base), "https://192.168.1.7:443/favicon.ico");
}

#[test]
fn web_probe_keeps_identity_headers() {
    let header = |name: &str, value: Option<&str>| {
        (name.to_string(), value.map(|value| value.to_string()))
    };
    let mut headers = vec![
        header("Server", Some("nginx")),
        header("Date", Some("now")),
        header("X-Broken", None),
    ];
    assert_eq!(interesting_headers(&headers).len(), 1);
    for index in 0..20 {
        headers.push(header(&format!("X-Model-{index}"), Some("RS819")));
    }

    let web = web_probe_found(200, &headers, None);
    assert_eq!(web.headers.len(), 16);
    assert_eq!(web.headers[0].name, "server");
    assert_eq!(web.headers[1].name, "x-model-0");
    assert_eq!(
        web.banner.as_deref(),
        Some("HTTP 200 | server: nginx | x-model-0: RS819 | x-model-1: RS819 | x-model-2: RS819")
    );
}

#[test]
fn open_ports_are_recorded_by_their_service() {
    assert_eq!(probed_ports().len(), 13);
    let banner = Some(b"hello\r\n".to_vec());

    let ssh = port_probe(22, "ssh", None, banner.clone(), None);
    assert_eq!(ssh.banner.as_deref(), Some("hello"));
    let http = port_probe(80, "http", None, banner.clone(), None);
    assert_eq!(http.banner.as_deref(), Some("hello"));
    let web = web_probe_found(404, &Vec::new(), None);
    let http = port_probe(80, "http", Some(web), banner.clone(), None);
    assert_eq!(http.banner.as_deref(), Some("HTTP 404"));
    let https = port_probe(443, "https", None, banner.clone(), Some(tls_certificate(b"abc")));
    assert!(https.banner.is_none());
    assert!(https.tls.is_some());
    let printer = port_probe(9100, "printer", None, banner, None);
    assert!(printer.banner.is_none());
    assert_eq!(printer.service, "printer");
}

#[test]
fn probes_stay_within_one_family() {
    assert!(same_ip_family(ip("192.168.1.1"), ip("10.0.0.1")));
    assert!(same_ip_family(ip("fe80::1"), ip("::1")));
    assert!(!same_ip_family(ip("fe80::1"), ip("10.0.0.1")));
}

#[test]
fn builds_smb2_negotiate_request() {
    let packet = smb2_negotiate_request();

    assert_eq!(&packet[4..8], &[0xfe, b'S', b'M', b'B']);
    assert!(packet
        .windows(2)
        .any(|window| window == 0x0311_u16.to_le_bytes()));
}

#[test]
fn parses_smb2_negotiate_response() {
    let packet = smb2_negotiate_response_packet();

    let parsed = parse_smb2_negotiate_response(&packet).unwrap();

    assert_eq!(parsed.dialect.as_deref(), Some("SMB 3.1.1"));
    assert_eq!(parsed.signing_required, Some(true));
    assert_eq!(parsed.native_os.as_deref(), Some("Windows Server"));
}

#[test]
fn session_headers_announce_their_payload() {
    let packet = smb2_negotiate_response_packet();
    let header = [packet[0], packet[1], packet[2], packet[3]];

    assert_eq!(
        session_step(header, MAX_SMB_RESPONSE_BYTES),
        SessionStep::Payload(packet.len() - 4)
    );
    assert_eq!(
        session_step([0x85, 0, 0, 0], MAX_SMB_RESPONSE_BYTES),
        SessionStep::KeepAlive
    );
    assert_eq!(
        session_step([0, 0, 0, 0], MAX_SMB_RESPONSE_BYTES),
        SessionStep::Refused
    );
    assert_eq!(
        session_step([0, 0xff, 0xff, 0xff], MAX_SMB_RESPONSE_BYTES),
        SessionStep::Refused
    );
}

#[test]
fn builds_smb2_session_setup_request_with_ntlmssp() {
    let packet = smb2_session_setup_request();

    assert_eq!(&packet[4..8], &[0xfe, b'S', b'M', b'B']);
    assert_eq!(&packet[4 + 12..4 + 14], &1_u16.to_le_bytes());
    assert!(packet.windows(8).any(|window| window == b"NTLMSSP\0"));
}

#[test]
fn parses_ntlm_challenge_host_info() {
    let blob = ntlm_challenge_blob("WORKSTATION01", "workstation01.example.test");
    let parsed = parse_ntlm_challenge_host_info(&blob).unwrap();

    assert_eq!(
        parsed.netbios_computer_name.as_deref(),
        Some("WORKSTATION01")
    );
    assert_eq!(
        parsed.dns_computer_name.as_deref(),
        Some("workstation01.example.test")
    );
}

#[test]
fn parses_session_setup_response_host_info() {
    let security = ntlm_challenge_blob("WINBOX", "winbox.example.test");
    let mut packet = vec![0, 0, 0, 0];
    let mut header = smb2_header();
    header[8..12].copy_from_slice(&0xc000_0016_u32.to_le_bytes());
    header[12..14].copy_from_slice(&1_u16.to_le_bytes());
    packet.extend_from_slice(&header);
    let body_start = packet.len();
    packet.resize(body_start + 8, 0);
    packet[body_start..body_start + 2].copy_from_slice(&9_u16.to_le_bytes());
    let security_offset = (64 + 8) as u16;
    packet[body_start + 4..body_start + 6].copy_from_slice(&security_offset.to_le_bytes());
    packet[body_start + 6..body_start + 8]
        .copy_from_slice(&(security.len() as u16).to_le_bytes());
    packet.extend_from_slice(&security);
    set_netbios_len(&mut packet);

    let parsed = parse_smb2_session_setup_ntlm_host_info(&packet).unwrap();

    assert_eq!(parsed.netbios_computer_name.as_deref(), Some("WINBOX"));
    assert_eq!(
        parsed.dns_computer_name.as_deref(),
        Some("winbox.example.test")
    );

    let mut info = parse_smb2_negotiate_response(&smb2_negotiate_response_packet()).unwrap();
    add_host_names(&mut info, parsed);
    assert_eq!(info.netbios_computer_name.as_deref(), Some("WINBOX"));
}

#[test]
fn builds_snmp_get_request() {
    let packet = build_get_request_for_oids(1, "public", &[&SYS_DESCR_OID]);

    assert_eq!(packet[0], 0x30);
    assert!(packet.windows(6).any(|window| window == b"public"));
    assert!(packet.contains(&0xa0));
}

#[test]
fn parses_sysdescr_response() {
    let value = tlv(0x04, b"Linux router 6.1");
    let varbind = sequence([oid(&SYS_DESCR_OID), value]);
    let response_pdu = tlv(
        0xa2,
        &[integer(7), integer(0), integer(0), sequence([varbind])].concat(),
    );
    let packet = sequence([integer(1), tlv(0x04, b"public"), response_pdu]);

    let info = parse_system_response(&packet).unwrap();

    assert_eq!(info.sys_descr.as_deref(), Some("Linux router 6.1"));
}

#[test]
fn builds_multi_oid_snmp_get_request() {
    let packet = build_get_request_for_oids(1, "public", &[&SYS_DESCR_OID, &SYS_NAME_OID]);

    assert!(packet.contains(&0xa0));
    assert!(packet.windows(2).any(|window| window == [0x05, 0x00]));
    assert!(packet.len() > build_get_request_for_oids(1, "public", &[&SYS_DESCR_OID]).len());
}

#[test]
fn parses_system_response_values() {
    let descr = sequence([oid(&SYS_DESCR_OID), tlv(0x04, b"Linux router 6.1")]);
    let name = sequence([oid(&SYS_NAME_OID), tlv(0x04, b"gateway")]);
    let object_id = sequence([oid(&SYS_OBJECT_ID_OID), oid(&[1, 3, 6, 1, 4, 1, 8072])]);
    let services = sequence([oid(&SYS_SERVICES_OID), integer(72)]);
    let response_pdu = tlv(
        0xa2,
        &[
            integer(7),
            integer(0),
            integer(0),
            tlv(0x30, &[descr, name, object_id, services].concat()),
        ]
        .concat(),
    );
    let packet = sequence([integer(1), tlv(0x04, b"public"), response_pdu]);

    let info = parse_system_response(&packet).unwrap();

    assert_eq!(info.sys_descr.as_deref(), Some("Linux router 6.1"));
    assert_eq!(info.sys_name.as_deref(), Some("gateway"));
    assert_eq!(info.sys_object_id.as_deref(), Some("1.3.6.1.4.1.8072"));
    assert_eq!(info.sys_services, Some(72));
}

#[test]
fn snmp_response_without_values_is_no_information() {
    assert!(parse_system_response(b"").is_none());
    let response_pdu = tlv(
        0xa2,
        &[integer(7), integer(0), integer(0), tlv(0x30, &[])].concat(),
    );
    let packet = sequence([integer(1), tlv(0x04, b"public"), response_pdu]);
    assert!(parse_system_response(&packet).is_none());
    assert!(system_request("public").windows(6).any(|w| w == b"public"));
}

#[test]
fn ber_numbers_and_objects_are_read_back() {
    for value in [0, 1, -1, 127, 128, -128, -129, 65536, i32::MAX, i32::MIN] {
        let encoded = integer(value);
        assert_eq!(encoded[0], 0x02);
        assert_eq!(decode_integer(&encoded[2..]), Some(value as i64));
    }
    let encoded = oid(&[1, 3, 6, 1, 4, 1, 8072]);
    assert_eq!(
        decode_oid(&encoded[2..]),
        Some(vec![1, 3, 6, 1, 4, 1, 8072])
    );
}

#[test]
fn parses_ssdp_headers_case_insensitively() {
    let response = b"HTTP/1.1 200 OK\r\nLOCATION: http://192.168.1.1/root.xml\r\nSERVER: Linux UPnP/1.0\r\nST: urn:schemas-upnp-org:device:MediaServer:1\r\n\r\n";
    let parsed = parse_ssdp_response(response).unwrap();

    assert_eq!(
        parsed.headers.get("location").as_deref(),
        Some("http://192.168.1.1/root.xml")
    );
    assert_eq!(
        parsed.headers.get("server").as_deref(),
        Some("Linux UPnP/1.0")
    );
}

fn ssdp_response() -> SsdpResponse {
    let mut headers = TextMap::default();
    headers.insert(
        "location".to_string(),
        "http://192.168.1.2/root.xml".to_string(),
    );
    headers.insert("server".to_string(), "Linux UPnP/1.0".to_string());
    SsdpResponse { headers }
}

#[test]
fn scoped_ssdp_response_ignores_disallowed_source_before_callbacks_or_fetches() {
    let source = ip("192.168.1.2");
    let mut collector = SsdpCollector::new(true);

    let outcome = collector.apply_ssdp_response(source, false, &ssdp_response());

    assert!(outcome.report.is_none());
    assert!(outcome.fetch.is_none());
    assert!(collector.responses.is_empty());
    assert!(collector.fetched.is_empty());
}

#[test]
fn ssdp_description_is_fetched_once_and_merged() {
    let source = ip("192.168.1.2");
    let mut collector = SsdpCollector::new(true);

    let first = collector.apply_ssdp_response(source, true, &ssdp_response());
    assert_eq!(first.fetch.as_deref(), Some("http://192.168.1.2/root.xml"));
    let report = first.report.unwrap();
    assert_eq!(report.server.as_deref(), Some("Linux UPnP/1.0"));
    let second = collector.apply_ssdp_response(source, true, &ssdp_response());
    assert!(second.fetch.is_none());

    let description = parse_upnp_description(
        "<root><device><friendlyName>TV</friendlyName></device></root>",
    )
    .unwrap();
    let info = collector.apply_description(source, description);
    assert!(info.names.contains(&"TV".to_string()));
    assert_eq!(info.server.as_deref(), Some("Linux UPnP/1.0"));
    assert!(ssdp_request().starts_with("M-SEARCH * HTTP/1.1\r\n"));
}

#[test]
fn description_location_must_match_source_ip() {
    let source = ip("192.168.1.1");

    assert!(description_location_allowed(
        "http://192.168.1.1/root.xml",
        source
    ));
    assert!(description_location_allowed(
        "https://192.168.1.1/root.xml",
        source
    ));
    assert!(!description_location_allowed(
        "http://192.168.1.2/root.xml",
        source
    ));
    assert!(!description_location_allowed(
        "http://example.com/root.xml",
        source
    ));
    assert!(!description_location_allowed(
        "file:///tmp/root.xml",
        source
    ));
    assert!(!description_location_allowed(
        "http://user@192.168.1.1/root.xml",
        source
    ));
}

#[test]
fn upnp_description_body_has_a_size_limit() {
    let oversized = vec![b'a'; MAX_UPNP_DESCRIPTION_BYTES + 1];
    let err = read_limited_description_body(&oversized, "http://192.168.1.1/root.xml")
        .unwrap_err();

    assert!(err.contains("exceeded"));
    assert!(!description_worth_reading(Some(
        MAX_UPNP_DESCRIPTION_BYTES as u64 + 1
    )));
    assert_eq!(
        read_limited_description_body(b"<root/>", "http://192.168.1.1/root.xml").as_deref(),
        Ok("<root/>")
    );
}

#[test]
fn parses_upnp_description_xml() {
    let xml = r#"
            <root>
              <device>
                <deviceType>urn:schemas-upnp-org:device:MediaServer:1</deviceType>
                <friendlyName>Living Room TV</friendlyName>
                <manufacturer>Sony</manufacturer>
                <modelName>BRAVIA</modelName>
                <serviceList>
                  <service><serviceType>urn:schemas-upnp-org:service:AVTransport:1</serviceType></service>
                </serviceList>
              </device>
            </root>
        "#;

    let description = parse_upnp_description(xml).unwrap();
    assert_eq!(description.friendly_name.as_deref(), Some("Living Room TV"));
    assert_eq!(description.manufacturer.as_deref(), Some("Sony"));
    assert_eq!(description.model_name.as_deref(), Some("BRAVIA"));
    assert_eq!(description.services.len(), 1);
}

#[test]
fn broken_upnp_description_is_an_error() {
    assert!(parse_upnp_description("<root><device></root>").is_err());
    assert!(describe_events(&vec![XmlEvent::Failed("broken".to_string())]).is_err());
    let events = vec![
        XmlEvent::Start("friendlyName".to_string()),
        XmlEvent::Text(Ok("TV".to_string())),
        XmlEvent::End,
    ];
    assert_eq!(
        describe_events(&events).unwrap().friendly_name.as_deref(),
        Some("TV")
    );
}

#[test]
fn converts_friendly_device_type() {
    assert_eq!(
        friendly_device_type("urn:schemas-upnp-org:device:MediaServer:1"),
        "MediaServer"
    );
}

#[test]
fn ssdp_location_must_be_the_announcing_device() {
    let mut collector = SsdpCollector::new(true);
    let foreign = collector.apply_ssdp_response(ip("192.168.1.9"), true, &ssdp_response());
    assert!(foreign.report.is_some());
    assert!(foreign.fetch.is_none());

    let own = collector.apply_ssdp_response(ip("192.168.1.2"), true, &ssdp_response());
    assert_eq!(own.fetch.as_deref(), Some("http://192.168.1.2/root.xml"));
    assert_eq!(collector.fetched.len(), 1);

    let mut quiet = SsdpCollector::new(false);
    let outcome = quiet.apply_ssdp_response(ip("192.168.1.2"), true, &ssdp_response());
    assert!(outcome.fetch.is_none());
}

#[test]
fn plain_request_follows_a_web_probe_that_found_nothing() {
    assert_eq!(next_read(probe_kind("http"), false), PortRead::Head(1024));
    assert_eq!(next_read(probe_kind("http"), true), PortRead::Nothing);
    assert_eq!(next_read(probe_kind("https"), false), PortRead::Nothing);
    assert_eq!(next_read(probe_kind("ssh"), false), PortRead::Greeting(512));
    assert_eq!(next_read(probe_kind("printer"), false), PortRead::Nothing);
}

#[test]
fn answers_that_were_not_read_do_not_count() {
    let answer = Some(b"SSH-2.0-OpenSSH_9.8".to_vec());
    assert_eq!(
        port_probe(9100, "printer", None, answer.clone(), None),
        port_probe(9100, "printer", None, None, None)
    );
    assert_eq!(
        port_probe(443, "https", None, answer, None),
        port_probe(443, "https", None, None, None)
    );
}
