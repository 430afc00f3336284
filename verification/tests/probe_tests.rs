use uptimemaster::arp::{
    broadcast_mac, build_arp_packet, is_arp_reply_from, parse_mac_address, select_arp_interface,
    InterfaceInfo, MacAddress,
};
use uptimemaster::config::{HttpMethod, Protocol};
use uptimemaster::ip::IpAddress;
use uptimemaster::probe::{
    body_matches, extract_hostname, http_error_status, http_port, leaf_cert_expiry, needs_body,
    regex_check_passes, status_expected, str_contains, url_protocol,
};

#[test]
fn http_port_and_protocol() {
    assert_eq!(http_port(Some(8443), HttpMethod::Get, "https://a"), 8443);
    assert_eq!(http_port(None, HttpMethod::Get, "https://a"), 443);
    assert_eq!(http_port(None, HttpMethod::Post, "http://a"), 80);
    assert_eq!(url_protocol("https://a/b"), Protocol::Https);
    assert_eq!(url_protocol("http://a/b"), Protocol::Http);
    let s = http_error_status(IpAddress::V4(1), 443, "label".to_string(), "https://x");
    assert!(!s.up);
    assert_eq!(s.protocol, Protocol::Https);
    assert_eq!(s.port, Some(443));
}

#[test]
fn status_and_body_checks() {
    assert!(status_expected(&vec![200, 201], 201));
    assert!(!status_expected(&vec![200], 500));
    assert!(needs_body(true, &Some("ok".to_string()), &None));
    assert!(!needs_body(false, &Some("ok".to_string()), &None));
    assert!(!needs_body(true, &None, &None));
    assert!(str_contains("status: ok", "ok"));
    assert!(str_contains("abc", ""));
    assert!(!str_contains("abc", "abcd"));
    assert!(!str_contains("aab", "ba"));
    assert!(body_matches("all ok", &Some("ok".to_string()), &None));
    assert!(!body_matches("all bad", &Some("ok".to_string()), &None));
}

#[test]
fn body_regex_checks() {
    let re = Some(r#"^\{"status":"healthy".*\}$"#.to_string());
    assert!(body_matches(r#"{"status":"healthy","x":1}"#, &None, &re));
    assert!(!body_matches(r#"{"status":"down"}"#, &None, &re));
    // an invalid pattern fails the check
    assert!(!body_matches("anything", &None, &Some("(".to_string())));
    // both checks must pass
    assert!(!body_matches("healthy", &Some("ok".to_string()), &Some("healthy".to_string())));
}

#[test]
fn regex_outcomes() {
    assert!(regex_check_passes(Some(true)));
    assert!(!regex_check_passes(Some(false)));
    assert!(!regex_check_passes(None));
}

#[test]
fn hostname_of_urls() {
    assert_eq!(extract_hostname("https://example.com:8443/x"), Some("example.com".to_string()));
    assert_eq!(extract_hostname("http://example.com"), Some("example.com".to_string()));
    assert_eq!(extract_hostname("example.com"), None);
}

fn tlv(tag: u8, content: &[u8]) -> Vec<u8> {
    let mut v = vec![tag];
    let n = content.len();
    if n < 128 {
        v.push(n as u8);
    } else {
        v.push(0x81);
        v.push(n as u8);
    }
    v.extend_from_slice(content);
    v
}

fn test_certificate() -> Vec<u8> {
    let alg = tlv(0x30, &tlv(0x06, &[0x2b, 0x65, 0x70]));
    let cn = [tlv(0x06, &[0x55, 0x04, 0x03]), tlv(0x0c, b"uptime test")].concat();
    let name = tlv(0x30, &tlv(0x31, &tlv(0x30, &cn)));
    let validity = tlv(0x30, &[tlv(0x17, b"250101000000Z"), tlv(0x17, b"300101000000Z")].concat());
    let key: Vec<u8> = std::iter::once(0u8).chain(0u8..32).collect();
    let spki = tlv(0x30, &[alg.clone(), tlv(0x03, &key)].concat());
    let version = tlv(0xa0, &tlv(0x02, &[0x02]));
    let tbs = tlv(
        0x30,
        &[version, tlv(0x02, &[0x01]), alg.clone(), name.clone(), validity, name, spki].concat(),
    );
    let sig = tlv(0x03, &[0u8; 65]);
    tlv(0x30, &[tbs, alg, sig].concat())
}

#[test]
fn certificate_expiry_of_leaf() {
    let cert = test_certificate();
    assert_eq!(leaf_cert_expiry(&vec![cert.clone(), vec![1, 2, 3]]), Some(1893456000));
    assert_eq!(leaf_cert_expiry(&vec![]), None);
    assert_eq!(leaf_cert_expiry(&vec![vec![0x30, 0x00]]), None);
}

#[test]
fn mac_addresses() {
    assert_eq!(parse_mac_address("aa:bb:cc:dd:ee:ff"), Some(MacAddress(0xaa, 0xbb, 0xcc, 0xdd, 0xee, 0xff)));
    assert_eq!(parse_mac_address("00:1A:2b:3C:4d:5E"), Some(MacAddress(0, 0x1a, 0x2b, 0x3c, 0x4d, 0x5e)));
    assert_eq!(parse_mac_address("aa:bb:cc:dd:ee"), None);
    assert_eq!(parse_mac_address("aa:bb:cc:dd:ee:ff:00"), None);
    assert_eq!(parse_mac_address("aa:bb:cc:dd:ee:fg"), None);
    assert_eq!(parse_mac_address("aa:bb:cc:dd:ee:100"), None);
    assert_eq!(parse_mac_address("+a:bb:cc:dd:ee:ff"), Some(MacAddress(0x0a, 0xbb, 0xcc, 0xdd, 0xee, 0xff)));
}

#[test]
fn arp_request_frame() {
    let src = MacAddress(1, 2, 3, 4, 5, 6);
    let target = MacAddress(0xa, 0xb, 0xc, 0xd, 0xe, 0xf);
    let mut buf = [0u8; 42];
    build_arp_packet(&mut buf, &src, &broadcast_mac(), &target, [192, 168, 1, 10]);
    let expected: [u8; 42] = [
        255, 255, 255, 255, 255, 255, 1, 2, 3, 4, 5, 6, 0x08, 0x06, 0x00, 0x01, 0x08, 0x00, 6, 4, 0x00,
        0x01, 1, 2, 3, 4, 5, 6, 192, 168, 1, 10, 0xa, 0xb, 0xc, 0xd, 0xe, 0xf, 192, 168, 1, 10,
    ];
    assert_eq!(buf, expected);
}

#[test]
fn arp_reply_detection() {
    let target = MacAddress(0xa, 0xb, 0xc, 0xd, 0xe, 0xf);
    let mut reply = vec![0u8; 60];
    reply[12] = 0x08;
    reply[13] = 0x06;
    reply[21] = 0x02;
    reply[22..28].copy_from_slice(&[0xa, 0xb, 0xc, 0xd, 0xe, 0xf]);
    assert!(is_arp_reply_from(&reply, &target));
    let mut request = reply.clone();
    request[21] = 0x01;
    assert!(!is_arp_reply_from(&request, &target));
    assert!(!is_arp_reply_from(&reply[..41], &target));
    assert!(!is_arp_reply_from(&reply, &MacAddress(0xa, 0xb, 0xc, 0xd, 0xe, 0x0)));
}

#[test]
fn arp_interface_choice() {
    let lo = InterfaceInfo { is_up: true, is_loopback: true, has_mac: true, has_ipv4: true };
    let down = InterfaceInfo { is_up: false, is_loopback: false, has_mac: true, has_ipv4: true };
    let eth = InterfaceInfo { is_up: true, is_loopback: false, has_mac: true, has_ipv4: true };
    assert_eq!(select_arp_interface(&vec![lo, down, eth, eth]), Some(2));
    assert_eq!(select_arp_interface(&vec![lo, down]), None);
}
