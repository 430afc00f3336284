use uptimemaster::config::{DnsConfig, DnsProtocol, EndpointConfig, IpVersion, Protocol};
use uptimemaster::ip::IpAddress;
use uptimemaster::resolver::{
    arp_target, extract_host_from_url, extract_port_from_url, literal_target, lookup_families,
    lookup_target, parse_dns_server, parse_host_port, plan_dns, targets_from_addresses, DnsPlan,
};

fn endpoint(target: &str, protocol: Protocol, probe_all: bool) -> EndpointConfig {
    EndpointConfig {
        target: target.to_string(),
        protocol,
        method: uptimemaster::defaults::http_method(),
        timeout_ms: None,
        interval_secs: None,
        expected_status: vec![],
        headers: vec![],
        payload: None,
        content_type: uptimemaster::defaults::content_type(),
        probe_all,
        ip_version: None,
        expected_body: None,
        expected_body_regex: None,
        extra_labels: vec![],
    }
}

#[test]
fn test_parse_host_port_with_port() {
    let (host, port) = parse_host_port("192.168.1.1:443", None, Some(443));
    assert_eq!(host, "192.168.1.1");
    assert_eq!(port, 443);
}

#[test]
fn test_parse_host_port_without_port() {
    let (host, port) = parse_host_port("192.168.1.1", Some(80), None);
    assert_eq!(host, "192.168.1.1");
    assert_eq!(port, 80);
}

#[test]
fn parse_host_port_hostnames_and_brackets() {
    assert_eq!(parse_host_port("example.com:8080", None, None), ("example.com", 8080));
    assert_eq!(parse_host_port("example.com", None, None), ("example.com", 0));
    assert_eq!(parse_host_port("example.com:http", Some(7), None), ("example.com:http", 7));
    assert_eq!(parse_host_port("[::1]:53", None, None), ("::1", 53));
    assert_eq!(parse_host_port("[::1]:53", None, Some(53)), ("[::1]", 53));
    assert_eq!(parse_host_port("host:+25", None, None), ("host", 25));
    assert_eq!(parse_host_port("host:70000", Some(1), None), ("host:70000", 1));
}

#[test]
fn test_extract_host_from_url() {
    assert_eq!(extract_host_from_url("https://example.com:443/path"), "example.com");
    assert_eq!(extract_host_from_url("http://192.168.1.1/health"), "192.168.1.1");
}

#[test]
fn extract_host_without_scheme_or_path() {
    assert_eq!(extract_host_from_url("example.org"), "example.org");
    assert_eq!(extract_host_from_url("ftp://x/y"), "ftp");
}

#[test]
fn test_extract_port_from_url() {
    assert_eq!(extract_port_from_url("https://example.com/path", Some(443)), 443);
    assert_eq!(extract_port_from_url("https://example.com:8443/path", Some(443)), 8443);
    assert_eq!(extract_port_from_url("http://example.com/path", Some(80)), 80);
}

#[test]
fn extract_port_defaults() {
    assert_eq!(extract_port_from_url("http://example.com/path", None), 80);
    assert_eq!(extract_port_from_url("http://example.com/path", Some(8000)), 8000);
    assert_eq!(extract_port_from_url("https://example.com:bad/", Some(80)), 443);
}

#[test]
fn test_parse_dns_server_udp_default_port() {
    let (host, port) = parse_dns_server("1.1.1.1", &DnsProtocol::Udp);
    assert_eq!(host, "1.1.1.1");
    assert_eq!(port, 53);
}

#[test]
fn test_parse_dns_server_udp_custom_port() {
    let (host, port) = parse_dns_server("1.1.1.1:5353", &DnsProtocol::Udp);
    assert_eq!(host, "1.1.1.1");
    assert_eq!(port, 5353);
}

#[test]
fn test_parse_dns_server_dot_default_port() {
    let (host, port) = parse_dns_server("1.1.1.1", &DnsProtocol::Dot);
    assert_eq!(host, "1.1.1.1");
    assert_eq!(port, 853);
}

#[test]
fn test_parse_dns_server_doh_url() {
    let (host, port) = parse_dns_server("https://doh.pub/dns-query", &DnsProtocol::Doh);
    assert_eq!(host, "doh.pub");
    assert_eq!(port, 443);
}

#[test]
fn test_parse_dns_server_tcp_default_port() {
    let (host, port) = parse_dns_server("8.8.8.8", &DnsProtocol::Tcp);
    assert_eq!(host, "8.8.8.8");
    assert_eq!(port, 53);
}

#[test]
fn parse_dns_server_bad_port_falls_back() {
    assert_eq!(parse_dns_server("dns.example:abc", &DnsProtocol::Dot), ("dns.example", 853));
    assert_eq!(parse_dns_server("https://dns.example:8443/q", &DnsProtocol::Doh), ("dns.example", 8443));
}

#[test]
fn plan_dns_choices() {
    assert!(matches!(plan_dns(&None), DnsPlan::System));
    let no_protocol = DnsConfig { server: Some("1.1.1.1".to_string()), servers: None, protocol: None };
    assert!(matches!(plan_dns(&Some(no_protocol)), DnsPlan::System));
    let empty_list = DnsConfig { server: Some("1.1.1.1".to_string()), servers: Some(vec![]), protocol: Some(DnsProtocol::Udp) };
    assert!(matches!(plan_dns(&Some(empty_list)), DnsPlan::System));
    let list = DnsConfig {
        server: Some("9.9.9.9".to_string()),
        servers: Some(vec!["1.1.1.1".to_string(), "8.8.8.8:5353".to_string()]),
        protocol: Some(DnsProtocol::Tcp),
    };
    match plan_dns(&Some(list)) {
        DnsPlan::Servers { protocol, servers } => {
            assert_eq!(protocol, DnsProtocol::Tcp);
            assert_eq!(servers, vec![("1.1.1.1".to_string(), 53), ("8.8.8.8".to_string(), 5353)]);
        }
        DnsPlan::System => panic!("expected servers"),
    }
    let single = DnsConfig { server: Some("https://doh.pub/dns-query".to_string()), servers: None, protocol: Some(DnsProtocol::Doh) };
    match plan_dns(&Some(single)) {
        DnsPlan::Servers { servers, .. } => assert_eq!(servers, vec![("doh.pub".to_string(), 443)]),
        DnsPlan::System => panic!("expected servers"),
    }
}

#[test]
fn lookup_target_per_protocol() {
    assert_eq!(lookup_target(&endpoint("example.com", Protocol::Icmp, false), None), ("example.com".to_string(), None));
    assert_eq!(
        lookup_target(&endpoint("https://example.com/health", Protocol::Https, false), None),
        ("example.com".to_string(), Some(443))
    );
    assert_eq!(
        lookup_target(&endpoint("http://example.com:8080/", Protocol::Http, false), None),
        ("example.com".to_string(), Some(8080))
    );
    assert_eq!(
        lookup_target(&endpoint("10.0.0.1:22", Protocol::Tcp, false), Some(22)),
        ("10.0.0.1".to_string(), Some(22))
    );
    assert_eq!(lookup_target(&endpoint("db.local", Protocol::Udp, false), None), ("db.local".to_string(), Some(0)));
}

#[test]
fn targets_follow_probe_all() {
    let ips = vec![IpAddress::V4(0x0a000001), IpAddress::V4(0x0a000002)];
    let one = targets_from_addresses(&endpoint("h:80", Protocol::Tcp, false), Some(80), &ips);
    assert_eq!(one.len(), 1);
    assert_eq!(one[0].ip, IpAddress::V4(0x0a000001));
    assert!(one[0].hide_ip_label);
    assert_eq!(one[0].port, Some(80));
    let all = targets_from_addresses(&endpoint("h:80", Protocol::Tcp, true), Some(80), &ips);
    assert_eq!(all.len(), 2);
    assert_eq!(all[1].ip, IpAddress::V4(0x0a000002));
    assert!(!all[0].hide_ip_label && !all[1].hide_ip_label);
    assert_eq!(all[0].original, "h:80");
    assert!(targets_from_addresses(&endpoint("h", Protocol::Icmp, true), None, &vec![]).is_empty());
}

#[test]
fn literal_and_arp_targets() {
    let e = endpoint("192.168.1.1", Protocol::Icmp, false);
    let t = literal_target(&e, IpAddress::V4(0xc0a80101), None);
    assert_eq!(t.len(), 1);
    assert!(!t[0].hide_ip_label);
    assert_eq!(t[0].protocol, Protocol::Icmp);
    let a = arp_target(&endpoint("aa:bb:cc:dd:ee:ff", Protocol::Arp, false));
    assert_eq!(a[0].ip, IpAddress::V4(0));
    assert_eq!(a[0].port, None);
}

#[test]
fn lookup_families_by_version() {
    assert_eq!(lookup_families(None), (true, true));
    assert_eq!(lookup_families(Some(IpVersion::Any)), (true, true));
    assert_eq!(lookup_families(Some(IpVersion::V4)), (true, false));
    assert_eq!(lookup_families(Some(IpVersion::V6)), (false, true));
}

#[test]
fn fallback_decisions() {
    assert!(uptimemaster::resolver::use_fallback(0, true));
    assert!(!uptimemaster::resolver::use_fallback(0, false));
    assert!(!uptimemaster::resolver::use_fallback(2, true));
    assert!(uptimemaster::resolver::use_system_resolver(0));
    assert!(!uptimemaster::resolver::use_system_resolver(1));
}
