use uptimemaster::config::{
    check_endpoints, config_load_order, merge_config_files, validate_icmp_privileges, Config,
    ConfigFile, DnsConfig, DnsProtocol, EndpointConfig, GeneralConfig, HttpMethod, Protocol,
};
use uptimemaster::defaults;

fn endpoint(target: &str, protocol: Protocol) -> EndpointConfig {
    EndpointConfig {
        target: target.to_string(),
        protocol,
        method: defaults::http_method(),
        timeout_ms: None,
        interval_secs: None,
        expected_status: vec![],
        headers: vec![],
        payload: None,
        content_type: defaults::content_type(),
        probe_all: false,
        ip_version: None,
        expected_body: None,
        expected_body_regex: None,
        extra_labels: vec![],
    }
}

fn config_with(endpoints: Vec<EndpointConfig>) -> Config {
    Config { general: GeneralConfig::default(), dns: None, endpoint: endpoints }
}

#[test]
fn test_defaults() {
    let general = GeneralConfig::default();
    assert_eq!(general.port, 9191);
    assert_eq!(general.max_concurrent_probes, 50);
    assert_eq!(general.default_interval_secs, 30);
    assert_eq!(general.default_timeout_ms, 5000);
    assert!(general.extra_labels.is_empty());
}

#[test]
fn default_values_of_settings() {
    assert_eq!(defaults::port(), 9191);
    assert_eq!(defaults::max_concurrent_probes(), 50);
    assert_eq!(defaults::default_interval_secs(), 30);
    assert_eq!(defaults::default_timeout_ms(), 5000);
    assert_eq!(defaults::http_method(), HttpMethod::Get);
    assert_eq!(defaults::content_type(), "application/json");
}

#[test]
fn protocol_ports_and_names() {
    assert_eq!(Protocol::Http.default_port(), Some(80));
    assert_eq!(Protocol::Https.default_port(), Some(443));
    assert_eq!(Protocol::Tcp.default_port(), None);
    assert!(Protocol::Https.has_ssl());
    assert!(!Protocol::Http.has_ssl());
    assert!(!Protocol::Icmp.has_port());
    assert!(!Protocol::Arp.has_port());
    assert!(Protocol::Udp.has_port());
    assert_eq!(Protocol::Tcp.to_string(), "tcp");
    assert_eq!(Protocol::Https.to_string(), "https");
    assert_eq!(Protocol::Arp.as_str(), "arp");
    assert_eq!(HttpMethod::Get.to_string(), "GET");
    assert_eq!(HttpMethod::Post.as_str(), "POST");
}

#[test]
fn effective_settings_fall_back_to_defaults() {
    let mut e = endpoint("https://example.com", Protocol::Https);
    assert_eq!(e.effective_timeout(5000), 5000);
    assert_eq!(e.effective_interval(30), 30);
    assert_eq!(e.effective_expected_status(), vec![200]);
    e.timeout_ms = Some(1200);
    e.interval_secs = Some(7);
    e.expected_status = vec![204, 301];
    assert_eq!(e.effective_timeout(5000), 1200);
    assert_eq!(e.effective_interval(30), 7);
    assert_eq!(e.effective_expected_status(), vec![204, 301]);
    let t = endpoint("10.0.0.1:22", Protocol::Tcp);
    assert_eq!(t.effective_expected_status(), Vec::<u16>::new());
}

#[test]
fn validate_warns_about_ignored_settings() {
    let mut e = endpoint("10.0.0.1:22", Protocol::Tcp);
    e.method = HttpMethod::Post;
    e.expected_status = vec![200];
    let w = e.validate().unwrap();
    assert_eq!(
        w,
        vec![
            "endpoint '10.0.0.1:22': method is only used for http/https, ignoring for tcp".to_string(),
            "endpoint '10.0.0.1:22': expected_status is only used for http/https, ignoring for tcp"
                .to_string(),
        ]
    );
    let mut h = endpoint("http://a", Protocol::Http);
    h.payload = Some("{}".to_string());
    assert_eq!(
        h.validate().unwrap(),
        vec!["endpoint 'http://a': payload is only sent with POST method".to_string()]
    );
    h.method = HttpMethod::Post;
    assert!(h.validate().unwrap().is_empty());
}

#[test]
fn validate_rejects_zero_timeout() {
    let mut e = endpoint("8.8.8.8", Protocol::Icmp);
    e.timeout_ms = Some(0);
    assert_eq!(e.validate(), Err("endpoint '8.8.8.8': timeout_ms must be greater than 0".to_string()));
    e.timeout_ms = Some(1);
    assert_eq!(e.validate(), Ok(vec![]));
}

#[test]
fn check_endpoints_reports_first_invalid() {
    let mut bad1 = endpoint("a", Protocol::Icmp);
    bad1.timeout_ms = Some(0);
    let mut bad2 = endpoint("b", Protocol::Icmp);
    bad2.timeout_ms = Some(0);
    let good = endpoint("c", Protocol::Icmp);
    let r = check_endpoints(config_with(vec![good.clone(), bad1, bad2]));
    assert_eq!(r.unwrap_err(), "endpoint 'a': timeout_ms must be greater than 0");
    let ok = check_endpoints(config_with(vec![good])).unwrap();
    assert_eq!(ok.endpoint.len(), 1);
}

#[test]
fn icmp_privilege_warning() {
    let c = config_with(vec![endpoint("1.1.1.1", Protocol::Icmp)]);
    assert_eq!(validate_icmp_privileges(&c, true), Vec::<String>::new());
    assert_eq!(validate_icmp_privileges(&c, false).len(), 1);
    assert!(validate_icmp_privileges(&c, false)[0].starts_with("ICMP probes configured but CAP_NET_RAW"));
    let t = config_with(vec![endpoint("1.1.1.1:80", Protocol::Tcp)]);
    assert!(validate_icmp_privileges(&t, false).is_empty());
}

#[test]
fn load_order_puts_main_file_first() {
    let names = vec![
        "web.toml".to_string(),
        "config.toml".to_string(),
        "api.toml".to_string(),
        "servers.toml".to_string(),
    ];
    assert_eq!(
        config_load_order(names),
        vec!["config.toml", "api.toml", "servers.toml", "web.toml"]
    );
    assert_eq!(config_load_order(vec!["b.toml".to_string(), "a.toml".to_string()]), vec!["a.toml", "b.toml"]);
}

fn file(name: &str, general: Option<GeneralConfig>, dns: Option<DnsConfig>, endpoint: Vec<EndpointConfig>) -> ConfigFile {
    ConfigFile { name: name.to_string(), general, dns, endpoint }
}

#[test]
fn merge_takes_sections_from_main_file() {
    let mut g = GeneralConfig::default();
    g.port = 8080;
    let dns = DnsConfig { server: Some("1.1.1.1".to_string()), servers: None, protocol: Some(DnsProtocol::Udp) };
    let files = vec![
        file("config.toml", Some(g), Some(dns), vec![endpoint("1.1.1.1", Protocol::Icmp)]),
        file("api.toml", None, None, vec![endpoint("https://a", Protocol::Https)]),
        file("web.toml", None, None, vec![endpoint("http://b", Protocol::Http)]),
    ];
    let c = merge_config_files(files).unwrap();
    assert_eq!(c.general.port, 8080);
    assert_eq!(c.dns.unwrap().protocol, Some(DnsProtocol::Udp));
    let targets: Vec<String> = c.endpoint.iter().map(|e| e.target.clone()).collect();
    assert_eq!(targets, vec!["1.1.1.1", "https://a", "http://b"]);
}

#[test]
fn merge_rejects_sections_outside_main_file() {
    let files = vec![
        file("config.toml", None, None, vec![]),
        file("web.toml", Some(GeneralConfig::default()), None, vec![]),
    ];
    assert_eq!(
        merge_config_files(files).unwrap_err(),
        "web.toml: only config.toml may define [general] and [dns]"
    );
    let c = merge_config_files(vec![file("x.toml", None, None, vec![])]).unwrap();
    assert_eq!(c.general.port, 9191);
    assert!(c.dns.is_none());
}
