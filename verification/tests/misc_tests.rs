use uptimemaster::capability::{net_raw_from_status, trim};
use uptimemaster::config::{Config, EndpointConfig, GeneralConfig, Protocol};
use uptimemaster::ip::IpAddress;
use uptimemaster::resolver::ResolvedTarget;
use uptimemaster::scheduler::{
    dns_lookup_status, endpoint_extra_labels, has_targets, plan_probe, plan_tasks,
    probe_duration_labels, ProbeAction, TaskPlan,
};
use uptimemaster::text::{decimal_string, parse_u16, parse_unsigned, split_char};
use uptimemaster::watcher::{file_extension, is_config_change, ChangeKind};

fn endpoint(target: &str, protocol: Protocol) -> EndpointConfig {
    EndpointConfig {
        target: target.to_string(),
        protocol,
        method: uptimemaster::defaults::http_method(),
        timeout_ms: None,
        interval_secs: None,
        expected_status: vec![],
        headers: vec![],
        payload: None,
        content_type: uptimemaster::defaults::content_type(),
        probe_all: false,
        ip_version: None,
        expected_body: None,
        expected_body_regex: None,
        extra_labels: vec![],
    }
}

fn target(port: Option<u16>) -> ResolvedTarget {
    ResolvedTarget {
        original: "t".to_string(),
        ip: IpAddress::V4(7),
        port,
        protocol: Protocol::Tcp,
        hide_ip_label: false,
    }
}

#[test]
fn capability_mask_from_status() {
    let granted = "Name:\tx\nCapInh:\t0000000000000000\nCapEff:\t0000000000002000\nCapBnd:\t0\n";
    assert!(net_raw_from_status(granted));
    let denied = "CapEff:\t0000000000001000\n";
    assert!(!net_raw_from_status(denied));
    assert!(net_raw_from_status("CapEff:\t000001ffffffffff\r\n"));
    assert!(!net_raw_from_status("Name: x\n"));
    assert!(!net_raw_from_status("CapEff:\tzz\nCapEff:\t2000\n"));
    assert!(!net_raw_from_status(" CapEff:\t2000\n"));
}

#[test]
fn trimming_whitespace() {
    assert_eq!(trim("  a b \t\n"), "a b");
    assert_eq!(trim("   "), "");
    assert_eq!(trim("\u{3000}x\u{a0}"), "x");
}

#[test]
fn toml_changes_trigger_reload() {
    let toml = vec![Some("web.toml".to_string())];
    assert!(is_config_change(&toml, ChangeKind::Modify));
    assert!(is_config_change(&toml, ChangeKind::Create));
    assert!(is_config_change(&toml, ChangeKind::Remove));
    assert!(!is_config_change(&toml, ChangeKind::Other));
    assert!(!is_config_change(&vec![Some("web.toml.swp".to_string()), None], ChangeKind::Modify));
    assert!(!is_config_change(&vec![Some(".toml".to_string())], ChangeKind::Modify));
    assert_eq!(file_extension("a.b.toml"), Some("toml"));
    assert_eq!(file_extension(".."), None);
    assert_eq!(file_extension("noext"), None);
    assert_eq!(file_extension("trailing."), Some(""));
}

#[test]
fn schedule_per_endpoint() {
    let mut e1 = endpoint("a", Protocol::Icmp);
    e1.interval_secs = Some(5);
    let mut e2 = endpoint("b", Protocol::Icmp);
    e2.timeout_ms = Some(100);
    let config = Config { general: GeneralConfig::default(), dns: None, endpoint: vec![e1, e2] };
    assert_eq!(
        plan_tasks(&config),
        vec![
            TaskPlan { interval_secs: 5, timeout_ms: 5000 },
            TaskPlan { interval_secs: 30, timeout_ms: 100 }
        ]
    );
}

#[test]
fn probe_choice_per_protocol() {
    assert_eq!(plan_probe(Protocol::Tcp, &target(None)), ProbeAction::Tcp { ip: IpAddress::V4(7), port: 80 });
    assert_eq!(plan_probe(Protocol::Udp, &target(None)), ProbeAction::Skip);
    assert_eq!(plan_probe(Protocol::Udp, &target(Some(53))), ProbeAction::Udp { ip: IpAddress::V4(7), port: 53 });
    assert_eq!(plan_probe(Protocol::Icmp, &target(None)), ProbeAction::Icmp { ip: IpAddress::V4(7) });
    assert_eq!(plan_probe(Protocol::Https, &target(Some(443))), ProbeAction::Http { ip: IpAddress::V4(7), port: Some(443) });
    assert_eq!(plan_probe(Protocol::Arp, &target(None)), ProbeAction::Arp);
    assert!(!has_targets(Protocol::Tcp, 0));
    assert!(has_targets(Protocol::Arp, 0));
    assert!(has_targets(Protocol::Tcp, 1));
}

#[test]
fn dns_lookup_status_values() {
    assert_eq!(dns_lookup_status(Protocol::Arp, 0), None);
    assert_eq!(dns_lookup_status(Protocol::Tcp, 0), Some("failure"));
    assert_eq!(dns_lookup_status(Protocol::Http, 2), Some("success"));
}

#[test]
fn extra_and_duration_labels() {
    let mut general = GeneralConfig::default();
    general.extra_labels = vec![("node".to_string(), "home".to_string())];
    let mut e = endpoint("x", Protocol::Udp);
    e.extra_labels = vec![("node".to_string(), "lab".to_string()), ("svc".to_string(), "dns".to_string())];
    let config = Config { general, dns: None, endpoint: vec![e.clone()] };
    let merged = endpoint_extra_labels(&config, &e);
    assert_eq!(merged, vec![("node".to_string(), "lab".to_string()), ("svc".to_string(), "dns".to_string())]);
    let d = probe_duration_labels(&e, &merged);
    assert_eq!(d[0], ("target".to_string(), "x".to_string()));
    assert_eq!(d[1], ("protocol".to_string(), "udp".to_string()));
    assert_eq!(d.len(), 4);
}

#[test]
fn numbers_in_text() {
    assert_eq!(parse_u16("65535"), Some(65535));
    assert_eq!(parse_u16("65536"), None);
    assert_eq!(parse_u16("+80"), Some(80));
    assert_eq!(parse_u16("+"), None);
    assert_eq!(parse_u16(""), None);
    assert_eq!(parse_u16("-1"), None);
    assert_eq!(parse_u16("0080"), Some(80));
    assert_eq!(parse_unsigned("ffffffffffffffff", 16, u64::MAX), Some(u64::MAX));
    assert_eq!(parse_unsigned("10000000000000000", 16, u64::MAX), None);
    assert_eq!(decimal_string(0), "0");
    assert_eq!(decimal_string(443), "443");
    assert_eq!(decimal_string(u64::MAX), "18446744073709551615");
    assert_eq!(split_char("a::b", ':'), vec!["a", "", "b"]);
    assert_eq!(split_char("", ':'), vec![""]);
}

#[test]
fn outcome_takes_visibility_from_target() {
    let status = uptimemaster::probe::ProbeStatus {
        up: true,
        ip: IpAddress::V4(7),
        port: Some(80),
        protocol: Protocol::Tcp,
        target: "t".to_string(),
        hide_ip_label: false,
    };
    let hidden = ResolvedTarget {
        original: "t".to_string(),
        ip: IpAddress::V4(7),
        port: Some(80),
        protocol: Protocol::Tcp,
        hide_ip_label: true,
    };
    let r = uptimemaster::scheduler::outcome_for_target(status, &hidden);
    assert!(r.hide_ip_label);
    assert!(r.up);
    assert_eq!(r.port, Some(80));
    assert_eq!(r.target, "t");
}
