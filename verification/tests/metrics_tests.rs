use uptimemaster::config::Protocol;
use uptimemaster::ip::IpAddress;
use uptimemaster::labels::{merge_labels, sort_labels, str_less};
use uptimemaster::metrics::{
    build_info_labels, dns_lookup_labels, labels_equal, probe_labels, status_labels, EndpointStates,
};
use uptimemaster::probe::ProbeStatus;

fn l(k: &str, v: &str) -> (String, String) {
    (k.to_string(), v.to_string())
}

fn make_status(up: bool, target: &str, protocol: Protocol) -> ProbeStatus {
    ProbeStatus {
        up,
        ip: IpAddress::V4(0xc0a80101),
        port: None,
        protocol,
        target: target.to_string(),
        hide_ip_label: true,
    }
}

fn make_labels(target: &str, protocol: &str) -> Vec<(String, String)> {
    vec![l("protocol", protocol), l("target", target)]
}

#[test]
fn test_metrics_update() {
    let extra = vec![l("env", "prod")];
    let result = ProbeStatus {
        up: true,
        ip: IpAddress::V4(0xc0a80101),
        port: Some(443),
        protocol: Protocol::Tcp,
        target: "192.168.1.1:443".to_string(),
        hide_ip_label: false,
    }
    .with_extra_labels(&extra);
    let labels = probe_labels(&result, "192.168.1.1");
    assert_eq!(
        labels,
        vec![
            l("env", "prod"),
            l("ip", "192.168.1.1"),
            l("port", "443"),
            l("protocol", "tcp"),
            l("target", "192.168.1.1:443"),
        ]
    );
    let mut states = EndpointStates::new();
    let obs = states.observe(&labels, result.inner.up);
    assert!(obs.success);
    assert_eq!(obs.consecutive_failures, 0);
}

#[test]
fn test_consecutive_failures_reset_on_success() {
    let mut states = EndpointStates::new();
    let labels = probe_labels(&make_status(false, "target:80", Protocol::Tcp).with_extra_labels(&vec![]), "192.168.1.1");
    assert_eq!(labels, make_labels("target:80", "tcp"));

    let obs = states.observe(&labels, false);
    assert_eq!(obs.consecutive_failures, 1);
    assert_eq!(states.failures(&labels), 1);

    let obs = states.observe(&labels, false);
    assert_eq!(obs.consecutive_failures, 2);

    let obs = states.observe(&labels, true);
    assert_eq!(obs.consecutive_failures, 0);
    assert_eq!(states.failures(&labels), 0);
}

#[test]
fn test_state_change_timestamp_set_on_transition() {
    let mut states = EndpointStates::new();
    let labels = make_labels("target:80", "tcp");
    let first = states.observe(&labels, true);
    assert!(!first.state_changed);
    let second = states.observe(&labels, false);
    assert!(second.state_changed, "state change timestamp should be set");
    let third = states.observe(&labels, false);
    assert!(!third.state_changed, "timestamp should not change");
}

#[test]
fn test_last_success_timestamp() {
    let mut states = EndpointStates::new();
    let labels = make_labels("target:80", "tcp");
    let failed = states.observe(&labels, false);
    assert!(!failed.success);
    let ok = states.observe(&labels, true);
    assert!(ok.success, "last success timestamp should be set");
}

#[test]
fn histories_are_kept_per_label_set() {
    let mut states = EndpointStates::new();
    let a = make_labels("a:80", "tcp");
    let b = make_labels("b:80", "tcp");
    states.observe(&a, false);
    states.observe(&a, false);
    states.observe(&b, false);
    assert_eq!(states.failures(&a), 2);
    assert_eq!(states.failures(&b), 1);
    assert_eq!(states.failures(&make_labels("c:80", "tcp")), 0);
}

#[test]
fn counter_labels_add_status() {
    let labels = make_labels("t", "udp");
    assert_eq!(status_labels(&labels, true), vec![l("protocol", "udp"), l("status", "success"), l("target", "t")]);
    assert_eq!(status_labels(&labels, false)[1], l("status", "failure"));
}

#[test]
fn lookup_and_build_labels_are_sorted() {
    assert_eq!(
        dns_lookup_labels("success", "example.com", "http"),
        vec![l("protocol", "http"), l("status", "success"), l("target", "example.com")]
    );
    assert_eq!(build_info_labels("1.0.0", "abc123def"), vec![l("commit", "abc123def"), l("version", "1.0.0")]);
}

#[test]
fn hidden_ip_and_port_labels() {
    let mut s = make_status(true, "h", Protocol::Udp);
    s.port = Some(53);
    let labels = probe_labels(&s.with_extra_labels(&vec![l("target", "override")]), "10.0.0.1");
    assert_eq!(
        labels,
        vec![l("port", "53"), l("protocol", "udp"), l("target", "h"), l("target", "override")]
    );
}

#[test]
fn sort_is_stable_and_ordered() {
    let v = vec![l("b", "1"), l("a", "2"), l("b", "3"), l("ab", "4"), l("", "5")];
    assert_eq!(sort_labels(v), vec![l("", "5"), l("a", "2"), l("ab", "4"), l("b", "1"), l("b", "3")]);
    assert!(str_less("a", "b"));
    assert!(str_less("a", "ab"));
    assert!(!str_less("b", "ab"));
    assert!(!str_less("x", "x"));
    assert!(str_less("Z", "a"));
}

#[test]
fn merge_lets_endpoint_labels_win() {
    let general = vec![l("env", "prod"), l("region", "eu")];
    let endpoint = vec![l("env", "staging"), l("team", "web")];
    let merged = merge_labels(&general, &endpoint);
    assert_eq!(merged, vec![l("env", "staging"), l("region", "eu"), l("team", "web")]);
    let dup = merge_labels(&vec![l("k", "1"), l("k", "2")], &vec![]);
    assert_eq!(dup, vec![l("k", "2")]);
}

#[test]
fn label_sets_compare_by_content() {
    assert!(labels_equal(&make_labels("a", "tcp"), &make_labels("a", "tcp")));
    assert!(!labels_equal(&make_labels("a", "tcp"), &make_labels("a", "udp")));
    assert!(!labels_equal(&make_labels("a", "tcp"), &vec![l("protocol", "tcp")]));
}

#[test]
fn order_of_distinct_labels_does_not_matter() {
    let a = sort_labels(vec![l("target", "x"), l("env", "prod"), l("protocol", "tcp")]);
    let b = sort_labels(vec![l("protocol", "tcp"), l("target", "x"), l("env", "prod")]);
    assert_eq!(a, b);
    assert_eq!(a, vec![l("env", "prod"), l("protocol", "tcp"), l("target", "x")]);
}

#[test]
fn order_matters_only_within_a_name() {
    let a = sort_labels(vec![l("b", "x"), l("a", "1"), l("a", "2")]);
    let b = sort_labels(vec![l("a", "1"), l("b", "x"), l("a", "2")]);
    assert_eq!(a, b);
    assert_eq!(a, vec![l("a", "1"), l("a", "2"), l("b", "x")]);
    let c = sort_labels(vec![l("a", "2"), l("b", "x"), l("a", "1")]);
    assert_eq!(c, vec![l("a", "2"), l("a", "1"), l("b", "x")]);
}
