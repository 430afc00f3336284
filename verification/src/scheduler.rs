//! The decisions of the probe loop: each endpoint's schedule, which probe each
//! resolved address gets, and the labels and lookup status that a cycle records.
use vstd::prelude::*;
use vstd::string::*;

use crate::config::{protocol_name, Config, EndpointConfig, Protocol};
use crate::ip::IpAddress;
use crate::labels::{clone_label, label_view, labels_view, merge_labels, merge_labels_spec};
use crate::probe::ProbeStatus;
use crate::resolver::ResolvedTarget;

verus! {

/// How often an endpoint is probed and how long a probe may take.
#[derive(Clone, Copy, Debug, PartialEq, Eq, Structural)]
pub struct TaskPlan {
    pub interval_secs: u64,
    pub timeout_ms: u64,
}

/// The schedule of an endpoint under the general defaults.
pub open spec fn task_plan_spec(e: EndpointConfig, default_interval: u64, default_timeout: u64) -> TaskPlan {
    TaskPlan {
        interval_secs: match e.interval_secs {
            Some(s) => s,
            None => default_interval,
        },
        timeout_ms: match e.timeout_ms {
            Some(t) => t,
            None => default_timeout,
        },
    }
}

/// One schedule per endpoint, in order: its own interval and timeout, or the
/// general defaults.
pub fn plan_tasks(config: &Config) -> (r: Vec<TaskPlan>)
    ensures
        r@.len() == config.endpoint@.len(),
        forall|i: int|
            0 <= i < r@.len() ==> #[trigger] r@[i] == task_plan_spec(
                config.endpoint@[i],
                config.general.default_interval_secs,
                config.general.default_timeout_ms,
            ),
{
    let default_interval = config.general.default_interval_secs;
    let default_timeout = config.general.default_timeout_ms;
    let mut plans: Vec<TaskPlan> = Vec::new();
    let mut i: usize = 0;
    while i < config.endpoint.len()
        invariant
            i <= config.endpoint@.len(),
            default_interval == config.general.default_interval_secs,
            default_timeout == config.general.default_timeout_ms,
            plans@.len() == i,
            forall|j: int|
                0 <= j < i ==> #[trigger] plans@[j] == task_plan_spec(
                    config.endpoint@[j],
                    default_interval,
                    default_timeout,
                ),
        decreases config.endpoint@.len() - i,
    {
        let e = &config.endpoint[i];
        plans.push(
            TaskPlan {
                interval_secs: e.effective_interval(default_interval),
                timeout_ms: e.effective_timeout(default_timeout),
            },
        );
        i = i + 1;
    }
    plans
}

/// The probe to run against one resolved address.
#[derive(Clone, Copy, Debug, PartialEq, Eq, Structural)]
pub enum ProbeAction {
    Tcp { ip: IpAddress, port: u16 },
    Udp { ip: IpAddress, port: u16 },
    Icmp { ip: IpAddress },
    Http { ip: IpAddress, port: Option<u16> },
    Arp,
    /// No probe: a UDP target without a port.
    Skip,
}

/// The probe for an address: TCP on its port (80 when it has none), UDP on its
/// port (none without one), ICMP, HTTP(S) on its port, or ARP.
pub open spec fn probe_action_spec(protocol: Protocol, t: ResolvedTarget) -> ProbeAction {
    match protocol {
        Protocol::Tcp => ProbeAction::Tcp {
            ip: t.ip,
            port: match t.port {
                Some(p) => p,
                None => 80,
            },
        },
        Protocol::Udp => {
            let port = match t.port {
                Some(p) => p,
                None => 0,
            };
            if port == 0 {
                ProbeAction::Skip
            } else {
                ProbeAction::Udp { ip: t.ip, port }
            }
        },
        Protocol::Icmp => ProbeAction::Icmp { ip: t.ip },
        Protocol::Http | Protocol::Https => ProbeAction::Http { ip: t.ip, port: t.port },
        Protocol::Arp => ProbeAction::Arp,
    }
}

/// Each protocol gets its own probe, on the resolved address: TCP on the target's
/// port (80 when it has none), UDP on the target's port (skipped when it has none
/// or it is 0), ICMP with no port, HTTP(S) with the target's port as resolved, and
/// ARP, which needs no address.
pub proof fn law_probe_choice(t: ResolvedTarget, p: u16)
    ensures
        t.port == Some(p) ==> probe_action_spec(Protocol::Tcp, t) == (ProbeAction::Tcp {
            ip: t.ip,
            port: p,
        }),
        t.port is None ==> probe_action_spec(Protocol::Tcp, t) == (ProbeAction::Tcp {
            ip: t.ip,
            port: 80,
        }),
        t.port == Some(p) && p != 0 ==> probe_action_spec(Protocol::Udp, t) == (ProbeAction::Udp {
            ip: t.ip,
            port: p,
        }),
        t.port is None || t.port == Some(0u16) ==> probe_action_spec(Protocol::Udp, t)
            == ProbeAction::Skip,
        probe_action_spec(Protocol::Icmp, t) == (ProbeAction::Icmp { ip: t.ip }),
        probe_action_spec(Protocol::Http, t) == (ProbeAction::Http { ip: t.ip, port: t.port }),
        probe_action_spec(Protocol::Https, t) == (ProbeAction::Http { ip: t.ip, port: t.port }),
        probe_action_spec(Protocol::Arp, t) == ProbeAction::Arp,
{
}

/// An endpoint is probed at its own interval and with its own timeout when it
/// sets them, and at the general defaults otherwise.
pub proof fn law_task_plan(e: EndpointConfig, default_interval: u64, default_timeout: u64)
    ensures
        task_plan_spec(e, default_interval, default_timeout).interval_secs == (if e.interval_secs is Some {
            e.interval_secs->0
        } else {
            default_interval
        }),
        task_plan_spec(e, default_interval, default_timeout).timeout_ms == (if e.timeout_ms is Some {
            e.timeout_ms->0
        } else {
            default_timeout
        }),
{
}

/// The probe for one resolved address of an endpoint with `protocol`.
pub fn plan_probe(protocol: Protocol, target: &ResolvedTarget) -> (r: ProbeAction)
    ensures
        r == probe_action_spec(protocol, *target),
{
    match protocol {
        Protocol::Tcp => {
            let port = match target.port {
                Some(p) => p,
                None => 80,
            };
            ProbeAction::Tcp { ip: target.ip, port }
        },
        Protocol::Udp => {
            let port = match target.port {
                Some(p) => p,
                None => 0,
            };
            if port == 0 {
                ProbeAction::Skip
            } else {
                ProbeAction::Udp { ip: target.ip, port }
            }
        },
        Protocol::Icmp => ProbeAction::Icmp { ip: target.ip },
        Protocol::Http | Protocol::Https => ProbeAction::Http { ip: target.ip, port: target.port },
        Protocol::Arp => ProbeAction::Arp,
    }
}

/// The outcome of a probe of `target`, with the address shown in or hidden from
/// the labels as the target says; everything else as the probe reported it.
pub fn outcome_for_target(status: ProbeStatus, target: &ResolvedTarget) -> (r: ProbeStatus)
    ensures
        r == (ProbeStatus { hide_ip_label: target.hide_ip_label, ..status }),
{
    ProbeStatus { hide_ip_label: target.hide_ip_label, ..status }
}

/// Whether a cycle probes at all: not when a name resolved to nothing (ARP
/// endpoints resolve nothing and always probe).
pub fn has_targets(protocol: Protocol, n_targets: usize) -> (r: bool)
    ensures
        r == !(n_targets == 0 && protocol != Protocol::Arp),
{
    !(n_targets == 0 && protocol != Protocol::Arp)
}

/// The status a cycle records for its DNS lookup: none for ARP, else `failure`
/// when no address came back and `success` otherwise.
pub fn dns_lookup_status(protocol: Protocol, n_targets: usize) -> (r: Option<&'static str>)
    ensures
        r matches Some(s) ==> s@ == (if n_targets == 0 {
            "failure"@
        } else {
            "success"@
        }),
        r is None <==> protocol == Protocol::Arp,
{
    if protocol == Protocol::Arp {
        None
    } else if n_targets == 0 {
        Some("failure")
    } else {
        Some("success")
    }
}

/// The extra labels of an endpoint's series: the general ones, overridden by the
/// endpoint's own.
pub fn endpoint_extra_labels(config: &Config, endpoint: &EndpointConfig) -> (r: Vec<(String, String)>)
    ensures
        labels_view(r@) == merge_labels_spec(
            labels_view(config.general.extra_labels@),
            labels_view(endpoint.extra_labels@),
        ),
{
    merge_labels(&config.general.extra_labels, &endpoint.extra_labels)
}

/// The labels of an endpoint's probe-duration series before sorting: target and
/// protocol, then the merged extra labels.
pub fn probe_duration_labels(endpoint: &EndpointConfig, merged: &Vec<(String, String)>) -> (r: Vec<
    (String, String),
>)
    ensures
        labels_view(r@) == seq![("target"@, endpoint.target@), ("protocol"@, protocol_name(endpoint.protocol))]
            + labels_view(merged@),
{
    let mut v: Vec<(String, String)> = Vec::new();
    v.push(("target".to_owned(), endpoint.target.clone()));
    v.push(("protocol".to_owned(), endpoint.protocol.to_string()));
    let ghost start = labels_view(v@);
    assert(start =~= seq![("target"@, endpoint.target@), ("protocol"@, protocol_name(endpoint.protocol))]);
    let mut i: usize = 0;
    while i < merged.len()
        invariant
            i <= merged@.len(),
            labels_view(v@) == start + labels_view(merged@).take(i as int),
        decreases merged@.len() - i,
    {
        let ghost before = v@;
        v.push(clone_label(&merged[i]));
        assert(labels_view(v@) =~= labels_view(before).push(label_view(merged@[i as int])));
        assert(labels_view(merged@).take(i + 1) =~= labels_view(merged@).take(i as int).push(
            label_view(merged@[i as int]),
        ));
        i = i + 1;
    }
    assert(labels_view(merged@).take(i as int) =~= labels_view(merged@));
    v
}

} // verus!
