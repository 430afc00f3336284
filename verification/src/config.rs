//! The monitor's configuration: endpoints, protocols, DNS settings and
//! general defaults, with the checks that a loaded configuration goes through.
use vstd::prelude::*;
use vstd::string::*;

use crate::defaults;
use crate::labels::{
    lemma_sort_keeps_names, law_sort_labels, labels_view, names_of, sort_labels, sort_labels_spec,
    str_le, LabelsView,
};
use crate::text::str_equal;

verus! {

/// The probe kind of an endpoint.
#[derive(Clone, Copy, Debug, PartialEq, Eq, Structural, Hash)]
pub enum Protocol {
    Tcp,
    Udp,
    Icmp,
    Http,
    Https,
    Arp,
}

/// Request method of HTTP and HTTPS probes.
#[derive(Clone, Copy, Debug, PartialEq, Eq, Structural, Hash)]
pub enum HttpMethod {
    Get,
    Post,
}

/// Transport used to talk to a custom DNS server.
#[derive(Clone, Copy, Debug, PartialEq, Eq, Structural, Hash)]
pub enum DnsProtocol {
    Udp,
    Tcp,
    Dot,
    Doh,
}

/// Which address families a hostname lookup asks for.
#[derive(Clone, Copy, Debug, PartialEq, Eq, Structural, Hash)]
pub enum IpVersion {
    V4,
    V6,
    Any,
}

/// Settings that apply to every endpoint.
#[derive(Clone, Debug)]
pub struct GeneralConfig {
    pub port: u16,
    pub max_concurrent_probes: usize,
    /// Default probe interval in seconds (used when endpoint doesn't specify one).
    pub default_interval_secs: u64,
    /// Default probe timeout in milliseconds (used when endpoint doesn't specify one).
    pub default_timeout_ms: u64,
    /// Extra labels applied to ALL metrics (endpoint-level extra_labels override on conflict).
    pub extra_labels: Vec<(String, String)>,
}

/// The optional custom DNS resolver.
#[derive(Clone, Debug)]
pub struct DnsConfig {
    /// A single server: IP or hostname, optional `:port` (a URL for DoH).
    pub server: Option<String>,
    /// A list of servers; takes precedence over `server`.
    pub servers: Option<Vec<String>>,
    pub protocol: Option<DnsProtocol>,
}

/// One monitored target.
#[derive(Clone, Debug)]
pub struct EndpointConfig {
    /// Target: IP, domain, or MAC address.
    pub target: String,
    pub protocol: Protocol,
    /// Only for http/https. Defaults to "get".
    pub method: HttpMethod,
    pub timeout_ms: Option<u64>,
    pub interval_secs: Option<u64>,
    /// Only for http/https. Defaults to [200].
    pub expected_status: Vec<u16>,
    pub headers: Vec<(String, String)>,
    /// Only sent with POST method.
    pub payload: Option<String>,
    pub content_type: String,
    /// Probe all DNS-resolved IPs instead of just the first.
    pub probe_all: bool,
    /// Address families asked for when the target is a hostname.
    pub ip_version: Option<IpVersion>,
    /// A string that an HTTP response body must contain.
    pub expected_body: Option<String>,
    /// A regular expression that an HTTP response body must match.
    pub expected_body_regex: Option<String>,
    /// Extra labels to attach to Prometheus metrics for this endpoint.
    pub extra_labels: Vec<(String, String)>,
}

/// The whole configuration.
#[derive(Clone, Debug)]
pub struct Config {
    pub general: GeneralConfig,
    pub dns: Option<DnsConfig>,
    pub endpoint: Vec<EndpointConfig>,
}

/// Protocols that speak HTTP.
pub open spec fn is_http(p: Protocol) -> bool {
    p == Protocol::Http || p == Protocol::Https
}

/// The lowercase name of a protocol, as it appears in labels and messages.
pub open spec fn protocol_name(p: Protocol) -> Seq<char> {
    match p {
        Protocol::Tcp => "tcp"@,
        Protocol::Udp => "udp"@,
        Protocol::Icmp => "icmp"@,
        Protocol::Http => "http"@,
        Protocol::Https => "https"@,
        Protocol::Arp => "arp"@,
    }
}

/// The uppercase name of an HTTP method.
pub open spec fn method_name(m: HttpMethod) -> Seq<char> {
    match m {
        HttpMethod::Get => "GET"@,
        HttpMethod::Post => "POST"@,
    }
}

impl Protocol {
    pub fn default_port(&self) -> (r: Option<u16>)
        ensures
            r == (match *self {
                Protocol::Http => Some(80u16),
                Protocol::Https => Some(443u16),
                _ => None,
            }),
    {
        match self {
            Protocol::Http => Some(80),
            Protocol::Https => Some(443),
            _ => None,
        }
    }

    pub fn has_ssl(&self) -> (r: bool)
        ensures
            r == (*self == Protocol::Https),
    {
        match self {
            Protocol::Https => true,
            _ => false,
        }
    }

    pub fn has_port(&self) -> (r: bool)
        ensures
            r == !(*self == Protocol::Icmp || *self == Protocol::Arp),
    {
        match self {
            Protocol::Icmp | Protocol::Arp => false,
            _ => true,
        }
    }

    /// Whether the protocol speaks HTTP.
    pub fn is_http(&self) -> (r: bool)
        ensures
            r == is_http(*self),
    {
        match self {
            Protocol::Http | Protocol::Https => true,
            _ => false,
        }
    }

    /// The lowercase name of the protocol.
    pub fn as_str(&self) -> (r: &'static str)
        ensures
            r@ == protocol_name(*self),
    {
        match self {
            Protocol::Tcp => "tcp",
            Protocol::Udp => "udp",
            Protocol::Icmp => "icmp",
            Protocol::Http => "http",
            Protocol::Https => "https",
            Protocol::Arp => "arp",
        }
    }

    /// The lowercase name of the protocol as an owned string.
    pub fn to_string(&self) -> (r: String)
        ensures
            r@ == protocol_name(*self),
    {
        self.as_str().to_owned()
    }
}

impl HttpMethod {
    /// The uppercase name of the method.
    pub fn as_str(&self) -> (r: &'static str)
        ensures
            r@ == method_name(*self),
    {
        match self {
            HttpMethod::Get => "GET",
            HttpMethod::Post => "POST",
        }
    }

    /// The uppercase name of the method as an owned string.
    pub fn to_string(&self) -> (r: String)
        ensures
            r@ == method_name(*self),
    {
        self.as_str().to_owned()
    }
}

impl Default for GeneralConfig {
    fn default() -> (r: Self)
        ensures
            r.port == 9191,
            r.max_concurrent_probes == 50,
            r.default_interval_secs == 30,
            r.default_timeout_ms == 5000,
            r.extra_labels@.len() == 0,
    {
        GeneralConfig {
            port: defaults::port(),
            max_concurrent_probes: defaults::max_concurrent_probes(),
            default_interval_secs: defaults::default_interval_secs(),
            default_timeout_ms: defaults::default_timeout_ms(),
            extra_labels: Vec::new(),
        }
    }
}

// ---------------------------------------------------------------------------
// Endpoint settings and their checks
// ---------------------------------------------------------------------------

/// `"endpoint '<target>': <rest>"`
pub open spec fn endpoint_message(target: Seq<char>, rest: Seq<char>) -> Seq<char> {
    "endpoint '"@ + target + "': "@ + rest
}

pub open spec fn method_warning(target: Seq<char>, p: Protocol) -> Seq<char> {
    endpoint_message(target, "method is only used for http/https, ignoring for "@ + protocol_name(p))
}

pub open spec fn payload_warning(target: Seq<char>) -> Seq<char> {
    endpoint_message(target, "payload is only sent with POST method"@)
}

pub open spec fn status_warning(target: Seq<char>, p: Protocol) -> Seq<char> {
    endpoint_message(
        target,
        "expected_status is only used for http/https, ignoring for "@ + protocol_name(p),
    )
}

pub open spec fn timeout_error(target: Seq<char>) -> Seq<char> {
    endpoint_message(target, "timeout_ms must be greater than 0"@)
}

/// The warnings that `validate` gives for an endpoint, in order.
pub open spec fn endpoint_warnings(e: EndpointConfig) -> Seq<Seq<char>> {
    let w1: Seq<Seq<char>> = if !is_http(e.protocol) && e.method != HttpMethod::Get {
        seq![method_warning(e.target@, e.protocol)]
    } else {
        seq![]
    };
    let w2: Seq<Seq<char>> = if e.payload is Some && e.method != HttpMethod::Post {
        seq![payload_warning(e.target@)]
    } else {
        seq![]
    };
    let w3: Seq<Seq<char>> = if e.expected_status@.len() > 0 && !is_http(e.protocol) {
        seq![status_warning(e.target@, e.protocol)]
    } else {
        seq![]
    };
    w1 + w2 + w3
}

/// The error that `validate` gives for an endpoint, if any.
pub open spec fn endpoint_error(e: EndpointConfig) -> Option<Seq<char>> {
    if e.timeout_ms == Some(0u64) {
        Some(timeout_error(e.target@))
    } else {
        None
    }
}

/// An endpoint's settings are refused exactly when its timeout is zero, whatever
/// its protocol, with a message naming the endpoint; the warnings name each
/// setting that the protocol or method ignores: a method other than GET off
/// HTTP(S), a payload without POST, expected statuses off HTTP(S).
pub proof fn law_validate_outcome(e: EndpointConfig)
    ensures
        endpoint_error(e) is Some <==> e.timeout_ms == Some(0u64),
        endpoint_error(e) is Some ==> endpoint_error(e) == Some(
            "endpoint '"@ + e.target@ + "': timeout_ms must be greater than 0"@,
        ),
        endpoint_warnings(e).contains(
            "endpoint '"@ + e.target@ + "': method is only used for http/https, ignoring for "@
                + protocol_name(e.protocol),
        ) <== (e.protocol != Protocol::Http && e.protocol != Protocol::Https && e.method
            != HttpMethod::Get),
        endpoint_warnings(e).contains("endpoint '"@ + e.target@ + "': payload is only sent with POST method"@)
            <== (e.payload is Some && e.method != HttpMethod::Post),
        endpoint_warnings(e).contains(
            "endpoint '"@ + e.target@ + "': expected_status is only used for http/https, ignoring for "@
                + protocol_name(e.protocol),
        ) <== (e.expected_status@.len() > 0 && e.protocol != Protocol::Http && e.protocol
            != Protocol::Https),
        endpoint_warnings(e).len() == 0 <== (e.method == HttpMethod::Get && e.payload is None
            && e.expected_status@.len() == 0),
{
    let t = e.target@;
    let w = endpoint_warnings(e);
    reveal_strlit("endpoint '");
    reveal_strlit("': ");
    reveal_strlit("timeout_ms must be greater than 0");
    reveal_strlit("': timeout_ms must be greater than 0");
    reveal_strlit("method is only used for http/https, ignoring for ");
    reveal_strlit("': method is only used for http/https, ignoring for ");
    reveal_strlit("payload is only sent with POST method");
    reveal_strlit("': payload is only sent with POST method");
    reveal_strlit("expected_status is only used for http/https, ignoring for ");
    reveal_strlit("': expected_status is only used for http/https, ignoring for ");
    assert(timeout_error(t) =~= "endpoint '"@ + t + "': timeout_ms must be greater than 0"@);
    let m = method_warning(t, e.protocol);
    let pw = payload_warning(t);
    let sw = status_warning(t, e.protocol);
    assert(m =~= "endpoint '"@ + t + "': method is only used for http/https, ignoring for "@
        + protocol_name(e.protocol));
    assert(pw =~= "endpoint '"@ + t + "': payload is only sent with POST method"@);
    assert(sw =~= "endpoint '"@ + t + "': expected_status is only used for http/https, ignoring for "@
        + protocol_name(e.protocol));
    let w1: Seq<Seq<char>> = if !is_http(e.protocol) && e.method != HttpMethod::Get {
        seq![m]
    } else {
        seq![]
    };
    let w2: Seq<Seq<char>> = if e.payload is Some && e.method != HttpMethod::Post {
        seq![pw]
    } else {
        seq![]
    };
    let w3: Seq<Seq<char>> = if e.expected_status@.len() > 0 && !is_http(e.protocol) {
        seq![sw]
    } else {
        seq![]
    };
    assert(w == w1 + w2 + w3);
    if !is_http(e.protocol) && e.method != HttpMethod::Get {
        assert(w[0] == m);
    }
    if e.payload is Some && e.method != HttpMethod::Post {
        assert(w[w1.len() as int] == pw);
    }
    if e.expected_status@.len() > 0 && !is_http(e.protocol) {
        assert(w[(w1.len() + w2.len()) as int] == sw);
    }
}

/// The views of a list of strings.
pub open spec fn strings_view(v: Seq<String>) -> Seq<Seq<char>> {
    v.map_values(|s: String| s@)
}

/// `"endpoint '" + target + "': " + rest`, built as a new string.
fn endpoint_message_string(target: &String, rest: &str) -> (r: String)
    ensures
        r@ == endpoint_message(target@, rest@),
{
    let mut m = "endpoint '".to_owned();
    m.append(target.as_str());
    m.append("': ");
    m.append(rest);
    proof {
        assert(m@ =~= endpoint_message(target@, rest@));
    }
    m
}

/// `a + b` as a new string.
fn joined(a: &str, b: &str) -> (r: String)
    ensures
        r@ == a@ + b@,
{
    let mut m = a.to_owned();
    m.append(b);
    m
}

impl EndpointConfig {
    pub fn effective_timeout(&self, default: u64) -> (r: u64)
        ensures
            r == (match self.timeout_ms {
                Some(t) => t,
                None => default,
            }),
    {
        match self.timeout_ms {
            Some(t) => t,
            None => default,
        }
    }

    pub fn effective_interval(&self, default: u64) -> (r: u64)
        ensures
            r == (match self.interval_secs {
                Some(t) => t,
                None => default,
            }),
    {
        match self.interval_secs {
            Some(t) => t,
            None => default,
        }
    }

    /// The accepted HTTP status codes: `[200]` for an HTTP endpoint that lists none.
    pub fn effective_expected_status(&self) -> (r: Vec<u16>)
        ensures
            r@ == (if self.expected_status@.len() == 0 && is_http(self.protocol) {
                seq![200u16]
            } else {
                self.expected_status@
            }),
    {
        if self.expected_status.len() == 0 && self.protocol.is_http() {
            let mut v = Vec::new();
            v.push(200u16);
            v
        } else {
            let mut v: Vec<u16> = Vec::new();
            let mut i: usize = 0;
            while i < self.expected_status.len()
                invariant
                    i <= self.expected_status@.len(),
                    v@ == self.expected_status@.take(i as int),
                decreases self.expected_status@.len() - i,
            {
                v.push(self.expected_status[i]);
                assert(v@ =~= self.expected_status@.take(i + 1));
                i = i + 1;
            }
            assert(v@ =~= self.expected_status@);
            v
        }
    }

    /// Checks the endpoint's settings: warnings for settings that its protocol or
    /// method ignores, and an error for a zero timeout.
    pub fn validate(&self) -> (r: Result<Vec<String>, String>)
        ensures
            r is Err <==> self.timeout_ms == Some(0u64),
            match r {
                Ok(w) => endpoint_error(*self) is None && strings_view(w@) == endpoint_warnings(
                    *self,
                ),
                Err(e) => endpoint_error(*self) == Some(e@),
            },
    {
        let mut warnings: Vec<String> = Vec::new();
        let ghost target = self.target@;
        let ghost mut expected: Seq<Seq<char>> = seq![];

        if !self.protocol.is_http() && self.method != HttpMethod::Get {
            let rest = joined(
                "method is only used for http/https, ignoring for ",
                self.protocol.as_str(),
            );
            warnings.push(endpoint_message_string(&self.target, rest.as_str()));
            proof {
                expected = expected.push(method_warning(target, self.protocol));
            }
        }
        assert(strings_view(warnings@) =~= expected);

        if self.payload.is_some() && self.method != HttpMethod::Post {
            warnings.push(
                endpoint_message_string(&self.target, "payload is only sent with POST method"),
            );
            proof {
                expected = expected.push(payload_warning(target));
            }
        }
        assert(strings_view(warnings@) =~= expected);

        if self.expected_status.len() > 0 && !self.protocol.is_http() {
            let rest = joined(
                "expected_status is only used for http/https, ignoring for ",
                self.protocol.as_str(),
            );
            warnings.push(endpoint_message_string(&self.target, rest.as_str()));
            proof {
                expected = expected.push(status_warning(target, self.protocol));
            }
        }
        assert(strings_view(warnings@) =~= expected);
        assert(expected =~= endpoint_warnings(*self));

        if let Some(timeout) = self.timeout_ms {
            if timeout == 0 {
                return Err(
                    endpoint_message_string(&self.target, "timeout_ms must be greater than 0"),
                );
            }
        }
        Ok(warnings)
    }
}

// ---------------------------------------------------------------------------
// A loaded configuration as a whole
// ---------------------------------------------------------------------------

/// Index of the first endpoint whose settings are in error, if any.
pub open spec fn is_first_invalid(eps: Seq<EndpointConfig>, i: int) -> bool {
    &&& 0 <= i < eps.len()
    &&& endpoint_error(eps[i]) is Some
    &&& forall|j: int| 0 <= j < i ==> endpoint_error(#[trigger] eps[j]) is None
}

/// Every endpoint's settings are free of errors.
pub open spec fn all_endpoints_valid(eps: Seq<EndpointConfig>) -> bool {
    forall|j: int| 0 <= j < eps.len() ==> endpoint_error(#[trigger] eps[j]) is None
}

/// Accepts a freshly parsed configuration when every endpoint passes `validate`,
/// and otherwise gives the error of the first endpoint that does not.
pub fn check_endpoints(config: Config) -> (r: Result<Config, String>)
    ensures
        match r {
            Ok(c) => c == config && all_endpoints_valid(config.endpoint@),
            Err(e) => exists|i: int|
                is_first_invalid(config.endpoint@, i) && endpoint_error(config.endpoint@[i])
                    == Some(e@),
        },
{
    let mut i: usize = 0;
    while i < config.endpoint.len()
        invariant
            i <= config.endpoint@.len(),
            forall|j: int| 0 <= j < i ==> endpoint_error(#[trigger] config.endpoint@[j]) is None,
        decreases config.endpoint@.len() - i,
    {
        match config.endpoint[i].validate() {
            Ok(_) => {},
            Err(e) => {
                assert(is_first_invalid(config.endpoint@, i as int));
                return Err(e);
            },
        }
        i = i + 1;
    }
    Ok(config)
}

/// The warning given when ICMP endpoints exist but raw sockets are not permitted.
pub open spec fn icmp_privilege_warning() -> Seq<char> {
    "ICMP probes configured but CAP_NET_RAW capability not detected. ICMP probes may fail. Run with --cap-add=NET_RAW or as root."@
}

pub open spec fn has_icmp_endpoint(eps: Seq<EndpointConfig>) -> bool {
    exists|i: int| 0 <= i < eps.len() && (#[trigger] eps[i]).protocol == Protocol::Icmp
}

/// Warnings about ICMP endpoints that cannot work without the raw-socket
/// capability; `has_net_raw` tells whether the process has it.
pub fn validate_icmp_privileges(config: &Config, has_net_raw: bool) -> (r: Vec<String>)
    ensures
        strings_view(r@) == (if has_icmp_endpoint(config.endpoint@) && !has_net_raw {
            seq![icmp_privilege_warning()]
        } else {
            seq![]
        }),
{
    let mut warnings: Vec<String> = Vec::new();
    let mut has_icmp = false;
    let mut i: usize = 0;
    while i < config.endpoint.len()
        invariant
            i <= config.endpoint@.len(),
            has_icmp == exists|j: int|
                0 <= j < i && (#[trigger] config.endpoint@[j]).protocol == Protocol::Icmp,
        decreases config.endpoint@.len() - i,
    {
        if config.endpoint[i].protocol == Protocol::Icmp {
            has_icmp = true;
        }
        i = i + 1;
    }
    if has_icmp && !has_net_raw {
        warnings.push(
            "ICMP probes configured but CAP_NET_RAW capability not detected. ICMP probes may fail. Run with --cap-add=NET_RAW or as root.".to_owned(),
        );
    }
    assert(strings_view(warnings@) =~= (if has_icmp_endpoint(config.endpoint@) && !has_net_raw {
        seq![icmp_privilege_warning()]
    } else {
        seq![]
    }));
    warnings
}

// ---------------------------------------------------------------------------
// Configuration directories
// ---------------------------------------------------------------------------

/// The name of the one file that may hold `[general]` and `[dns]`.
pub open spec fn main_file_name() -> Seq<char> {
    "config.toml"@
}

/// Whether a name is not the main file's.
pub open spec fn not_main() -> spec_fn(Seq<char>) -> bool {
    |n: Seq<char>| n != main_file_name()
}

/// The names other than the main file's.
pub open spec fn other_names(names: Seq<Seq<char>>) -> Seq<Seq<char>> {
    names.filter(not_main())
}

/// Names as labels with empty values.
pub open spec fn as_labels(names: Seq<Seq<char>>) -> LabelsView {
    names.map_values(|n: Seq<char>| (n, Seq::<char>::empty()))
}

/// The order in which a directory's files load: the main file first (when
/// present), then the others in alphabetical order.
pub open spec fn load_order_spec(names: Seq<Seq<char>>) -> Seq<Seq<char>> {
    (if names.contains(main_file_name()) {
        seq![main_file_name()]
    } else {
        Seq::<Seq<char>>::empty()
    }) + names_of(sort_labels_spec(as_labels(other_names(names))))
}

proof fn lemma_other_names_count(names: Seq<Seq<char>>, n: Seq<char>)
    ensures
        other_names(names).to_multiset().count(n) == (if n == main_file_name() {
            0
        } else {
            names.to_multiset().count(n)
        }),
    decreases names.len(),
{
    broadcast use vstd::seq_lib::group_to_multiset_ensures;

    if names.len() == 0 {
        names.lemma_filter_len(not_main());
        assert(other_names(names) =~= Seq::<Seq<char>>::empty());
    } else {
        let rest = names.drop_last();
        lemma_other_names_count(rest, n);
        assert(names =~= rest.push(names.last()));
        rest.lemma_filter_push(names.last(), not_main());
    }
}

/// Every file of the directory is read, once, when the main file's name occurs at
/// most once (as in a directory listing): the load order is a rearrangement of
/// the names, the main file comes first, and the others follow in alphabetical
/// order.
pub proof fn law_load_order_reads_every_file(names: Seq<Seq<char>>)
    requires
        names.to_multiset().count(main_file_name()) <= 1,
    ensures
        load_order_spec(names).to_multiset() == names.to_multiset(),
        names.contains(main_file_name()) ==> load_order_spec(names)[0] == main_file_name(),
        ({
            let start: int = if names.contains(main_file_name()) {
                1
            } else {
                0
            };
            forall|i: int, j: int|
                start <= i < j < load_order_spec(names).len() ==> str_le(
                    #[trigger] load_order_spec(names)[i],
                    #[trigger] load_order_spec(names)[j],
                )
        }),
{
    broadcast use vstd::seq_lib::group_to_multiset_ensures;
    broadcast use vstd::seq_lib::lemma_multiset_commutative;

    let others = other_names(names);
    let labels = as_labels(others);
    let sorted = sort_labels_spec(labels);
    let tail = names_of(sorted);
    let head: Seq<Seq<char>> = if names.contains(main_file_name()) {
        seq![main_file_name()]
    } else {
        Seq::<Seq<char>>::empty()
    };
    lemma_sort_keeps_names(labels);
    law_sort_labels(labels);
    assert(names_of(labels) =~= others);
    assert(load_order_spec(names) == head + tail);
    assert forall|n: Seq<char>| #[trigger] load_order_spec(names).to_multiset().count(n)
        == names.to_multiset().count(n) by {
        lemma_other_names_count(names, n);
        assert((head + tail).to_multiset() =~= head.to_multiset().add(tail.to_multiset()));
        if names.contains(main_file_name()) {
            assert(head =~= Seq::<Seq<char>>::empty().push(main_file_name()));
            assert(names.to_multiset().count(main_file_name()) > 0);
        } else {
            assert(names.to_multiset().count(main_file_name()) == 0);
        }
    }
    assert(load_order_spec(names).to_multiset() =~= names.to_multiset());
    let start: int = if names.contains(main_file_name()) {
        1
    } else {
        0
    };
    assert forall|i: int, j: int|
        start <= i < j < load_order_spec(names).len() implies str_le(
        #[trigger] load_order_spec(names)[i],
        #[trigger] load_order_spec(names)[j],
    ) by {
        assert(head.len() == start);
        assert(load_order_spec(names)[i] == sorted[i - start].0);
        assert(load_order_spec(names)[j] == sorted[j - start].0);
    }
}

/// Puts the `.toml` file names of a configuration directory in load order.
pub fn config_load_order(names: Vec<String>) -> (r: Vec<String>)
    ensures
        strings_view(r@) == load_order_spec(strings_view(names@)),
{
    let ghost all = strings_view(names@);
    let main = "config.toml";
    let mut has_main = false;
    let mut others: Vec<(String, String)> = Vec::new();
    let mut rest = names;
    let mut i: usize = 0;
    let total = rest.len();
    proof {
        reveal(Seq::filter);
        assert(all.take(0).filter(not_main()) =~= Seq::<Seq<char>>::empty());
    }
    while rest.len() > 0
        invariant
            i <= all.len(),
            all.len() == total,
            rest@.len() == all.len() - i,
            strings_view(rest@) == all.skip(i as int),
            main@ == main_file_name(),
            has_main == all.take(i as int).contains(main_file_name()),
            labels_view(others@) == as_labels(other_names(all.take(i as int))),
        decreases rest@.len(),
    {
        let ghost before = rest@;
        let ghost prev_others = labels_view(others@);
        let name = rest.remove(0);
        proof {
            assert(strings_view(before)[0] == name@);
            assert(all.skip(i as int)[0] == all[i as int]);
            assert(all.take(i + 1) =~= all.take(i as int).push(name@));
            assert(all.take(i + 1).drop_last() =~= all.take(i as int));
            reveal(Seq::filter);
        }
        if str_equal(name.as_str(), main) {
            has_main = true;
            proof {
                assert(all.take(i + 1)[i as int] == main_file_name());
                assert(other_names(all.take(i + 1)) =~= other_names(all.take(i as int)));
            }
        } else {
            proof {
                assert(other_names(all.take(i + 1)) =~= other_names(all.take(i as int)).push(
                    name@,
                ));
                if all.take(i as int).contains(main_file_name()) {
                    let k = choose|k: int|
                        0 <= k < i && #[trigger] all.take(i as int)[k] == main_file_name();
                    assert(all.take(i + 1)[k] == main_file_name());
                }
                if all.take(i + 1).contains(main_file_name()) {
                    let k = choose|k: int|
                        0 <= k < i + 1 && #[trigger] all.take(i + 1)[k] == main_file_name();
                    assert(k < i);
                    assert(all.take(i as int)[k] == main_file_name());
                }
            }
            let empty = "".to_owned();
            proof {
                reveal_strlit("");
                assert(empty@ =~= Seq::<char>::empty());
            }
            let ghost name_view = name@;
            let ghost old_others = others@;
            others.push((name, empty));
            proof {
                assert(others@ == old_others.push(others@[others@.len() - 1]));
                assert(labels_view(others@) =~= prev_others.push((name_view, Seq::<char>::empty())));
                assert(as_labels(other_names(all.take(i + 1))) =~= as_labels(
                    other_names(all.take(i as int)),
                ).push((name_view, Seq::<char>::empty())));
            }
        }
        proof {
            assert forall|t: int| 0 <= t < rest@.len() implies strings_view(rest@)[t] == all.skip(
                i + 1,
            )[t] by {
                assert(rest@[t] == before[t + 1]);
                assert(strings_view(before)[t + 1] == all.skip(i as int)[t + 1]);
            }
            assert(strings_view(rest@) =~= all.skip(i + 1));
        }
        i = i + 1;
    }
    proof {
        assert(all.take(i as int) =~= all);
    }
    let sorted = sort_labels(others);
    let mut out: Vec<String> = Vec::new();
    if has_main {
        out.push(main.to_owned());
    }
    let ghost head = strings_view(out@);
    let ghost tail = names_of(sort_labels_spec(as_labels(other_names(all))));
    assert(head =~= (if all.contains(main_file_name()) {
        seq![main_file_name()]
    } else {
        Seq::<Seq<char>>::empty()
    }));
    let mut rest2 = sorted;
    let mut j: usize = 0;
    let total2 = rest2.len();
    while rest2.len() > 0
        invariant
            j <= tail.len(),
            tail.len() == total2,
            rest2@.len() == tail.len() - j,
            names_of(labels_view(rest2@)) == tail.skip(j as int),
            strings_view(out@) == head + tail.take(j as int),
        decreases rest2@.len(),
    {
        let ghost before = rest2@;
        let ghost before_out = out@;
        let pair = rest2.remove(0);
        proof {
            assert(names_of(labels_view(before))[0] == pair.0@);
            assert(tail.skip(j as int)[0] == tail[j as int]);
        }
        out.push(pair.0);
        proof {
            assert(strings_view(out@) =~= strings_view(before_out).push(tail[j as int]));
            assert(tail.take(j + 1) =~= tail.take(j as int).push(tail[j as int]));
            assert forall|t: int| 0 <= t < rest2@.len() implies #[trigger] names_of(
                labels_view(rest2@),
            )[t] == tail.skip(j + 1)[t] by {
                assert(rest2@[t] == before[t + 1]);
                assert(names_of(labels_view(before))[t + 1] == tail.skip(j as int)[t + 1]);
            }
            assert(names_of(labels_view(rest2@)) =~= tail.skip(j + 1));
        }
        j = j + 1;
    }
    proof {
        assert(tail.take(j as int) =~= tail);
    }
    out
}

/// One file of a configuration directory, as read.
#[derive(Clone, Debug)]
pub struct ConfigFile {
    pub name: String,
    pub general: Option<GeneralConfig>,
    pub dns: Option<DnsConfig>,
    pub endpoint: Vec<EndpointConfig>,
}

/// `"<name>: only config.toml may define [general] and [dns]"`
pub open spec fn misplaced_section_error(name: Seq<char>) -> Seq<char> {
    name + ": only config.toml may define [general] and [dns]"@
}

/// A file other than the main one that holds `[general]` or `[dns]`.
pub open spec fn misplaced_sections(f: ConfigFile) -> bool {
    f.name@ != main_file_name() && (f.general is Some || f.dns is Some)
}

/// Index of the first file that holds sections it may not.
pub open spec fn is_first_misplaced(files: Seq<ConfigFile>, i: int) -> bool {
    &&& 0 <= i < files.len()
    &&& misplaced_sections(files[i])
    &&& forall|j: int| 0 <= j < i ==> !misplaced_sections(#[trigger] files[j])
}

/// The endpoints of all files, file by file.
pub open spec fn all_endpoints(files: Seq<ConfigFile>) -> Seq<EndpointConfig>
    decreases files.len(),
{
    if files.len() == 0 {
        Seq::empty()
    } else {
        all_endpoints(files.drop_last()) + files.last().endpoint@
    }
}

/// The `[general]` section of the last main file that has one.
pub open spec fn main_general(files: Seq<ConfigFile>) -> Option<GeneralConfig>
    decreases files.len(),
{
    if files.len() == 0 {
        None
    } else if files.last().name@ == main_file_name() && files.last().general is Some {
        files.last().general
    } else {
        main_general(files.drop_last())
    }
}

/// The `[dns]` section of the last main file that has one.
pub open spec fn main_dns(files: Seq<ConfigFile>) -> Option<DnsConfig>
    decreases files.len(),
{
    if files.len() == 0 {
        None
    } else if files.last().name@ == main_file_name() && files.last().dns is Some {
        files.last().dns
    } else {
        main_dns(files.drop_last())
    }
}

/// The general settings a configuration has when it gives none.
pub open spec fn is_default_general(g: GeneralConfig) -> bool {
    &&& g.port == 9191
    &&& g.max_concurrent_probes == 50
    &&& g.default_interval_secs == 30
    &&& g.default_timeout_ms == 5000
    &&& g.extra_labels@.len() == 0
}

/// Only the main file may hold `[general]` or `[dns]`: when a file with another
/// name holds either section, some file is the first to hold a section it may
/// not, and the merge is refused with that file's name.
pub proof fn law_sections_only_in_main(files: Seq<ConfigFile>, j: int)
    requires
        0 <= j < files.len(),
        files[j].name@ != "config.toml"@,
        files[j].general is Some || files[j].dns is Some,
    ensures
        exists|i: int| 0 <= i <= j && is_first_misplaced(files, i),
        forall|i: int|
            is_first_misplaced(files, i) ==> misplaced_section_error(files[i].name@) == files[i].name@
                + ": only config.toml may define [general] and [dns]"@,
    decreases j,
{
    assert(misplaced_sections(files[j]));
    if forall|i: int| 0 <= i < j ==> !misplaced_sections(#[trigger] files[i]) {
        assert(is_first_misplaced(files, j));
    } else {
        let i = choose|i: int| 0 <= i < j && misplaced_sections(#[trigger] files[i]);
        law_sections_only_in_main(files, i);
    }
}

/// Merges the files of a configuration directory, given in load order: the
/// general and DNS settings come from the main file (defaults when it has none),
/// the endpoints from all files in order. A file other than the main one that
/// holds `[general]` or `[dns]` is an error; so is an endpoint that fails `validate`.
pub fn merge_config_files(files: Vec<ConfigFile>) -> (r: Result<Config, String>)
    ensures
        (exists|j: int|
            0 <= j < files@.len() && files@[j].name@ != "config.toml"@ && (files@[j].general is Some
                || files@[j].dns is Some)) ==> r is Err,
        match r {
            Ok(c) => {
                &&& forall|j: int| 0 <= j < files@.len() ==> !misplaced_sections(#[trigger] files@[j])
                &&& c.endpoint@ == all_endpoints(files@)
                &&& all_endpoints_valid(c.endpoint@)
                &&& match main_general(files@) {
                    Some(g) => c.general == g,
                    None => is_default_general(c.general),
                }
                &&& c.dns == main_dns(files@)
            },
            Err(e) => (exists|i: int|
                is_first_misplaced(files@, i) && e@ == misplaced_section_error(files@[i].name@))
                || ((forall|j: int| 0 <= j < files@.len() ==> !misplaced_sections(#[trigger] files@[j]))
                && exists|i: int|
                is_first_invalid(all_endpoints(files@), i) && endpoint_error(
                    all_endpoints(files@)[i],
                ) == Some(e@)),
        },
{
    let ghost all = files@;
    let total = files.len();
    let mut rest = files;
    let mut general: Option<GeneralConfig> = None;
    let mut dns: Option<DnsConfig> = None;
    let mut endpoints: Vec<EndpointConfig> = Vec::new();
    let mut i: usize = 0;
    while rest.len() > 0
        invariant
            i <= all.len(),
            all == files@,
            all.len() == total,
            rest@ == all.skip(i as int),
            forall|j: int| 0 <= j < i ==> !misplaced_sections(#[trigger] all[j]),
            endpoints@ == all_endpoints(all.take(i as int)),
            general == main_general(all.take(i as int)),
            dns == main_dns(all.take(i as int)),
        decreases rest@.len(),
    {
        let ghost before = rest@;
        let mut f = rest.remove(0);
        proof {
            assert(before[0] == all[i as int]);
            assert(all.take(i + 1).drop_last() =~= all.take(i as int));
            assert(all.take(i + 1).last() == f);
            assert(rest@ =~= all.skip(i + 1));
        }
        let is_main = str_equal(f.name.as_str(), "config.toml");
        if is_main {
            if f.general.is_some() {
                general = f.general;
            }
            if f.dns.is_some() {
                dns = f.dns;
            }
        } else if f.general.is_some() || f.dns.is_some() {
            let mut e = f.name.clone();
            e.append(": only config.toml may define [general] and [dns]");
            proof {
                assert(is_first_misplaced(all, i as int));
                assert(e@ == misplaced_section_error(all[i as int].name@));
            }
            return Err(e);
        }
        let ghost prev = endpoints@;
        let ghost fe = f.endpoint@;
        endpoints.append(&mut f.endpoint);
        proof {
            assert(endpoints@ =~= prev + fe);
        }
        i = i + 1;
    }
    proof {
        assert(all.take(i as int) =~= all);
    }
    let general = match general {
        Some(g) => g,
        None => GeneralConfig::default(),
    };
    let config = Config { general, dns, endpoint: endpoints };
    check_endpoints(config)
}

} // verus!
