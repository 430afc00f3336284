//! Reading hosts and ports out of targets, URLs and DNS server settings, and
//! deciding which addresses an endpoint's probes go to.
use vstd::prelude::*;
use vstd::string::*;

use crate::config::{is_http, DnsConfig, DnsProtocol, EndpointConfig, IpVersion, Protocol};
use crate::ip::{unspecified_v4, IpAddress};
use crate::text::{
    before_first, http_scheme, lemma_before_first_concat, lemma_last_pos, lemma_last_pos_none,
    lemma_no_brackets, find_last, has_https_scheme, https_scheme, last_pos, parse_u16, parse_u16_spec,
    split_first, strip_scheme, trim_bracket_chars, trim_brackets, without_scheme,
};

verus! {

// ---------------------------------------------------------------------------
// Hosts and ports
// ---------------------------------------------------------------------------

/// Splits `hp` at its last `:` into a host and a port; the port is `default`
/// when there is no `:` or when the text after it is not a `u16`.
pub open spec fn split_host_port(hp: Seq<char>, default: u16) -> (Seq<char>, u16) {
    match last_pos(hp, ':') {
        Some(k) => (
            hp.take(k),
            match parse_u16_spec(hp.skip(k + 1)) {
                Some(p) => p,
                None => default,
            },
        ),
        None => (hp, default),
    }
}

/// The port a DNS server listens on when its setting names none.
pub open spec fn dns_default_port(p: DnsProtocol) -> u16 {
    match p {
        DnsProtocol::Doh => 443,
        DnsProtocol::Dot => 853,
        _ => 53,
    }
}

/// Host and port of a DNS server setting: for DoH the authority of the URL,
/// otherwise `host[:port]`.
pub open spec fn dns_server_spec(s: Seq<char>, p: DnsProtocol) -> (Seq<char>, u16) {
    if p == DnsProtocol::Doh {
        split_host_port(before_first(strip_scheme(s), '/'), 443)
    } else {
        split_host_port(s, dns_default_port(p))
    }
}

fn split_host_port_str<'a>(hp: &'a str, default: u16) -> (r: (&'a str, u16))
    ensures
        (r.0@, r.1) == split_host_port(hp@, default),
{
    match find_last(hp, ':') {
        Some(k) => {
            let n = hp.unicode_len();
            let host = hp.substring_char(0, k);
            let port_text = hp.substring_char(k + 1, n);
            let port = match parse_u16(port_text) {
                Some(p) => p,
                None => default,
            };
            (host, port)
        },
        None => (hp, default),
    }
}

/// Host and port of a DNS server setting; the port defaults to 53 for UDP and
/// TCP, 853 for DoT and 443 for DoH.
pub fn parse_dns_server<'a>(server: &'a str, protocol: &DnsProtocol) -> (r: (&'a str, u16))
    ensures
        (r.0@, r.1) == dns_server_spec(server@, *protocol),
{
    match protocol {
        DnsProtocol::Doh => {
            let without = without_scheme(server);
            let host_port = split_first(without, '/');
            split_host_port_str(host_port, 443)
        },
        DnsProtocol::Dot => split_host_port_str(server, 853),
        _ => split_host_port_str(server, 53),
    }
}

/// Host and port of a TCP or UDP target. `socket_port` is the port of the target
/// when the whole target reads as a socket address (`<ip>:<port>`); the host then
/// keeps any brackets. Otherwise a port after the last `:` counts when it reads as
/// a `u16`, and the host loses its brackets; failing that the whole target is the
/// host and the port is `default_port`, or 0.
pub open spec fn host_port_spec(t: Seq<char>, default_port: Option<u16>, socket_port: Option<u16>) -> (
    Seq<char>,
    u16,
) {
    match socket_port {
        Some(port) => (
            match last_pos(t, ':') {
                Some(k) => t.take(k),
                None => t,
            },
            port,
        ),
        None => match last_pos(t, ':') {
            Some(k) => match parse_u16_spec(t.skip(k + 1)) {
                Some(port) => (trim_brackets(t.take(k)), port),
                None => (
                    t,
                    match default_port {
                        Some(p) => p,
                        None => 0,
                    },
                ),
            },
            None => (
                t,
                match default_port {
                    Some(p) => p,
                    None => 0,
                },
            ),
        },
    }
}

/// Host and port of a TCP or UDP target (see `host_port_spec`); `socket_port` is
/// what reading the whole target as a socket address gives.
pub fn parse_host_port<'a>(target: &'a str, default_port: Option<u16>, socket_port: Option<u16>) -> (r: (
    &'a str,
    u16,
))
    ensures
        (r.0@, r.1) == host_port_spec(target@, default_port, socket_port),
{
    let fallback = match default_port {
        Some(p) => p,
        None => 0,
    };
    match socket_port {
        Some(port) => {
            let host = match find_last(target, ':') {
                Some(k) => target.substring_char(0, k),
                None => target,
            };
            (host, port)
        },
        None => match find_last(target, ':') {
            Some(k) => {
                let n = target.unicode_len();
                let port_text = target.substring_char(k + 1, n);
                match parse_u16(port_text) {
                    Some(port) => {
                        let host = trim_bracket_chars(target.substring_char(0, k));
                        (host, port)
                    },
                    None => (target, fallback),
                }
            },
            None => (target, fallback),
        },
    }
}

/// The authority part of a URL: after the scheme, before the first `/`.
pub open spec fn url_authority(url: Seq<char>) -> Seq<char> {
    before_first(strip_scheme(url), '/')
}

/// The host of a URL: the authority up to its first `:`, without brackets.
pub open spec fn url_host(url: Seq<char>) -> Seq<char> {
    trim_brackets(before_first(url_authority(url), ':'))
}

/// The port of a URL: an explicit port after the authority's last `:`, else 443
/// for `https://`, else `default_port`, else 80.
pub open spec fn url_port(url: Seq<char>, default_port: Option<u16>) -> u16 {
    let hp = url_authority(url);
    let explicit = match last_pos(hp, ':') {
        Some(k) => parse_u16_spec(hp.skip(k + 1)),
        None => None,
    };
    match explicit {
        Some(p) => p,
        None => if https_scheme().is_prefix_of(url) {
            443
        } else {
            match default_port {
                Some(p) => p,
                None => 80,
            }
        },
    }
}

/// The host of a URL.
pub fn extract_host_from_url(url: &str) -> (r: String)
    ensures
        r@ == url_host(url@),
{
    let without = without_scheme(url);
    let host_port = split_first(without, '/');
    let host = split_first(host_port, ':');
    trim_bracket_chars(host).to_owned()
}

/// The port of a URL.
pub fn extract_port_from_url(url: &str, default_port: Option<u16>) -> (r: u16)
    ensures
        r == url_port(url@, default_port),
{
    let without = without_scheme(url);
    let host_port = split_first(without, '/');
    if let Some(k) = find_last(host_port, ':') {
        let n = host_port.unicode_len();
        let port_text = host_port.substring_char(k + 1, n);
        if let Some(p) = parse_u16(port_text) {
            return p;
        }
    }
    if has_https_scheme(url) {
        443
    } else {
        match default_port {
            Some(p) => p,
            None => 80,
        }
    }
}

/// A host as it appears in a URL or target: no `:`, `/` or brackets in it.
pub open spec fn plain_host(h: Seq<char>) -> bool {
    forall|j: int| 0 <= j < h.len() ==> h[j] != ':' && h[j] != '/' && h[j] != '[' && h[j] != ']'
}

/// The path of a URL: empty, or starting with `/`.
pub open spec fn url_path(p: Seq<char>) -> bool {
    p.len() == 0 || p[0] == '/'
}

proof fn lemma_scheme_split(host: Seq<char>, rest: Seq<char>)
    ensures
        !https_scheme().is_prefix_of(http_scheme() + host + rest),
        http_scheme().is_prefix_of(http_scheme() + host + rest),
        strip_scheme(http_scheme() + host + rest) == host + rest,
        https_scheme().is_prefix_of(https_scheme() + host + rest),
        strip_scheme(https_scheme() + host + rest) == host + rest,
{
    let u = http_scheme() + host + rest;
    let v = https_scheme() + host + rest;
    assert(u[4] != https_scheme()[4]);
    assert(u.take(7) =~= http_scheme());
    assert(u.skip(7) =~= host + rest);
    assert(v.take(8) =~= https_scheme());
    assert(v.skip(8) =~= host + rest);
}

/// A URL that names no port: its host is the text between the scheme and the
/// path, and its port is 443 for `https://`, else the given default (80 when
/// there is none).
pub proof fn law_url_without_port(host: Seq<char>, path: Seq<char>, default_port: Option<u16>)
    requires
        plain_host(host),
        url_path(path),
    ensures
        url_host(http_scheme() + host + path) == host,
        url_port(http_scheme() + host + path, default_port) == match default_port {
            Some(p) => p,
            None => 80u16,
        },
        url_host(https_scheme() + host + path) == host,
        url_port(https_scheme() + host + path, default_port) == 443,
{
    lemma_scheme_split(host, path);
    lemma_before_first_concat(host, path, '/');
    assert(host + Seq::<char>::empty() =~= host);
    lemma_before_first_concat(host, Seq::<char>::empty(), ':');
    lemma_no_brackets(host);
    lemma_last_pos_none(host, ':');
}

/// A URL that names a port after its host: the host is the text between the
/// scheme and the `:`, and the port is the one written there, whatever the
/// default.
pub proof fn law_url_with_port(
    host: Seq<char>,
    port_text: Seq<char>,
    path: Seq<char>,
    default_port: Option<u16>,
    port: u16,
)
    requires
        plain_host(host),
        plain_host(port_text),
        parse_u16_spec(port_text) == Some(port),
        url_path(path),
    ensures
        url_host(http_scheme() + host + (seq![':'] + port_text) + path) == host,
        url_port(http_scheme() + host + (seq![':'] + port_text) + path, default_port) == port,
        url_host(https_scheme() + host + (seq![':'] + port_text) + path) == host,
        url_port(https_scheme() + host + (seq![':'] + port_text) + path, default_port) == port,
{
    let auth = host + (seq![':'] + port_text);
    lemma_scheme_split(host + (seq![':'] + port_text), path);
    assert(http_scheme() + host + (seq![':'] + port_text) + path =~= http_scheme() + auth + path);
    assert(https_scheme() + host + (seq![':'] + port_text) + path =~= https_scheme() + auth + path);
    assert forall|j: int| 0 <= j < auth.len() implies auth[j] != '/' by {
        if j >= host.len() + 1 {
            assert(auth[j] == port_text[j - host.len() - 1]);
        }
    }
    lemma_before_first_concat(auth, path, '/');
    lemma_before_first_concat(host, seq![':'] + port_text, ':');
    lemma_no_brackets(host);
    assert(auth[host.len() as int] == ':');
    assert forall|j: int| host.len() < j < auth.len() implies auth[j] != ':' by {
        assert(auth[j] == port_text[j - host.len() - 1]);
    }
    lemma_last_pos(auth, ':', host.len() as int);
    assert(auth.skip(host.len() as int + 1) =~= port_text);
}

/// A DNS server setting that names no port uses the protocol's port: 53 for UDP
/// and TCP, 853 for DoT; a DoH URL without a port uses 443. A port written after
/// the host is used instead.
pub proof fn law_dns_server_ports(host: Seq<char>, port_text: Seq<char>, path: Seq<char>, port: u16)
    requires
        plain_host(host),
        url_path(path),
    ensures
        dns_server_spec(host, DnsProtocol::Udp) == (host, 53u16),
        dns_server_spec(host, DnsProtocol::Tcp) == (host, 53u16),
        dns_server_spec(host, DnsProtocol::Dot) == (host, 853u16),
        dns_server_spec(https_scheme() + host + path, DnsProtocol::Doh) == (host, 443u16),
        plain_host(port_text) && parse_u16_spec(port_text) == Some(port) ==> {
            &&& dns_server_spec(host + (seq![':'] + port_text), DnsProtocol::Udp) == (host, port)
            &&& dns_server_spec(host + (seq![':'] + port_text), DnsProtocol::Tcp) == (host, port)
            &&& dns_server_spec(host + (seq![':'] + port_text), DnsProtocol::Dot) == (host, port)
            &&& dns_server_spec(https_scheme() + host + (seq![':'] + port_text) + path, DnsProtocol::Doh)
                == (host, port)
        },
{
    lemma_last_pos_none(host, ':');
    lemma_scheme_split(host, path);
    lemma_before_first_concat(host, path, '/');
    if plain_host(port_text) && parse_u16_spec(port_text) == Some(port) {
        let auth = host + (seq![':'] + port_text);
        assert(auth[host.len() as int] == ':');
        assert forall|j: int| host.len() < j < auth.len() implies auth[j] != ':' by {
            assert(auth[j] == port_text[j - host.len() - 1]);
        }
        lemma_last_pos(auth, ':', host.len() as int);
        assert(auth.take(host.len() as int) =~= host);
        assert(auth.skip(host.len() as int + 1) =~= port_text);
        lemma_scheme_split(auth, path);
        assert(https_scheme() + host + (seq![':'] + port_text) + path =~= https_scheme() + auth + path);
        assert forall|j: int| 0 <= j < auth.len() implies auth[j] != '/' by {
            if j >= host.len() + 1 {
                assert(auth[j] == port_text[j - host.len() - 1]);
            }
        }
        lemma_before_first_concat(auth, path, '/');
    }
}

/// A TCP or UDP target `host:port` probes that host on that port; a bare host
/// probes the default port, or 0 when there is none; a target that reads whole
/// as a socket address keeps the text before its last `:` as the host.
pub proof fn law_host_port(
    host: Seq<char>,
    port_text: Seq<char>,
    port: u16,
    default_port: Option<u16>,
    socket_port: u16,
)
    requires
        plain_host(host),
    ensures
        host_port_spec(host, default_port, None) == (host, match default_port {
            Some(p) => p,
            None => 0u16,
        }),
        plain_host(port_text) && parse_u16_spec(port_text) == Some(port) ==> host_port_spec(
            host + (seq![':'] + port_text),
            default_port,
            None,
        ) == (host, port),
        plain_host(port_text) ==> host_port_spec(
            host + (seq![':'] + port_text),
            default_port,
            Some(socket_port),
        ) == (host, socket_port),
{
    lemma_last_pos_none(host, ':');
    if plain_host(port_text) {
        let t = host + (seq![':'] + port_text);
        assert(t[host.len() as int] == ':');
        assert forall|j: int| host.len() < j < t.len() implies t[j] != ':' by {
            assert(t[j] == port_text[j - host.len() - 1]);
        }
        lemma_last_pos(t, ':', host.len() as int);
        assert(t.take(host.len() as int) =~= host);
        assert(t.skip(host.len() as int + 1) =~= port_text);
        lemma_no_brackets(host);
    }
}

/// An HTTP endpoint whose URL names no port probes port 80, an HTTPS one port
/// 443, on the URL's host; an ICMP or ARP endpoint looks up its target as it
/// stands and has no port.
pub proof fn law_lookup_target_ports(
    e: EndpointConfig,
    socket_port: Option<u16>,
    host: Seq<char>,
    path: Seq<char>,
)
    requires
        plain_host(host),
        url_path(path),
    ensures
        e.protocol == Protocol::Http && e.target@ == http_scheme() + host + path ==> lookup_spec(
            e,
            socket_port,
        ) == (host, Some(80u16)),
        e.protocol == Protocol::Https && e.target@ == https_scheme() + host + path ==> lookup_spec(
            e,
            socket_port,
        ) == (host, Some(443u16)),
        e.protocol == Protocol::Icmp || e.protocol == Protocol::Arp ==> lookup_spec(e, socket_port)
            == (e.target@, None::<u16>),
{
    law_url_without_port(host, path, Some(80u16));
    law_url_without_port(host, path, Some(443u16));
}

// ---------------------------------------------------------------------------
// Custom DNS servers
// ---------------------------------------------------------------------------

/// How hostnames get resolved.
#[derive(Debug)]
pub enum DnsPlan {
    /// The system resolver.
    System,
    /// These servers (host and port each), spoken to over `protocol`.
    Servers { protocol: DnsProtocol, servers: Vec<(String, u16)> },
}

/// The server settings that a DNS configuration lists: `servers` when present
/// (an empty list means none), else `server`.
pub open spec fn dns_server_list(dns: DnsConfig) -> Option<Seq<String>> {
    match dns.servers {
        Some(ss) => if ss@.len() == 0 {
            None
        } else {
            Some(ss@)
        },
        None => match dns.server {
            Some(s) => Some(seq![s]),
            None => None,
        },
    }
}

/// The host and port of each server setting.
pub open spec fn planned_servers(v: Seq<(String, u16)>) -> Seq<(Seq<char>, u16)> {
    v.map_values(|p: (String, u16)| (p.0@, p.1))
}

pub open spec fn parsed_servers(list: Seq<String>, p: DnsProtocol) -> Seq<(Seq<char>, u16)> {
    list.map_values(|s: String| dns_server_spec(s@, p))
}

/// The servers that DNS settings name: the `servers` list when it is given and
/// not empty, none when it is given empty (whatever `server` says), else the one
/// `server`, else none; each server is read for its host and port on its own.
pub proof fn law_dns_server_list(dns: DnsConfig, list: Seq<String>, p: DnsProtocol)
    ensures
        dns.servers is Some && dns.servers->0@.len() > 0 ==> dns_server_list(dns) == Some(
            dns.servers->0@,
        ),
        dns.servers is Some && dns.servers->0@.len() == 0 ==> dns_server_list(dns) is None,
        dns.servers is None && dns.server is Some ==> dns_server_list(dns) == Some(
            seq![dns.server->0],
        ),
        dns.servers is None && dns.server is None ==> dns_server_list(dns) is None,
        parsed_servers(list, p).len() == list.len(),
        forall|i: int|
            0 <= i < list.len() ==> #[trigger] parsed_servers(list, p)[i] == dns_server_spec(
                list[i]@,
                p,
            ),
{
}

/// Decides between the system resolver and custom servers: the system one when
/// there is no DNS configuration, no server, or no protocol.
pub fn plan_dns(dns: &Option<DnsConfig>) -> (r: DnsPlan)
    ensures
        match r {
            DnsPlan::System => dns is None || dns_server_list(dns->0) is None || dns->0.protocol is None,
            DnsPlan::Servers { protocol, servers } => {
                &&& dns is Some
                &&& dns_server_list(dns->0) is Some
                &&& dns->0.protocol == Some(protocol)
                &&& planned_servers(servers@) == parsed_servers(dns_server_list(dns->0)->0, protocol)
            },
        },
{
    let d = match dns {
        None => return DnsPlan::System,
        Some(d) => d,
    };
    let protocol = match d.protocol {
        None => return DnsPlan::System,
        Some(p) => p,
    };
    let mut servers: Vec<(String, u16)> = Vec::new();
    match &d.servers {
        Some(ss) => {
            if ss.len() == 0 {
                return DnsPlan::System;
            }
            let mut i: usize = 0;
            while i < ss.len()
                invariant
                    i <= ss@.len(),
                    servers@.len() == i,
                    planned_servers(servers@) == parsed_servers(ss@.take(i as int), protocol),
                decreases ss@.len() - i,
            {
                let ghost old_servers = servers@;
                let (host, port) = parse_dns_server(ss[i].as_str(), &protocol);
                let owned = host.to_owned();
                servers.push((owned, port));
                assert(servers@ =~= old_servers.push((owned, port)));
                assert(ss@.take(i + 1) =~= ss@.take(i as int).push(ss@[i as int]));
                assert forall|j: int| 0 <= j < i + 1 implies planned_servers(servers@)[j]
                    == parsed_servers(ss@.take(i + 1), protocol)[j] by {
                    if j < i {
                        assert(planned_servers(old_servers)[j] == parsed_servers(
                            ss@.take(i as int),
                            protocol,
                        )[j]);
                    }
                }
                assert(planned_servers(servers@) =~= parsed_servers(ss@.take(i + 1), protocol));
                i = i + 1;
            }
            assert(ss@.take(ss@.len() as int) =~= ss@);
        },
        None => match &d.server {
            Some(s) => {
                let (host, port) = parse_dns_server(s.as_str(), &protocol);
                servers.push((host.to_owned(), port));
                assert(planned_servers(servers@) =~= parsed_servers(seq![*s], protocol));
            },
            None => return DnsPlan::System,
        },
    }
    DnsPlan::Servers { protocol, servers }
}

// ---------------------------------------------------------------------------
// Resolving endpoints
// ---------------------------------------------------------------------------

/// One address that an endpoint's probe goes to.
#[derive(Clone, Debug)]
pub struct ResolvedTarget {
    pub original: String,
    pub ip: IpAddress,
    pub port: Option<u16>,
    pub protocol: Protocol,
    /// Leave the address out of the metric labels (a single address picked
    /// among several that a name resolved to).
    pub hide_ip_label: bool,
}

/// What to look up (or read as an address literal) for an endpoint, and the
/// port that its probes use.
pub open spec fn lookup_spec(e: EndpointConfig, socket_port: Option<u16>) -> (Seq<char>, Option<u16>) {
    if e.protocol == Protocol::Icmp || e.protocol == Protocol::Arp {
        (e.target@, None)
    } else if is_http(e.protocol) {
        let d = if e.protocol == Protocol::Http {
            Some(80u16)
        } else {
            Some(443u16)
        };
        (url_host(e.target@), Some(url_port(e.target@, d)))
    } else {
        let hp = host_port_spec(e.target@, None, socket_port);
        (hp.0, Some(hp.1))
    }
}

/// The host to resolve for an endpoint and the port its probes use: the target
/// itself for ICMP, the URL's host and port for HTTP(S), and host and port of
/// `host[:port]` for TCP and UDP (`socket_port` as in `parse_host_port`).
pub fn lookup_target(endpoint: &EndpointConfig, socket_port: Option<u16>) -> (r: (String, Option<u16>))
    ensures
        (r.0@, r.1) == lookup_spec(*endpoint, socket_port),
{
    match endpoint.protocol {
        Protocol::Icmp | Protocol::Arp => (endpoint.target.clone(), None),
        Protocol::Http | Protocol::Https => {
            let default_port = endpoint.protocol.default_port();
            let host = extract_host_from_url(endpoint.target.as_str());
            let port = extract_port_from_url(endpoint.target.as_str(), default_port);
            (host, Some(port))
        },
        _ => {
            let (host, port) = parse_host_port(endpoint.target.as_str(), None, socket_port);
            (host.to_owned(), Some(port))
        },
    }
}

/// A target with these fields.
pub open spec fn target_is(
    t: ResolvedTarget,
    e: EndpointConfig,
    ip: IpAddress,
    port: Option<u16>,
    hide: bool,
) -> bool {
    &&& t.original@ == e.target@
    &&& t.ip == ip
    &&& t.port == port
    &&& t.protocol == e.protocol
    &&& t.hide_ip_label == hide
}

/// The single target of an ARP endpoint, which needs no resolution: the
/// unspecified address, no port.
pub fn arp_target(endpoint: &EndpointConfig) -> (r: Vec<ResolvedTarget>)
    requires
        endpoint.protocol == Protocol::Arp,
    ensures
        r@.len() == 1,
        target_is(r@[0], *endpoint, IpAddress::V4(0), None, false),
        r@[0].ip == IpAddress::V4(0) && r@[0].port is None && !r@[0].hide_ip_label,
{
    let mut v = Vec::new();
    v.push(
        ResolvedTarget {
            original: endpoint.target.clone(),
            ip: unspecified_v4(),
            port: None,
            protocol: Protocol::Arp,
            hide_ip_label: false,
        },
    );
    v
}

/// The single target of an endpoint whose host is the address literal `ip`.
pub fn literal_target(endpoint: &EndpointConfig, ip: IpAddress, port: Option<u16>) -> (r: Vec<
    ResolvedTarget,
>)
    ensures
        r@.len() == 1,
        target_is(r@[0], *endpoint, ip, port, false),
        r@[0].ip == ip && r@[0].port == port && !r@[0].hide_ip_label && r@[0].protocol
            == endpoint.protocol,
{
    let mut v = Vec::new();
    v.push(
        ResolvedTarget {
            original: endpoint.target.clone(),
            ip,
            port,
            protocol: endpoint.protocol,
            hide_ip_label: false,
        },
    );
    v
}

/// The targets of an endpoint whose host resolved to `ips`: none when nothing
/// resolved; every address (labelled with it) when the endpoint probes all;
/// else the first address alone, with its address hidden from the labels.
pub fn targets_from_addresses(endpoint: &EndpointConfig, port: Option<u16>, ips: &Vec<IpAddress>) -> (r: Vec<
    ResolvedTarget,
>)
    ensures
        ips@.len() == 0 ==> r@.len() == 0,
        ips@.len() > 0 && endpoint.probe_all ==> r@.len() == ips@.len() && forall|i: int|
            0 <= i < ips@.len() ==> target_is(#[trigger] r@[i], *endpoint, ips@[i], port, false),
        ips@.len() > 0 && !endpoint.probe_all ==> r@.len() == 1 && target_is(
            r@[0],
            *endpoint,
            ips@[0],
            port,
            true,
        ),
        ips@.len() > 0 && !endpoint.probe_all ==> r@[0].ip == ips@[0] && r@[0].hide_ip_label,
        endpoint.probe_all ==> forall|i: int|
            0 <= i < r@.len() ==> (#[trigger] r@[i]).ip == ips@[i] && !r@[i].hide_ip_label
                && r@[i].port == port,
{
    let mut v: Vec<ResolvedTarget> = Vec::new();
    if ips.len() == 0 {
        return v;
    }
    if endpoint.probe_all {
        let mut i: usize = 0;
        while i < ips.len()
            invariant
                i <= ips@.len(),
                v@.len() == i,
                forall|j: int|
                    0 <= j < i ==> target_is(#[trigger] v@[j], *endpoint, ips@[j], port, false),
            decreases ips@.len() - i,
        {
            v.push(
                ResolvedTarget {
                    original: endpoint.target.clone(),
                    ip: ips[i],
                    port,
                    protocol: endpoint.protocol,
                    hide_ip_label: false,
                },
            );
            i = i + 1;
        }
    } else {
        v.push(
            ResolvedTarget {
                original: endpoint.target.clone(),
                ip: ips[0],
                port,
                protocol: endpoint.protocol,
                hide_ip_label: true,
            },
        );
    }
    v
}

/// Whether a hostname lookup is asked again of the fall-back resolver: the
/// primary resolver returned no address and a fall-back exists.
pub fn use_fallback(n_primary: usize, has_fallback: bool) -> (r: bool)
    ensures
        r == (n_primary == 0 && has_fallback),
{
    n_primary == 0 && has_fallback
}

/// Whether custom DNS gives way to the system resolver: none of the configured
/// servers could be resolved to an address.
pub fn use_system_resolver(n_resolved_servers: usize) -> (r: bool)
    ensures
        r == (n_resolved_servers == 0),
{
    n_resolved_servers == 0
}

/// Which address families a lookup asks for: IPv4 unless only IPv6 is wanted,
/// IPv6 unless only IPv4 is wanted.
pub fn lookup_families(ip_version: Option<IpVersion>) -> (r: (bool, bool))
    ensures
        r.0 == (ip_version != Some(IpVersion::V6)),
        r.1 == (ip_version != Some(IpVersion::V4)),
{
    let v = match ip_version {
        Some(v) => v,
        None => IpVersion::Any,
    };
    let want_v4 = match v {
        IpVersion::V6 => false,
        _ => true,
    };
    let want_v6 = match v {
        IpVersion::V4 => false,
        _ => true,
    };
    (want_v4, want_v6)
}

} // verus!
