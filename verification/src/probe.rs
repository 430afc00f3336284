//! Outcomes of probes, and the decisions an HTTP probe makes about the
//! response it got.
use vstd::prelude::*;
use vstd::string::*;

use crate::config::{HttpMethod, Protocol};
use crate::ip::IpAddress;
use crate::text::{
    before_first, lemma_before_first_concat, has_http_scheme, has_https_scheme, http_scheme, https_scheme, split_first, to_chars};

verus! {

/// The outcome of one probe, as its metrics label and count it.
#[derive(Clone, Debug)]
pub struct ProbeStatus {
    pub up: bool,
    pub ip: IpAddress,
    pub port: Option<u16>,
    pub protocol: Protocol,
    pub target: String,
    pub hide_ip_label: bool,
}

/// A probe outcome with the extra labels of its endpoint.
#[derive(Clone, Debug)]
pub struct LabeledProbeStatus {
    pub inner: ProbeStatus,
    pub extra_labels: Vec<(String, String)>,
}

impl ProbeStatus {
    /// Attaches extra labels.
    pub fn with_extra_labels(self, extra_labels: &Vec<(String, String)>) -> (r: LabeledProbeStatus)
        ensures
            r.inner == self,
            r.extra_labels@ == extra_labels@,
    {
        let mut copy: Vec<(String, String)> = Vec::new();
        let mut i: usize = 0;
        while i < extra_labels.len()
            invariant
                i <= extra_labels@.len(),
                copy@ == extra_labels@.take(i as int),
            decreases extra_labels@.len() - i,
        {
            copy.push(crate::labels::clone_label(&extra_labels[i]));
            assert(copy@ =~= extra_labels@.take(i + 1));
            i = i + 1;
        }
        assert(copy@ =~= extra_labels@);
        LabeledProbeStatus { inner: self, extra_labels: copy }
    }
}

// ---------------------------------------------------------------------------
// HTTP
// ---------------------------------------------------------------------------

/// `Https` for an `https://` URL, else `Http`.
pub open spec fn url_protocol_spec(target: Seq<char>) -> Protocol {
    if https_scheme().is_prefix_of(target) {
        Protocol::Https
    } else {
        Protocol::Http
    }
}

/// The protocol an HTTP probe reports: HTTPS exactly for `https://` URLs.
pub fn url_protocol(target: &str) -> (r: Protocol)
    ensures
        r == url_protocol_spec(target@),
{
    if has_https_scheme(target) {
        Protocol::Https
    } else {
        Protocol::Http
    }
}

/// The port an HTTP probe connects to: the resolved port, else 443 for an
/// `https://` URL, else 80.
pub fn http_port(port: Option<u16>, method: HttpMethod, target: &str) -> (r: u16)
    ensures
        r == match port {
            Some(p) => p,
            None => if https_scheme().is_prefix_of(target@) {
                443u16
            } else {
                80u16
            },
        },
{
    match port {
        Some(p) => p,
        None => {
            let known_method = match method {
                HttpMethod::Get | HttpMethod::Post => true,
            };
            if known_method && has_https_scheme(target) {
                443
            } else {
                80
            }
        },
    }
}

/// Whether the response status is one of the expected ones.
pub fn status_expected(expected: &Vec<u16>, status: u16) -> (r: bool)
    ensures
        r == expected@.contains(status),
{
    let mut i: usize = 0;
    while i < expected.len()
        invariant
            i <= expected@.len(),
            forall|j: int| 0 <= j < i ==> expected@[j] != status,
        decreases expected@.len() - i,
    {
        if expected[i] == status {
            assert(expected@[i as int] == status);
            return true;
        }
        i = i + 1;
    }
    false
}

/// Whether the probe must read the response body: the status passed and a body
/// check is configured.
pub fn needs_body(status_ok: bool, expected_body: &Option<String>, expected_body_regex: &Option<String>) -> (r:
    bool)
    ensures
        r == (status_ok && (expected_body is Some || expected_body_regex is Some)),
{
    status_ok && (expected_body.is_some() || expected_body_regex.is_some())
}

/// `needle` occurs in `hay` at position `i`.
pub open spec fn occurs_at(hay: Seq<char>, needle: Seq<char>, i: int) -> bool {
    0 <= i && i + needle.len() <= hay.len() && hay.subrange(i, i + needle.len()) == needle
}

/// `needle` occurs in `hay` (what `str::contains` tells).
pub open spec fn contains_str(hay: Seq<char>, needle: Seq<char>) -> bool {
    exists|i: int| occurs_at(hay, needle, i)
}

/// Whether `needle` occurs in `hay`.
pub fn str_contains(hay: &str, needle: &str) -> (r: bool)
    ensures
        r == contains_str(hay@, needle@),
{
    let h = to_chars(hay);
    let n = to_chars(needle);
    if n.len() > h.len() {
        proof {
            assert forall|i: int| !occurs_at(hay@, needle@, i) by {}
        }
        return false;
    }
    let hl = h.len();
    let last = hl - n.len();
    let mut i: usize = 0;
    while i <= last
        invariant
            h@ == hay@,
            n@ == needle@,
            n@.len() <= h@.len(),
            hl == h@.len(),
            last == h@.len() - n@.len(),
            forall|t: int| 0 <= t < i ==> !occurs_at(hay@, needle@, t),
        decreases last + 1 - i,
    {
        let mut j: usize = 0;
        while j < n.len() && h[i + j] == n[j]
            invariant
                h@ == hay@,
                n@ == needle@,
                i <= last,
                hl == h@.len(),
                last == h@.len() - n@.len(),
                j <= n@.len(),
                forall|t: int| 0 <= t < j ==> h@[i + t] == n@[t],
            decreases n@.len() - j,
        {
            j = j + 1;
        }
        if j == n.len() {
            proof {
                assert(hay@.subrange(i as int, i + needle@.len()) =~= needle@);
                assert(occurs_at(hay@, needle@, i as int));
            }
            return true;
        }
        proof {
            assert(!occurs_at(hay@, needle@, i as int)) by {
                if occurs_at(hay@, needle@, i as int) {
                    assert(hay@.subrange(i as int, i + needle@.len())[j as int] == needle@[j as int]);
                }
            }
        }
        if i == last {
            proof {
                assert forall|t: int| !occurs_at(hay@, needle@, t) by {
                    if t > i {
                        assert(t + needle@.len() > hay@.len());
                    }
                }
            }
            return false;
        }
        i = i + 1;
    }
    false
}

/// Whether `pattern` compiles as a `regex::Regex`.
pub uninterp spec fn regex_compiles(pattern: Seq<char>) -> bool;

/// Whether the compiled `pattern` matches somewhere in `text`.
pub uninterp spec fn regex_matches(pattern: Seq<char>, text: Seq<char>) -> bool;

/// Calls `regex::Regex::new(pattern)` and, when that succeeds, `Regex::is_match`
/// on `text`. The contract claims only that success of the compilation is the named
/// function `regex_compiles` of the pattern and that the match is the named function
/// `regex_matches` of pattern and text: the regular-expression language is left
/// unstated.
#[verifier::external_body]
fn regex_is_match(pattern: &str, text: &str) -> (r: Option<bool>)
    ensures
        r == (if regex_compiles(pattern@) {
            Some(regex_matches(pattern@, text@))
        } else {
            None
        }),
{
    match regex::Regex::new(pattern) {
        Ok(re) => Some(re.is_match(text)),
        Err(_) => None,
    }
}

/// Whether a response body passes the configured checks: it contains the
/// expected string, and the expected regular expression compiles and matches it.
pub open spec fn body_ok_spec(body: Seq<char>, expected: Option<Seq<char>>, pattern: Option<Seq<char>>) -> bool {
    &&& match expected {
        Some(e) => contains_str(body, e),
        None => true,
    }
    &&& match pattern {
        Some(p) => regex_compiles(p) && regex_matches(p, body),
        None => true,
    }
}

/// Each configured check must pass on its own: a body passes only if it holds the
/// expected string (when one is set) and, whatever that string, the expected
/// regular expression compiles and matches it (when one is set); with no check
/// configured every body passes.
pub proof fn law_body_checks_all_apply(
    body: Seq<char>,
    expected: Option<Seq<char>>,
    pattern: Option<Seq<char>>,
)
    ensures
        body_ok_spec(body, expected, pattern) <==> (match expected {
            Some(e) => exists|i: int|
                0 <= i && i + e.len() <= body.len() && #[trigger] body.subrange(i, i + e.len()) == e,
            None => true,
        }) && (match pattern {
            Some(p) => regex_compiles(p) && regex_matches(p, body),
            None => true,
        }),
        body_ok_spec(body, None, None),
{
    if let Some(e) = expected {
        if contains_str(body, e) {
            let i = choose|i: int| occurs_at(body, e, i);
            assert(body.subrange(i, i + e.len()) == e);
        }
        if exists|i: int|
            0 <= i && i + e.len() <= body.len() && #[trigger] body.subrange(i, i + e.len()) == e {
            let i = choose|i: int|
                0 <= i && i + e.len() <= body.len() && #[trigger] body.subrange(i, i + e.len()) == e;
            assert(occurs_at(body, e, i));
        }
    }
}

pub open spec fn opt_view(o: Option<String>) -> Option<Seq<char>> {
    match o {
        Some(s) => Some(s@),
        None => None,
    }
}

/// Whether the outcome of a regular-expression check lets the body pass: the
/// pattern compiled (`Some`) and matched (`true`).
pub fn regex_check_passes(outcome: Option<bool>) -> (r: bool)
    ensures
        r == (outcome == Some(true)),
{
    match outcome {
        Some(m) => m,
        None => false,
    }
}

/// Checks a response body against the expected string and regular expression.
pub fn body_matches(body: &str, expected_body: &Option<String>, expected_body_regex: &Option<String>) -> (r:
    bool)
    ensures
        r == body_ok_spec(body@, opt_view(*expected_body), opt_view(*expected_body_regex)),
        r ==> match expected_body_regex {
            Some(p) => regex_compiles(p@) && regex_matches(p@, body@),
            None => true,
        },
        r ==> match expected_body {
            Some(e) => contains_str(body@, e@),
            None => true,
        },
{
    let mut up = true;
    if let Some(expected) = expected_body {
        if !str_contains(body, expected.as_str()) {
            up = false;
        }
    }
    if up {
        if let Some(pattern) = expected_body_regex {
            let outcome = regex_is_match(pattern.as_str(), body);
            up = regex_check_passes(outcome);
        }
    }
    up
}

/// The outcome of an HTTP probe that got no usable response.
pub fn http_error_status(ip: IpAddress, port: u16, target_label: String, target: &str) -> (r:
    ProbeStatus)
    ensures
        !r.up,
        r.ip == ip,
        r.port == Some(port),
        r.protocol == url_protocol_spec(target@),
        r.target == target_label,
        !r.hide_ip_label,
{
    ProbeStatus {
        up: false,
        ip,
        port: Some(port),
        protocol: url_protocol(target),
        target: target_label,
        hide_ip_label: false,
    }
}

/// The host name of an `http://` or `https://` URL (up to the first `/` or `:`);
/// `None` for anything else.
pub open spec fn hostname_spec(url: Seq<char>) -> Option<Seq<char>> {
    if https_scheme().is_prefix_of(url) {
        Some(before_first(before_first(url.skip(8), '/'), ':'))
    } else if http_scheme().is_prefix_of(url) {
        Some(before_first(before_first(url.skip(7), '/'), ':'))
    } else {
        None
    }
}

/// An HTTP probe reports HTTPS exactly for `https://` URLs; the host name it
/// presents is the text between the scheme and the port or path; a target
/// without an HTTP(S) scheme has no host name.
pub proof fn law_url_protocol_and_hostname(
    host: Seq<char>,
    port_text: Seq<char>,
    path: Seq<char>,
    other: Seq<char>,
)
    requires
        forall|j: int| 0 <= j < host.len() ==> host[j] != ':' && host[j] != '/',
        forall|j: int| 0 <= j < port_text.len() ==> port_text[j] != '/',
        path.len() == 0 || path[0] == '/',
        other.len() == 0 || other[0] != 'h',
    ensures
        url_protocol_spec(https_scheme() + host + path) == Protocol::Https,
        url_protocol_spec(http_scheme() + host + path) == Protocol::Http,
        hostname_spec(https_scheme() + host + path) == Some(host),
        hostname_spec(http_scheme() + host + path) == Some(host),
        hostname_spec(https_scheme() + host + (seq![':'] + port_text) + path) == Some(host),
        hostname_spec(http_scheme() + host + (seq![':'] + port_text) + path) == Some(host),
        hostname_spec(other) is None,
        url_protocol_spec(other) == Protocol::Http,
{
    let empty = Seq::<char>::empty();
    assert(host + empty =~= host);
    let a = host + (seq![':'] + port_text);
    assert forall|j: int| 0 <= j < a.len() implies a[j] != '/' by {
        if j > host.len() {
            assert(a[j] == port_text[j - host.len() - 1]);
        }
    }
    lemma_before_first_concat(host, path, '/');
    lemma_before_first_concat(a, path, '/');
    lemma_before_first_concat(host, empty, ':');
    lemma_before_first_concat(host, seq![':'] + port_text, ':');
    let u1 = http_scheme() + host + path;
    let v1 = https_scheme() + host + path;
    let u2 = http_scheme() + host + (seq![':'] + port_text) + path;
    let v2 = https_scheme() + host + (seq![':'] + port_text) + path;
    assert(u1[4] != https_scheme()[4]);
    assert(u2[4] != https_scheme()[4]);
    assert(u1.take(7) =~= http_scheme());
    assert(u2.take(7) =~= http_scheme());
    assert(v1.take(8) =~= https_scheme());
    assert(v2.take(8) =~= https_scheme());
    assert(u1.skip(7) =~= host + path);
    assert(v1.skip(8) =~= host + path);
    assert(u2.skip(7) =~= a + path);
    assert(v2.skip(8) =~= a + path);
    if other.len() > 0 {
        assert(other[0] != https_scheme()[0]);
        assert(other[0] != http_scheme()[0]);
    }
}

/// The host name of an HTTP(S) URL, used for TLS SNI and the `Host` header.
pub fn extract_hostname(url: &str) -> (r: Option<String>)
    ensures
        opt_view(r) == hostname_spec(url@),
{
    let n = url.unicode_len();
    let rest = if has_https_scheme(url) {
        url.substring_char(8, n)
    } else if has_http_scheme(url) {
        url.substring_char(7, n)
    } else {
        return None;
    };
    let host_port = split_first(rest, '/');
    let host = split_first(host_port, ':');
    Some(host.to_owned())
}

// ---------------------------------------------------------------------------
// TLS certificates
// ---------------------------------------------------------------------------

/// The `notAfter` time (seconds since the Unix epoch) of the DER certificate
/// `der`, or `None` when it does not parse.
pub uninterp spec fn cert_not_after(der: Seq<u8>) -> Option<i64>;

/// Calls `x509_parser::parse_x509_certificate` (that is `X509Certificate::from_der`)
/// on `der` and reads `validity().not_after.timestamp()`. The contract claims only
/// that the result is the named function `cert_not_after` of the bytes: the DER
/// grammar of certificates is left unstated.
#[verifier::external_body]
fn parse_cert_not_after(der: &[u8]) -> (r: Option<i64>)
    ensures
        r == cert_not_after(der@),
{
    match x509_parser::parse_x509_certificate(der) {
        Ok((_, cert)) => Some(cert.validity().not_after.timestamp()),
        Err(_) => None,
    }
}

/// Expiry (seconds since the Unix epoch) of the leaf, the first certificate that
/// the server presented.
pub fn leaf_cert_expiry(certs: &Vec<Vec<u8>>) -> (r: Option<i64>)
    ensures
        r == (if certs@.len() == 0 {
            None
        } else {
            cert_not_after(certs@[0]@)
        }),
{
    if certs.len() == 0 {
        None
    } else {
        parse_cert_not_after(certs[0].as_slice())
    }
}

} // verus!
