//! What the metrics record for each probe: the label sets of the series, and the
//! up/down history of each endpoint that consecutive-failure and state-change
//! metrics come from.
use vstd::prelude::*;
use vstd::string::*;

use crate::config::protocol_name;
use crate::labels::{
    clone_label, label_view, labels_view, law_sort_labels, sort_labels, sort_labels_spec, LabelsView,
};
use crate::probe::LabeledProbeStatus;
use crate::probe::ProbeStatus;
use crate::text::{decimal, decimal_string};

verus! {

// ---------------------------------------------------------------------------
// Up/down history per label set
// ---------------------------------------------------------------------------

/// History of one label set: whether its last probe was up, and how many
/// probes in a row have failed.
#[derive(Clone, Copy, Debug, PartialEq, Eq, Structural)]
pub struct EndpointState {
    pub prev_up: bool,
    pub consecutive_failures: u64,
}

/// The history of a label set never probed: up, no failures.
pub open spec fn initial_state() -> EndpointState {
    EndpointState { prev_up: true, consecutive_failures: 0 }
}

/// The history after a probe that was `up`: the failure count resets on
/// success and grows by one on failure.
pub open spec fn next_state(s: EndpointState, up: bool) -> EndpointState {
    EndpointState {
        prev_up: up,
        consecutive_failures: if up {
            0
        } else {
            (s.consecutive_failures + 1) as u64
        },
    }
}

/// The history of label set `k` in `m`.
pub open spec fn state_of(m: Map<LabelsView, EndpointState>, k: LabelsView) -> EndpointState {
    if m.contains_key(k) {
        m[k]
    } else {
        initial_state()
    }
}

/// The history after the probe results `h`, oldest first.
pub open spec fn replay(h: Seq<bool>) -> EndpointState
    decreases h.len(),
{
    if h.len() == 0 {
        initial_state()
    } else {
        next_state(replay(h.drop_last()), h.last())
    }
}

/// How many of the latest results in `h` are failures, counting back to the
/// latest success.
pub open spec fn trailing_failures(h: Seq<bool>) -> nat
    decreases h.len(),
{
    if h.len() == 0 {
        0
    } else if h.last() {
        0
    } else {
        trailing_failures(h.drop_last()) + 1
    }
}

/// The failure count of a label set is the number of failures since its latest
/// success (it resets to 0 on success), and its up/down state is that of its
/// latest probe (up before any probe).
pub proof fn law_failure_count(h: Seq<bool>)
    ensures
        trailing_failures(h) <= u64::MAX ==> replay(h).consecutive_failures == trailing_failures(h),
        replay(h).prev_up == (h.len() == 0 || h.last()),
    decreases h.len(),
{
    if h.len() > 0 {
        law_failure_count(h.drop_last());
    }
}

/// Recording a probe extends the history of its own label set by that probe and
/// leaves every other label set's history as it was.
pub proof fn law_observe_extends_history(
    m: Map<LabelsView, EndpointState>,
    k: LabelsView,
    h: Seq<bool>,
    up: bool,
    other: LabelsView,
)
    requires
        state_of(m, k) == replay(h),
        other != k,
    ensures
        state_of(m.insert(k, next_state(state_of(m, k), up)), k) == replay(h.push(up)),
        state_of(m.insert(k, next_state(state_of(m, k), up)), other) == state_of(m, other),
{
    assert(h.push(up).drop_last() =~= h);
}

/// A probe changes the state of its label set exactly when its up/down status
/// differs from the latest one before it.
pub proof fn law_state_change(h: Seq<bool>, up: bool)
    ensures
        (replay(h).prev_up != up) == (up != (h.len() == 0 || h.last())),
        replay(h.push(up)).prev_up == up,
{
    law_failure_count(h);
    assert(h.push(up).drop_last() =~= h);
}

/// What one probe result changes in the history of its label set.
#[derive(Clone, Copy, Debug, PartialEq, Eq, Structural)]
pub struct Observation {
    /// Failures in a row, this probe included (0 after a success).
    pub consecutive_failures: u64,
    /// The probe's up/down status differs from the previous one.
    pub state_changed: bool,
    /// The probe succeeded.
    pub success: bool,
}

/// The up/down history of every label set seen so far.
pub struct EndpointStates {
    entries: Vec<(Vec<(String, String)>, EndpointState)>,
}

pub open spec fn view_of_entries(v: Seq<(Vec<(String, String)>, EndpointState)>) -> Seq<
    (LabelsView, EndpointState),
> {
    v.map_values(|e: (Vec<(String, String)>, EndpointState)| (labels_view(e.0@), e.1))
}

pub open spec fn entries_keys_unique(ev: Seq<(LabelsView, EndpointState)>) -> bool {
    forall|i: int, j: int| 0 <= i < j < ev.len() ==> ev[i].0 != ev[j].0
}

pub open spec fn entries_map(ev: Seq<(LabelsView, EndpointState)>) -> Map<LabelsView, EndpointState> {
    Map::new(
        |k: LabelsView| exists|i: int| 0 <= i < ev.len() && ev[i].0 == k,
        |k: LabelsView| ev[choose|i: int| 0 <= i < ev.len() && ev[i].0 == k].1,
    )
}

proof fn lemma_entries_map_at(ev: Seq<(LabelsView, EndpointState)>, i: int)
    requires
        entries_keys_unique(ev),
        0 <= i < ev.len(),
    ensures
        entries_map(ev).contains_key(ev[i].0),
        entries_map(ev)[ev[i].0] == ev[i].1,
{
    let k = ev[i].0;
    assert(exists|j: int| 0 <= j < ev.len() && ev[j].0 == k);
    let m = choose|j: int| 0 <= j < ev.len() && ev[j].0 == k;
    if m != i {
        if m < i {
            assert(ev[m].0 != ev[i].0);
        } else {
            assert(ev[i].0 != ev[m].0);
        }
    }
}

impl EndpointStates {
    pub closed spec fn entries_view(&self) -> Seq<(LabelsView, EndpointState)> {
        view_of_entries(self.entries@)
    }

    #[verifier::type_invariant]
    closed spec fn keys_unique(&self) -> bool {
        entries_keys_unique(self.entries_view())
    }

    /// No history yet.
    pub fn new() -> (r: Self)
        ensures
            r@ == Map::<LabelsView, EndpointState>::empty(),
    {
        let r = EndpointStates { entries: Vec::new() };
        assert(r@ =~= Map::<LabelsView, EndpointState>::empty());
        r
    }

    fn find(&self, labels: &Vec<(String, String)>) -> (r: Option<usize>)
        ensures
            match r {
                Some(i) => i < self.entries_view().len() && self.entries_view()[i as int].0
                    == labels_view(labels@),
                None => forall|j: int|
                    0 <= j < self.entries_view().len() ==> self.entries_view()[j].0
                        != labels_view(labels@),
            },
    {
        let mut i: usize = 0;
        while i < self.entries.len()
            invariant
                i <= self.entries@.len(),
                self.entries_view().len() == self.entries@.len(),
                forall|j: int|
                    0 <= j < i ==> self.entries_view()[j].0 != labels_view(labels@),
            decreases self.entries@.len() - i,
        {
            if labels_equal(&self.entries[i].0, labels) {
                return Some(i);
            }
            i = i + 1;
        }
        None
    }

    /// Consecutive failures recorded for `labels` (0 when never probed).
    pub fn failures(&self, labels: &Vec<(String, String)>) -> (r: u64)
        ensures
            r == state_of(self@, labels_view(labels@)).consecutive_failures,
    {
        proof {
            use_type_invariant(self);
        }
        match self.find(labels) {
            Some(i) => {
                proof {
                    lemma_entries_map_at(self.entries_view(), i as int);
                }
                self.entries[i].1.consecutive_failures
            },
            None => 0,
        }
    }

    /// Records one probe result for `labels`: the failure count resets on success
    /// and grows by one on failure, and the state changes when the up/down status
    /// differs from the previous one (a label set never seen counts as up).
    pub fn observe(&mut self, labels: &Vec<(String, String)>, up: bool) -> (r: Observation)
        requires
            up || state_of(old(self)@, labels_view(labels@)).consecutive_failures < u64::MAX,
        ensures
            final(self)@ == old(self)@.insert(
                labels_view(labels@),
                next_state(state_of(old(self)@, labels_view(labels@)), up),
            ),
            r.consecutive_failures == next_state(
                state_of(old(self)@, labels_view(labels@)),
                up,
            ).consecutive_failures,
            r.state_changed == (up != state_of(old(self)@, labels_view(labels@)).prev_up),
            r.success == up,
    {
        proof {
            use_type_invariant(&*self);
        }
        let ghost key = labels_view(labels@);
        let ghost ev = self.entries_view();
        match self.find(labels) {
            Some(i) => {
                proof {
                    lemma_entries_map_at(ev, i as int);
                }
                let prev = self.entries[i].1;
                let count = if up {
                    0
                } else {
                    prev.consecutive_failures + 1
                };
                let next = EndpointState { prev_up: up, consecutive_failures: count };
                let key_copy = clone_labels(&self.entries[i].0);
                let ghost new_ev = ev.update(i as int, (key, next));
                proof {
                    assert forall|a: int, b: int| 0 <= a < b < new_ev.len() implies new_ev[a].0
                        != new_ev[b].0 by {
                        assert(ev[a].0 != ev[b].0);
                    }
                }
                let mut entries: Vec<(Vec<(String, String)>, EndpointState)> = Vec::new();
                std::mem::swap(&mut entries, &mut self.entries);
                entries.set(i, (key_copy, next));
                assert(view_of_entries(entries@) =~= new_ev);
                self.entries = entries;
                proof {
                    assert(self.entries_view() =~= new_ev);
                    self.lemma_view_after_update(ev, new_ev, i as int, key, next);
                }
                Observation {
                    consecutive_failures: count,
                    state_changed: up != prev.prev_up,
                    success: up,
                }
            },
            None => {
                let count: u64 = if up {
                    0
                } else {
                    1
                };
                let next = EndpointState { prev_up: up, consecutive_failures: count };
                let key_copy = clone_labels(labels);
                let ghost new_ev = ev.push((key, next));
                proof {
                    assert(!old(self)@.contains_key(key));
                    assert forall|a: int, b: int| 0 <= a < b < new_ev.len() implies new_ev[a].0
                        != new_ev[b].0 by {
                        if b < ev.len() {
                            assert(ev[a].0 != ev[b].0);
                        }
                    }
                }
                let mut entries: Vec<(Vec<(String, String)>, EndpointState)> = Vec::new();
                std::mem::swap(&mut entries, &mut self.entries);
                entries.push((key_copy, next));
                assert(view_of_entries(entries@) =~= new_ev);
                self.entries = entries;
                proof {
                    assert(self.entries_view() =~= new_ev);
                    self.lemma_view_after_push(ev, new_ev, key, next);
                }
                Observation { consecutive_failures: count, state_changed: up != true, success: up }
            },
        }
    }

    proof fn lemma_view_after_update(
        &self,
        ev: Seq<(LabelsView, EndpointState)>,
        new_ev: Seq<(LabelsView, EndpointState)>,
        i: int,
        key: LabelsView,
        next: EndpointState,
    )
        requires
            entries_keys_unique(ev),
            entries_keys_unique(new_ev),
            0 <= i < ev.len(),
            ev[i].0 == key,
            new_ev == ev.update(i, (key, next)),
        ensures
            entries_map(new_ev) == entries_map(ev).insert(key, next),
    {
        lemma_entries_map_at(new_ev, i);
        assert forall|k: LabelsView| #[trigger]
            entries_map(new_ev).contains_key(k) == entries_map(ev).insert(key, next).contains_key(
                k,
            ) by {
            if entries_map(ev).contains_key(k) {
                let j = choose|j: int| 0 <= j < ev.len() && ev[j].0 == k;
                if j != i {
                    assert(new_ev[j].0 == k);
                }
            }
            if entries_map(new_ev).contains_key(k) {
                let j = choose|j: int| 0 <= j < new_ev.len() && new_ev[j].0 == k;
                assert(ev[j].0 == k || j == i);
            }
        }
        assert forall|k: LabelsView| entries_map(new_ev).contains_key(k) && k != key implies #[trigger]
            entries_map(new_ev)[k] == entries_map(ev)[k] by {
            let j = choose|j: int| 0 <= j < new_ev.len() && new_ev[j].0 == k;
            assert(j != i);
            lemma_entries_map_at(new_ev, j);
            lemma_entries_map_at(ev, j);
        }
        assert(entries_map(new_ev) =~= entries_map(ev).insert(key, next));
    }

    proof fn lemma_view_after_push(
        &self,
        ev: Seq<(LabelsView, EndpointState)>,
        new_ev: Seq<(LabelsView, EndpointState)>,
        key: LabelsView,
        next: EndpointState,
    )
        requires
            entries_keys_unique(ev),
            entries_keys_unique(new_ev),
            new_ev == ev.push((key, next)),
        ensures
            entries_map(new_ev) == entries_map(ev).insert(key, next),
    {
        let n = ev.len() as int;
        lemma_entries_map_at(new_ev, n);
        assert forall|k: LabelsView| #[trigger]
            entries_map(new_ev).contains_key(k) == entries_map(ev).insert(key, next).contains_key(
                k,
            ) by {
            if entries_map(ev).contains_key(k) {
                let j = choose|j: int| 0 <= j < ev.len() && ev[j].0 == k;
                assert(new_ev[j].0 == k);
            }
            if entries_map(new_ev).contains_key(k) {
                let j = choose|j: int| 0 <= j < new_ev.len() && new_ev[j].0 == k;
                assert(ev[j].0 == k || j == n);
            }
        }
        assert forall|k: LabelsView| entries_map(new_ev).contains_key(k) && k != key implies #[trigger]
            entries_map(new_ev)[k] == entries_map(ev)[k] by {
            let j = choose|j: int| 0 <= j < new_ev.len() && new_ev[j].0 == k;
            assert(j != n);
            lemma_entries_map_at(new_ev, j);
            lemma_entries_map_at(ev, j);
        }
        assert(entries_map(new_ev) =~= entries_map(ev).insert(key, next));
    }
}

impl View for EndpointStates {
    type V = Map<LabelsView, EndpointState>;

    closed spec fn view(&self) -> Map<LabelsView, EndpointState> {
        entries_map(self.entries_view())
    }
}

/// Whether two label sets are the same, label by label.
pub fn labels_equal(a: &Vec<(String, String)>, b: &Vec<(String, String)>) -> (r: bool)
    ensures
        r == (labels_view(a@) == labels_view(b@)),
{
    if a.len() != b.len() {
        proof {
            assert(labels_view(a@).len() != labels_view(b@).len());
        }
        return false;
    }
    let mut i: usize = 0;
    while i < a.len()
        invariant
            a@.len() == b@.len(),
            i <= a@.len(),
            forall|j: int| 0 <= j < i ==> labels_view(a@)[j] == labels_view(b@)[j],
        decreases a@.len() - i,
    {
        if a[i].0 != b[i].0 || a[i].1 != b[i].1 {
            proof {
                assert(labels_view(a@)[i as int] != labels_view(b@)[i as int]);
            }
            return false;
        }
        i = i + 1;
    }
    assert(labels_view(a@) =~= labels_view(b@));
    true
}

/// A copy of a label set.
pub fn clone_labels(v: &Vec<(String, String)>) -> (r: Vec<(String, String)>)
    ensures
        r@ == v@,
{
    let mut out: Vec<(String, String)> = Vec::new();
    let mut i: usize = 0;
    while i < v.len()
        invariant
            i <= v@.len(),
            out@ == v@.take(i as int),
        decreases v@.len() - i,
    {
        out.push(clone_label(&v[i]));
        assert(out@ =~= v@.take(i + 1));
        i = i + 1;
    }
    assert(out@ =~= v@);
    out
}

// ---------------------------------------------------------------------------
// Label sets of the series
// ---------------------------------------------------------------------------

/// The value of the `status` label of a probe or lookup.
pub open spec fn status_name(up: bool) -> Seq<char> {
    if up {
        "success"@
    } else {
        "failure"@
    }
}

/// The labels of a probe's series before sorting: target and protocol, the
/// address unless hidden, the port when there is one, then the extra labels.
pub open spec fn raw_probe_labels(s: ProbeStatus, ip_text: Seq<char>, extra: LabelsView) -> LabelsView {
    seq![("target"@, s.target@), ("protocol"@, protocol_name(s.protocol))] + (if s.hide_ip_label {
        Seq::<(Seq<char>, Seq<char>)>::empty()
    } else {
        seq![("ip"@, ip_text)]
    }) + (match s.port {
        Some(p) => seq![("port"@, decimal(p as nat))],
        None => Seq::<(Seq<char>, Seq<char>)>::empty(),
    }) + extra
}

/// A probe's series carries its target and its protocol, its address unless that
/// is hidden, its port when it has one, and its extra labels, and nothing else;
/// sorting them keeps every one. The count series adds a `status` label,
/// `success` for an up probe and `failure` otherwise.
pub proof fn law_probe_label_set(s: ProbeStatus, ip_text: Seq<char>, extra: LabelsView)
    ensures
        raw_probe_labels(s, ip_text, extra).contains(("target"@, s.target@)),
        raw_probe_labels(s, ip_text, extra).contains(("protocol"@, protocol_name(s.protocol))),
        !s.hide_ip_label ==> raw_probe_labels(s, ip_text, extra).contains(("ip"@, ip_text)),
        s.port is Some ==> raw_probe_labels(s, ip_text, extra).contains(
            ("port"@, decimal(s.port->0 as nat)),
        ),
        forall|i: int|
            0 <= i < extra.len() ==> raw_probe_labels(s, ip_text, extra).contains(#[trigger] extra[i]),
        raw_probe_labels(s, ip_text, extra).len() == 2 + (if s.hide_ip_label {
            0int
        } else {
            1int
        }) + (if s.port is Some {
            1int
        } else {
            0int
        }) + extra.len(),
        sort_labels_spec(raw_probe_labels(s, ip_text, extra)).to_multiset() == raw_probe_labels(
            s,
            ip_text,
            extra,
        ).to_multiset(),
        status_name(true) == "success"@,
        status_name(false) == "failure"@,
{
    let raw = raw_probe_labels(s, ip_text, extra);
    let mid: LabelsView = if s.hide_ip_label {
        Seq::empty()
    } else {
        seq![("ip"@, ip_text)]
    };
    let pt: LabelsView = match s.port {
        Some(p) => seq![("port"@, decimal(p as nat))],
        None => Seq::empty(),
    };
    let head = seq![("target"@, s.target@), ("protocol"@, protocol_name(s.protocol))];
    assert(raw == head + mid + pt + extra);
    assert(raw[0] == ("target"@, s.target@));
    assert(raw[1] == ("protocol"@, protocol_name(s.protocol)));
    if !s.hide_ip_label {
        assert(raw[2] == ("ip"@, ip_text));
    }
    if s.port is Some {
        assert(raw[2 + mid.len() as int] == ("port"@, decimal(s.port->0 as nat)));
    }
    assert forall|i: int| 0 <= i < extra.len() implies raw.contains(#[trigger] extra[i]) by {
        assert(raw[2 + mid.len() as int + pt.len() as int + i] == extra[i]);
    }
    law_sort_labels(raw);
}

/// A label from two texts.
fn pair(name: &str, value: &str) -> (r: (String, String))
    ensures
        label_view(r) == (name@, value@),
{
    (name.to_owned(), value.to_owned())
}

/// Appends copies of `extra` to `v`.
fn append_labels(v: &mut Vec<(String, String)>, extra: &Vec<(String, String)>)
    ensures
        labels_view(final(v)@) == labels_view(old(v)@) + labels_view(extra@),
{
    let ghost start = labels_view(v@);
    let mut i: usize = 0;
    while i < extra.len()
        invariant
            i <= extra@.len(),
            labels_view(v@) == start + labels_view(extra@).take(i as int),
        decreases extra@.len() - i,
    {
        let ghost before = v@;
        v.push(clone_label(&extra[i]));
        assert(labels_view(v@) =~= labels_view(before).push(label_view(extra@[i as int])));
        assert(labels_view(extra@).take(i + 1) =~= labels_view(extra@).take(i as int).push(
            label_view(extra@[i as int]),
        ));
        i = i + 1;
    }
    assert(labels_view(extra@).take(i as int) =~= labels_view(extra@));
}

/// The sorted labels of a probe's series; `ip_text` is the text of the probed
/// address.
pub fn probe_labels(result: &LabeledProbeStatus, ip_text: &str) -> (r: Vec<(String, String)>)
    ensures
        labels_view(r@) == sort_labels_spec(
            raw_probe_labels(result.inner, ip_text@, labels_view(result.extra_labels@)),
        ),
{
    let r = &result.inner;
    let mut labels: Vec<(String, String)> = Vec::new();
    labels.push(pair("target", r.target.as_str()));
    labels.push(pair("protocol", r.protocol.as_str()));
    let ghost fixed = labels_view(labels@);
    assert(fixed =~= seq![("target"@, r.target@), ("protocol"@, protocol_name(r.protocol))]);
    if !r.hide_ip_label {
        labels.push(pair("ip", ip_text));
    }
    let ghost with_ip = labels_view(labels@);
    assert(with_ip =~= fixed + (if r.hide_ip_label {
        Seq::<(Seq<char>, Seq<char>)>::empty()
    } else {
        seq![("ip"@, ip_text@)]
    }));
    if let Some(port) = r.port {
        let text = decimal_string(port as u64);
        labels.push(pair("port", text.as_str()));
    }
    let ghost with_port = labels_view(labels@);
    assert(with_port =~= with_ip + (match r.port {
        Some(p) => seq![("port"@, decimal(p as nat))],
        None => Seq::<(Seq<char>, Seq<char>)>::empty(),
    }));
    append_labels(&mut labels, &result.extra_labels);
    sort_labels(labels)
}

/// The sorted labels of a probe-count series: the probe's labels and its status.
pub fn status_labels(labels: &Vec<(String, String)>, up: bool) -> (r: Vec<(String, String)>)
    ensures
        labels_view(r@) == sort_labels_spec(labels_view(labels@).push(("status"@, status_name(up)))),
{
    let mut v: Vec<(String, String)> = Vec::new();
    append_labels(&mut v, labels);
    let status = if up {
        "success"
    } else {
        "failure"
    };
    let ghost before = v@;
    v.push(pair("status", status));
    assert(labels_view(v@) =~= labels_view(before).push(label_view(v@[v@.len() - 1])));
    assert(labels_view(v@) =~= labels_view(labels@).push(("status"@, status_name(up))));
    sort_labels(v)
}

/// The sorted labels of a DNS-lookup series.
pub fn dns_lookup_labels(status: &str, target: &str, protocol: &str) -> (r: Vec<(String, String)>)
    ensures
        labels_view(r@) == sort_labels_spec(
            seq![("status"@, status@), ("target"@, target@), ("protocol"@, protocol@)],
        ),
{
    let mut v: Vec<(String, String)> = Vec::new();
    v.push(pair("status", status));
    v.push(pair("target", target));
    v.push(pair("protocol", protocol));
    assert(labels_view(v@) =~= seq![
        ("status"@, status@),
        ("target"@, target@),
        ("protocol"@, protocol@),
    ]);
    sort_labels(v)
}

/// The sorted labels of the build-information series.
pub fn build_info_labels(version: &str, commit: &str) -> (r: Vec<(String, String)>)
    ensures
        labels_view(r@) == sort_labels_spec(seq![("version"@, version@), ("commit"@, commit@)]),
{
    let mut v: Vec<(String, String)> = Vec::new();
    v.push(pair("version", version));
    v.push(pair("commit", commit));
    assert(labels_view(v@) =~= seq![("version"@, version@), ("commit"@, commit@)]);
    sort_labels(v)
}

} // verus!
