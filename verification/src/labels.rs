//! Metric label sets: name/value pairs, ordered by name, and merged with
//! later settings overriding earlier ones.
use vstd::prelude::*;
use vstd::string::*;

verus! {

/// A label as text: its name and its value.
pub type LabelView = (Seq<char>, Seq<char>);

/// A label set as text.
pub type LabelsView = Seq<LabelView>;

pub open spec fn label_view(l: (String, String)) -> LabelView {
    (l.0@, l.1@)
}

pub open spec fn labels_view(v: Seq<(String, String)>) -> LabelsView {
    v.map_values(|l: (String, String)| label_view(l))
}

// ---------------------------------------------------------------------------
// Order of names
// ---------------------------------------------------------------------------

/// `a` and `b` agree on their first `k` characters and differ at `k` (or one ends there).
pub open spec fn is_common_prefix_len(a: Seq<char>, b: Seq<char>, k: int) -> bool {
    &&& 0 <= k <= a.len()
    &&& k <= b.len()
    &&& forall|j: int| 0 <= j < k ==> a[j] == b[j]
    &&& (k == a.len() || k == b.len() || a[k] != b[k])
}

pub open spec fn common_prefix_len(a: Seq<char>, b: Seq<char>) -> int {
    choose|k: int| is_common_prefix_len(a, b, k)
}

/// Lexicographic order of strings by character: the order of `String`'s `Ord`
/// (UTF-8 byte order is code point order).
pub open spec fn str_lt(a: Seq<char>, b: Seq<char>) -> bool {
    let k = common_prefix_len(a, b);
    if k < a.len() && k < b.len() {
        (a[k] as int) < (b[k] as int)
    } else {
        a.len() < b.len()
    }
}

proof fn lemma_common_prefix_len(a: Seq<char>, b: Seq<char>, k: int)
    requires
        is_common_prefix_len(a, b, k),
    ensures
        common_prefix_len(a, b) == k,
{
    let m = choose|m: int| is_common_prefix_len(a, b, m);
    assert(is_common_prefix_len(a, b, m));
    if m < k {
        assert(a[m] == b[m]);
    }
    if k < m {
        assert(a[k] == b[k]);
    }
}

proof fn lemma_cpl_from(a: Seq<char>, b: Seq<char>, k: int)
    requires
        0 <= k <= a.len(),
        k <= b.len(),
        forall|j: int| 0 <= j < k ==> a[j] == b[j],
    ensures
        is_common_prefix_len(a, b, common_prefix_len(a, b)),
    decreases a.len() - k,
{
    if k == a.len() || k == b.len() || a[k] != b[k] {
        assert(is_common_prefix_len(a, b, k));
    } else {
        lemma_cpl_from(a, b, k + 1);
    }
}

/// Any two strings have a common prefix length.
pub proof fn lemma_cpl(a: Seq<char>, b: Seq<char>)
    ensures
        is_common_prefix_len(a, b, common_prefix_len(a, b)),
        common_prefix_len(a, b) == common_prefix_len(b, a),
{
    lemma_cpl_from(a, b, 0);
    lemma_common_prefix_len(b, a, common_prefix_len(a, b));
}

/// The order of strings is asymmetric.
pub proof fn lemma_lt_asym(a: Seq<char>, b: Seq<char>)
    ensures
        !(str_lt(a, b) && str_lt(b, a)),
{
    lemma_cpl(a, b);
}

/// Distinct strings are ordered one way or the other.
pub proof fn lemma_lt_total(a: Seq<char>, b: Seq<char>)
    ensures
        a == b || str_lt(a, b) || str_lt(b, a),
{
    lemma_cpl(a, b);
    let k = common_prefix_len(a, b);
    if k < a.len() && k < b.len() {
        assert(a[k] != b[k]);
        assert((a[k] as int) != (b[k] as int));
    } else if a.len() == b.len() {
        assert(a =~= b);
    }
}

/// The order of strings is transitive.
pub proof fn lemma_lt_trans(a: Seq<char>, b: Seq<char>, c: Seq<char>)
    requires
        str_lt(a, b),
        str_lt(b, c),
    ensures
        str_lt(a, c),
{
    lemma_cpl(a, b);
    lemma_cpl(b, c);
    lemma_cpl(a, c);
    let k1 = common_prefix_len(a, b);
    let k2 = common_prefix_len(b, c);
    if k1 < k2 {
        assert forall|j: int| 0 <= j < k1 implies a[j] == c[j] by {
            assert(b[j] == c[j]);
        }
        if k1 < a.len() && k1 < b.len() {
            assert(b[k1] == c[k1]);
            lemma_common_prefix_len(a, c, k1);
        } else {
            assert(k1 == a.len());
            lemma_common_prefix_len(a, c, k1);
        }
    } else if k2 < k1 {
        assert forall|j: int| 0 <= j < k2 implies a[j] == c[j] by {
            assert(a[j] == b[j]);
        }
        assert(k2 < b.len());
        assert(a[k2] == b[k2]);
        lemma_common_prefix_len(a, c, k2);
    } else {
        let k = k1;
        assert forall|j: int| 0 <= j < k implies a[j] == c[j] by {
            assert(a[j] == b[j]);
        }
        lemma_common_prefix_len(a, c, k);
    }
}

/// `a` does not come after `b`.
pub open spec fn str_le(a: Seq<char>, b: Seq<char>) -> bool {
    !str_lt(b, a)
}

/// Not coming after is transitive.
pub proof fn lemma_le_trans(a: Seq<char>, b: Seq<char>, c: Seq<char>)
    requires
        str_le(a, b),
        str_le(b, c),
    ensures
        str_le(a, c),
{
    if str_lt(c, a) {
        lemma_lt_total(a, b);
        if str_lt(a, b) {
            lemma_lt_trans(c, a, b);
        }
    }
}

/// Whether `a` comes before `b`.
pub fn str_less(a: &str, b: &str) -> (r: bool)
    ensures
        r == str_lt(a@, b@),
{
    let n = a.unicode_len();
    let m = b.unicode_len();
    let mut k: usize = 0;
    while k < n && k < m && a.get_char(k) == b.get_char(k)
        invariant
            n == a@.len(),
            m == b@.len(),
            k <= n,
            k <= m,
            forall|j: int| 0 <= j < k ==> a@[j] == b@[j],
        decreases n - k,
    {
        k = k + 1;
    }
    proof {
        lemma_common_prefix_len(a@, b@, k as int);
    }
    if k < n && k < m {
        (a.get_char(k) as u32) < (b.get_char(k) as u32)
    } else {
        n < m
    }
}

// ---------------------------------------------------------------------------
// Sorting by name
// ---------------------------------------------------------------------------

/// `i` is where a stable insertion puts `x` into `s`: the first element whose
/// name comes after `x`'s.
pub open spec fn is_insert_pos(s: LabelsView, x: LabelView, i: int) -> bool {
    &&& 0 <= i <= s.len()
    &&& forall|j: int| 0 <= j < i ==> !str_lt(x.0, #[trigger] s[j].0)
    &&& (i == s.len() || str_lt(x.0, s[i].0))
}

pub open spec fn insert_pos(s: LabelsView, x: LabelView) -> int {
    choose|i: int| is_insert_pos(s, x, i)
}

proof fn lemma_insert_pos(s: LabelsView, x: LabelView, i: int)
    requires
        is_insert_pos(s, x, i),
    ensures
        insert_pos(s, x) == i,
{
    let m = choose|m: int| is_insert_pos(s, x, m);
    assert(is_insert_pos(s, x, m));
    if m < i {
        assert(!str_lt(x.0, s[m].0));
    }
    if i < m {
        assert(!str_lt(x.0, s[i].0));
    }
}

/// The label sequence `s` sorted by name, labels with equal names keeping
/// their order (what a stable sort by name gives).
pub open spec fn sort_labels_spec(s: LabelsView) -> LabelsView
    decreases s.len(),
{
    if s.len() == 0 {
        s
    } else {
        let sorted = sort_labels_spec(s.drop_last());
        sorted.insert(insert_pos(sorted, s.last()), s.last())
    }
}

/// Names never decrease along `s`.
pub open spec fn sorted_by_name(s: LabelsView) -> bool {
    forall|i: int, j: int| 0 <= i < j < s.len() ==> str_le(#[trigger] s[i].0, #[trigger] s[j].0)
}

proof fn lemma_insert_pos_from(s: LabelsView, x: LabelView, k: int)
    requires
        0 <= k <= s.len(),
        forall|j: int| 0 <= j < k ==> !str_lt(x.0, #[trigger] s[j].0),
    ensures
        is_insert_pos(s, x, insert_pos(s, x)),
    decreases s.len() - k,
{
    if k == s.len() || str_lt(x.0, s[k].0) {
        assert(is_insert_pos(s, x, k));
    } else {
        lemma_insert_pos_from(s, x, k + 1);
    }
}

proof fn lemma_insert_sorted(s: LabelsView, x: LabelView)
    requires
        sorted_by_name(s),
    ensures
        sorted_by_name(s.insert(insert_pos(s, x), x)),
        s.insert(insert_pos(s, x), x).to_multiset() =~= s.to_multiset().insert(x),
{
    broadcast use vstd::seq_lib::group_to_multiset_ensures;

    lemma_insert_pos_from(s, x, 0);
    let p = insert_pos(s, x);
    let t = s.insert(p, x);
    assert forall|i: int, j: int| 0 <= i < j < t.len() implies str_le(
        #[trigger] t[i].0,
        #[trigger] t[j].0,
    ) by {
        if i < p && j < p {
            assert(t[i] == s[i] && t[j] == s[j]);
        } else if i < p && j == p {
            assert(t[i] == s[i]);
            assert(!str_lt(x.0, s[i].0));
        } else if i < p && j > p {
            assert(t[i] == s[i] && t[j] == s[j - 1]);
        } else if i == p {
            assert(t[j] == s[j - 1]);
            assert(str_lt(x.0, s[p].0));
            lemma_lt_asym(x.0, s[p].0);
            if j - 1 > p {
                assert(str_le(s[p].0, s[j - 1].0));
                lemma_le_trans(x.0, s[p].0, s[j - 1].0);
            }
        } else {
            assert(t[i] == s[i - 1] && t[j] == s[j - 1]);
        }
    }
    assert(t.remove(p) =~= s);
    assert(t[p] == x);
    assert(t.to_multiset().count(x) > 0) by {
        assert(t.contains(x));
    }
    assert(s.to_multiset() =~= t.to_multiset().remove(x));
}

/// Sorting labels gives them in order of name and keeps every label: the result
/// is a rearrangement of the input.
pub proof fn law_sort_labels(s: LabelsView)
    ensures
        sorted_by_name(sort_labels_spec(s)),
        sort_labels_spec(s).to_multiset() == s.to_multiset(),
    decreases s.len(),
{
    broadcast use vstd::seq_lib::group_to_multiset_ensures;

    if s.len() > 0 {
        law_sort_labels(s.drop_last());
        lemma_insert_sorted(sort_labels_spec(s.drop_last()), s.last());
        assert(s =~= s.drop_last().push(s.last()));
    }
}

/// A string does not come before itself.
proof fn lemma_lt_irrefl(a: Seq<char>)
    ensures
        !str_lt(a, a),
{
    lemma_lt_asym(a, a);
}

/// Coming before, then not after, is coming before.
proof fn lemma_lt_le_trans(a: Seq<char>, b: Seq<char>, c: Seq<char>)
    requires
        str_lt(a, b),
        str_le(b, c),
    ensures
        str_lt(a, c),
{
    lemma_lt_total(a, c);
    if a == c {
        lemma_lt_asym(a, b);
    } else if str_lt(c, a) {
        lemma_lt_trans(c, a, b);
    }
}

/// Whether a label is named `k`.
pub open spec fn name_is(k: Seq<char>) -> spec_fn(LabelView) -> bool {
    |l: LabelView| l.0 == k
}

/// The labels of `s` named `k`, in the order of `s`.
pub open spec fn labels_named(s: LabelsView, k: Seq<char>) -> LabelsView {
    s.filter(name_is(k))
}

/// Sorting is stable: the labels that share a name come out in the order they
/// came in.
pub proof fn law_sort_labels_stable(s: LabelsView, k: Seq<char>)
    ensures
        labels_named(sort_labels_spec(s), k) == labels_named(s, k),
    decreases s.len(),
{
    if s.len() > 0 {
        let pred = name_is(k);
        let rest = s.drop_last();
        let x = s.last();
        let sorted = sort_labels_spec(rest);
        law_sort_labels_stable(rest, k);
        law_sort_labels(rest);
        lemma_insert_pos_from(sorted, x, 0);
        let p = insert_pos(sorted, x);
        assert(s =~= rest.push(x));
        rest.lemma_filter_push(x, pred);
        let a = sorted.take(p);
        let b = sorted.skip(p);
        assert(sorted =~= a + b);
        assert(sorted.insert(p, x) =~= a.push(x) + b);
        assert(sort_labels_spec(s) == sorted.insert(p, x));
        Seq::filter_distributes_over_add(a, b, pred);
        Seq::filter_distributes_over_add(a.push(x), b, pred);
        a.lemma_filter_push(x, pred);
        if pred(x) {
            assert forall|j: int| 0 <= j < b.len() implies #[trigger] b[j].0 != k by {
                assert(b[j] == sorted[p + j]);
                assert(str_lt(x.0, sorted[p].0));
                if j > 0 {
                    assert(str_le(sorted[p].0, sorted[p + j].0));
                    lemma_lt_le_trans(x.0, sorted[p].0, sorted[p + j].0);
                }
                lemma_lt_irrefl(x.0);
            }
            assert(b.all(|y: LabelView| !pred(y)));
            b.lemma_all_neg_filter_empty(pred);
            assert(b.filter(pred) =~= Seq::<LabelView>::empty());
            assert(labels_named(sort_labels_spec(s), k) =~= labels_named(s, k));
        } else {
            assert(labels_named(sort_labels_spec(s), k) =~= labels_named(s, k));
        }
    }
}

/// The names of a label sequence, in order.
pub open spec fn names_of(labels: LabelsView) -> Seq<Seq<char>> {
    labels.map_values(|l: LabelView| l.0)
}

/// Sorting keeps every name, as often as it occurs.
pub proof fn lemma_sort_keeps_names(s: LabelsView)
    ensures
        names_of(sort_labels_spec(s)).to_multiset() == names_of(s).to_multiset(),
    decreases s.len(),
{
    broadcast use vstd::seq_lib::group_to_multiset_ensures;

    if s.len() > 0 {
        let rest = s.drop_last();
        let x = s.last();
        let sorted = sort_labels_spec(rest);
        lemma_sort_keeps_names(rest);
        lemma_insert_pos_from(sorted, x, 0);
        let p = insert_pos(sorted, x);
        assert(names_of(sorted.insert(p, x)) =~= names_of(sorted).insert(p, x.0));
        assert(names_of(s) =~= names_of(rest).push(x.0));
    }
}

/// Copies a label.
pub fn clone_label(l: &(String, String)) -> (r: (String, String))
    ensures
        r == *l,
{
    (l.0.clone(), l.1.clone())
}

/// Sorts labels by name, stably.
pub fn sort_labels(labels: Vec<(String, String)>) -> (r: Vec<(String, String)>)
    ensures
        labels_view(r@) == sort_labels_spec(labels_view(labels@)),
{
    let ghost input = labels_view(labels@);
    let mut rest = labels;
    let total = rest.len();
    let mut out: Vec<(String, String)> = Vec::new();
    let mut i: usize = 0;
    assert(input.take(0) =~= Seq::<LabelView>::empty());
    while rest.len() > 0
        invariant
            i <= input.len(),
            input.len() == total,
            rest@.len() == input.len() - i,
            labels_view(rest@) == input.skip(i as int),
            labels_view(out@) == sort_labels_spec(input.take(i as int)),
        decreases rest@.len(),
    {
        let ghost sorted = labels_view(out@);
        let ghost before = rest@;
        let x = rest.remove(0);
        assert(label_view(x) == input[i as int]) by {
            assert(labels_view(before)[0] == label_view(before[0]));
            assert(input.skip(i as int)[0] == input[i as int]);
        }
        // find the insertion point
        let mut j: usize = 0;
        while j < out.len() && !str_less(x.0.as_str(), out[j].0.as_str())
            invariant
                j <= out@.len(),
                labels_view(out@) == sorted,
                forall|t: int| 0 <= t < j ==> !str_lt(x.0@, #[trigger] sorted[t].0),
            decreases out@.len() - j,
        {
            assert(sorted[j as int] == label_view(out@[j as int]));
            j = j + 1;
        }
        proof {
            if j < out@.len() {
                assert(sorted[j as int] == label_view(out@[j as int]));
            }
            lemma_insert_pos(sorted, label_view(x), j as int);
        }
        out.insert(j, x);
        proof {
            let next = input.take(i + 1);
            assert(next.drop_last() =~= input.take(i as int));
            assert(next.last() == label_view(x));
            assert(labels_view(out@) =~= sorted.insert(j as int, label_view(x)));
            assert forall|t: int| 0 <= t < rest@.len() implies labels_view(rest@)[t]
                == input.skip(i + 1)[t] by {
                assert(rest@[t] == before[t + 1]);
                assert(labels_view(before)[t + 1] == input.skip(i as int)[t + 1]);
            }
            assert(labels_view(rest@) =~= input.skip(i + 1));
        }
        i = i + 1;
    }
    proof {
        assert(input.skip(i as int).len() == 0);
        assert(input.take(i as int) =~= input);
    }
    out
}

// ---------------------------------------------------------------------------
// Label sets with unique names
// ---------------------------------------------------------------------------

/// No two labels share a name.
pub open spec fn unique_keys(s: LabelsView) -> bool {
    forall|i: int, j: int| 0 <= i < j < s.len() ==> s[i].0 != s[j].0
}

/// Position of the label named `k`, if any.
pub open spec fn key_pos(s: LabelsView, k: Seq<char>) -> Option<int> {
    if exists|i: int| 0 <= i < s.len() && s[i].0 == k {
        Some(choose|i: int| 0 <= i < s.len() && s[i].0 == k)
    } else {
        None
    }
}

/// The value of the label named `k` in a set with unique names.
pub open spec fn label_value(s: LabelsView, k: Seq<char>) -> Option<Seq<char>> {
    match key_pos(s, k) {
        Some(i) => Some(s[i].1),
        None => None,
    }
}

/// Sets label `p.0` to `p.1`: replaces the label of that name, or appends it.
pub open spec fn upsert(s: LabelsView, p: LabelView) -> LabelsView {
    match key_pos(s, p.0) {
        Some(i) => s.update(i, p),
        None => s.push(p),
    }
}

/// Sets each label of `ps` in turn.
pub open spec fn upsert_all(s: LabelsView, ps: LabelsView) -> LabelsView
    decreases ps.len(),
{
    if ps.len() == 0 {
        s
    } else {
        upsert(upsert_all(s, ps.drop_last()), ps.last())
    }
}

/// The labels of `base`, then those of `over`, a later label overriding an
/// earlier one of the same name.
pub open spec fn merge_labels_spec(base: LabelsView, over: LabelsView) -> LabelsView {
    upsert_all(upsert_all(Seq::empty(), base), over)
}

proof fn lemma_key_pos_unique(s: LabelsView, k: Seq<char>, i: int)
    requires
        unique_keys(s),
        0 <= i < s.len(),
        s[i].0 == k,
    ensures
        key_pos(s, k) == Some(i),
{
    let m = choose|m: int| 0 <= m < s.len() && s[m].0 == k;
    if m != i {
        if m < i {
            assert(s[m].0 != s[i].0);
        } else {
            assert(s[i].0 != s[m].0);
        }
    }
}

/// Setting a label keeps names unique, gives the label its new value and leaves
/// the others.
pub proof fn lemma_upsert(s: LabelsView, p: LabelView)
    requires
        unique_keys(s),
    ensures
        unique_keys(upsert(s, p)),
        label_value(upsert(s, p), p.0) == Some(p.1),
        forall|k: Seq<char>| k != p.0 ==> label_value(upsert(s, p), k) == label_value(s, k),
{
    let t = upsert(s, p);
    match key_pos(s, p.0) {
        Some(i) => {
            let m = choose|m: int| 0 <= m < s.len() && s[m].0 == p.0;
            assert(0 <= i < s.len() && s[i].0 == p.0);
            assert(unique_keys(t));
            lemma_key_pos_unique(t, p.0, i);
            assert forall|k: Seq<char>| k != p.0 implies label_value(t, k) == label_value(s, k) by {
                match key_pos(s, k) {
                    Some(j) => {
                        assert(0 <= j < s.len() && s[j].0 == k);
                        lemma_key_pos_unique(s, k, j);
                        lemma_key_pos_unique(t, k, j);
                    },
                    None => {
                        if exists|j: int| 0 <= j < t.len() && t[j].0 == k {
                            let j = choose|j: int| 0 <= j < t.len() && t[j].0 == k;
                            assert(s[j].0 == k);
                        }
                    },
                }
            }
        },
        None => {
            assert forall|a: int, b: int| 0 <= a < b < t.len() implies t[a].0 != t[b].0 by {
                if b == s.len() {
                    assert(s[a].0 != p.0);
                }
            }
            lemma_key_pos_unique(t, p.0, s.len() as int);
            assert forall|k: Seq<char>| k != p.0 implies label_value(t, k) == label_value(s, k) by {
                match key_pos(s, k) {
                    Some(j) => {
                        assert(0 <= j < s.len() && s[j].0 == k);
                        lemma_key_pos_unique(s, k, j);
                        lemma_key_pos_unique(t, k, j);
                    },
                    None => {
                        if exists|j: int| 0 <= j < t.len() && t[j].0 == k {
                            let j = choose|j: int| 0 <= j < t.len() && t[j].0 == k;
                            assert(s[j].0 == k);
                        }
                    },
                }
            }
        },
    }
}

/// Position of the label named `k` in `v`.
fn find_label(v: &Vec<(String, String)>, k: &String) -> (r: Option<usize>)
    requires
        unique_keys(labels_view(v@)),
    ensures
        match r {
            Some(i) => key_pos(labels_view(v@), k@) == Some(i as int),
            None => key_pos(labels_view(v@), k@) is None,
        },
{
    let ghost s = labels_view(v@);
    let mut i: usize = 0;
    while i < v.len()
        invariant
            s == labels_view(v@),
            unique_keys(s),
            i <= v@.len(),
            forall|j: int| 0 <= j < i ==> (#[trigger] s[j]).0 != k@,
        decreases v@.len() - i,
    {
        assert(s[i as int] == label_view(v@[i as int]));
        if v[i].0 == *k {
            proof {
                lemma_key_pos_unique(s, k@, i as int);
            }
            return Some(i);
        }
        i = i + 1;
    }
    None
}

/// Sets label `p.0` to `p.1` in `v`.
fn upsert_label(v: &mut Vec<(String, String)>, p: (String, String))
    requires
        unique_keys(labels_view(old(v)@)),
    ensures
        labels_view(final(v)@) == upsert(labels_view(old(v)@), label_view(p)),
        unique_keys(labels_view(final(v)@)),
{
    proof {
        lemma_upsert(labels_view(v@), label_view(p));
    }
    let ghost s = labels_view(v@);
    match find_label(v, &p.0) {
        Some(i) => {
            v.set(i, p);
            assert(labels_view(v@) =~= s.update(i as int, label_view(p)));
        },
        None => {
            v.push(p);
            assert(labels_view(v@) =~= s.push(label_view(p)));
        },
    }
}

/// The labels of `base`, then those of `over`, a later label overriding an earlier
/// one of the same name: the extra labels of an endpoint override the general ones.
pub fn merge_labels(base: &Vec<(String, String)>, over: &Vec<(String, String)>) -> (r: Vec<
    (String, String),
>)
    ensures
        labels_view(r@) == merge_labels_spec(labels_view(base@), labels_view(over@)),
        unique_keys(labels_view(r@)),
{
    let mut out: Vec<(String, String)> = Vec::new();
    let ghost b = labels_view(base@);
    let ghost o = labels_view(over@);
    let mut i: usize = 0;
    assert(b.take(0) =~= Seq::<LabelView>::empty());
    while i < base.len()
        invariant
            b == labels_view(base@),
            i <= base@.len(),
            unique_keys(labels_view(out@)),
            labels_view(out@) == upsert_all(Seq::empty(), b.take(i as int)),
        decreases base@.len() - i,
    {
        let p = clone_label(&base[i]);
        upsert_label(&mut out, p);
        assert(b.take(i + 1).drop_last() =~= b.take(i as int));
        assert(b[i as int] == label_view(base@[i as int]));
        i = i + 1;
    }
    assert(b.take(i as int) =~= b);
    let mut i: usize = 0;
    assert(o.take(0) =~= Seq::<LabelView>::empty());
    while i < over.len()
        invariant
            b == labels_view(base@),
            o == labels_view(over@),
            i <= over@.len(),
            unique_keys(labels_view(out@)),
            labels_view(out@) == upsert_all(upsert_all(Seq::empty(), b), o.take(i as int)),
        decreases over@.len() - i,
    {
        let p = clone_label(&over[i]);
        upsert_label(&mut out, p);
        assert(o.take(i + 1).drop_last() =~= o.take(i as int));
        assert(o[i as int] == label_view(over@[i as int]));
        i = i + 1;
    }
    assert(o.take(i as int) =~= o);
    out
}

/// The value of the last label named `k` in `ps`, if any.
pub open spec fn last_value(ps: LabelsView, k: Seq<char>) -> Option<Seq<char>>
    decreases ps.len(),
{
    if ps.len() == 0 {
        None
    } else if ps.last().0 == k {
        Some(ps.last().1)
    } else {
        last_value(ps.drop_last(), k)
    }
}

proof fn lemma_upsert_all(s: LabelsView, ps: LabelsView)
    requires
        unique_keys(s),
    ensures
        unique_keys(upsert_all(s, ps)),
        forall|k: Seq<char>|
            #[trigger] label_value(upsert_all(s, ps), k) == match last_value(ps, k) {
                Some(v) => Some(v),
                None => label_value(s, k),
            },
    decreases ps.len(),
{
    if ps.len() > 0 {
        let prev = upsert_all(s, ps.drop_last());
        lemma_upsert_all(s, ps.drop_last());
        lemma_upsert(prev, ps.last());
        assert forall|k: Seq<char>|
            #[trigger] label_value(upsert_all(s, ps), k) == match last_value(ps, k) {
                Some(v) => Some(v),
                None => label_value(s, k),
            } by {
            assert(label_value(prev, k) == match last_value(ps.drop_last(), k) {
                Some(v) => Some(v),
                None => label_value(s, k),
            });
        }
    }
}

/// Merging label sets: the result names each label once; a label of `over`
/// wins over one of `base` with the same name (the last one of `over` when it
/// names it several times); any other label keeps the last value `base` gives it;
/// names in neither set stay absent.
pub proof fn law_merge_labels(base: LabelsView, over: LabelsView)
    ensures
        unique_keys(merge_labels_spec(base, over)),
        forall|k: Seq<char>|
            #[trigger] label_value(merge_labels_spec(base, over), k) == match last_value(over, k) {
                Some(v) => Some(v),
                None => last_value(base, k),
            },
{
    let e = Seq::<LabelView>::empty();
    assert forall|k: Seq<char>| label_value(e, k) is None by {}
    lemma_upsert_all(e, base);
    lemma_upsert_all(upsert_all(e, base), over);
}

/// The labels named `k` of a non-empty sequence: its first label when that one is
/// named `k`, followed by those of the rest.
proof fn lemma_named_cons(x: LabelsView, k: Seq<char>)
    requires
        x.len() > 0,
    ensures
        labels_named(x, k) == (if x[0].0 == k {
            seq![x[0]] + labels_named(x.drop_first(), k)
        } else {
            labels_named(x.drop_first(), k)
        }),
{
    let pred = name_is(k);
    let e = Seq::<LabelView>::empty();
    e.lemma_filter_len(pred);
    assert(e.filter(pred) =~= e);
    e.lemma_filter_push(x[0], pred);
    assert(e.push(x[0]) =~= seq![x[0]]);
    assert(x =~= seq![x[0]] + x.drop_first());
    Seq::filter_distributes_over_add(seq![x[0]], x.drop_first(), pred);
    if pred(x[0]) {
        assert(seq![x[0]].filter(pred) =~= seq![x[0]]);
    } else {
        assert(seq![x[0]].filter(pred) =~= e);
        assert(labels_named(x, k) =~= labels_named(x.drop_first(), k));
    }
}

/// Two label sequences sorted by name that hold, name by name, the same labels in
/// the same order are the same sequence.
proof fn lemma_sorted_same_named(x: LabelsView, y: LabelsView)
    requires
        sorted_by_name(x),
        sorted_by_name(y),
        forall|k: Seq<char>| #[trigger] labels_named(x, k) == labels_named(y, k),
    ensures
        x == y,
    decreases x.len(),
{
    if x.len() == 0 && y.len() == 0 {
        assert(x =~= y);
    } else if x.len() == 0 {
        lemma_named_cons(y, y[0].0);
        assert(labels_named(x, y[0].0) =~= Seq::<LabelView>::empty()) by {
            x.lemma_filter_len(name_is(y[0].0));
        }
        assert(labels_named(y, y[0].0).len() > 0);
        assert(labels_named(x, y[0].0) == labels_named(y, y[0].0));
    } else if y.len() == 0 {
        lemma_named_cons(x, x[0].0);
        assert(labels_named(y, x[0].0) =~= Seq::<LabelView>::empty()) by {
            y.lemma_filter_len(name_is(x[0].0));
        }
        assert(labels_named(x, x[0].0).len() > 0);
        assert(labels_named(x, x[0].0) == labels_named(y, x[0].0));
    } else {
        let a = x[0].0;
        let b = y[0].0;
        // the name `a` occurs in y, so y's first name does not come after it
        lemma_named_cons(x, a);
        assert(labels_named(y, a) == labels_named(x, a));
        assert(labels_named(y, a).len() > 0);
        let ya = labels_named(y, a);
        assert(ya.contains(ya[0]));
        y.lemma_filter_pred(name_is(a), 0);
        y.lemma_filter_contains_rev(name_is(a), ya[0]);
        assert(str_le(b, a)) by {
            let j = choose|j: int| 0 <= j < y.len() && y[j] == ya[0];
            assert(y[j].0 == a);
            if j > 0 {
                assert(str_le(y[0].0, y[j].0));
            } else {
                lemma_lt_irrefl(b);
            }
        }
        lemma_named_cons(y, b);
        assert(labels_named(x, b) == labels_named(y, b));
        let xb = labels_named(x, b);
        assert(xb.len() > 0);
        assert(xb.contains(xb[0]));
        x.lemma_filter_pred(name_is(b), 0);
        x.lemma_filter_contains_rev(name_is(b), xb[0]);
        assert(str_le(a, b)) by {
            let j = choose|j: int| 0 <= j < x.len() && x[j] == xb[0];
            assert(x[j].0 == b);
            if j > 0 {
                assert(str_le(x[0].0, x[j].0));
            } else {
                lemma_lt_irrefl(a);
            }
        }
        lemma_lt_total(a, b);
        assert(a == b);
        assert((seq![x[0]] + labels_named(x.drop_first(), a))[0] == x[0]);
        assert((seq![y[0]] + labels_named(y.drop_first(), a))[0] == y[0]);
        assert(x[0] == y[0]);
        let x1 = x.drop_first();
        let y1 = y.drop_first();
        assert forall|k: Seq<char>| #[trigger] labels_named(x1, k) == labels_named(y1, k) by {
            lemma_named_cons(x, k);
            lemma_named_cons(y, k);
            assert(labels_named(x, k) == labels_named(y, k));
            if k == a {
                assert(labels_named(x1, k) =~= labels_named(x, k).drop_first());
                assert(labels_named(y1, k) =~= labels_named(y, k).drop_first());
            }
        }
        assert(sorted_by_name(x1)) by {
            assert forall|i: int, j: int| 0 <= i < j < x1.len() implies str_le(
                #[trigger] x1[i].0,
                #[trigger] x1[j].0,
            ) by {
                assert(x1[i] == x[i + 1] && x1[j] == x[j + 1]);
            }
        }
        assert(sorted_by_name(y1)) by {
            assert forall|i: int, j: int| 0 <= i < j < y1.len() implies str_le(
                #[trigger] y1[i].0,
                #[trigger] y1[j].0,
            ) by {
                assert(y1[i] == y[i + 1] && y1[j] == y[j + 1]);
            }
        }
        lemma_sorted_same_named(x1, y1);
        assert(x =~= seq![x[0]] + x1);
        assert(y =~= seq![y[0]] + y1);
    }
}

/// The order labels come in matters only among labels that share a name: two
/// sequences that hold, name by name, the same labels in the same order (any
/// rearrangement that keeps each name's labels in order; with distinct names,
/// any rearrangement) sort to the same sequence, so they name the same series.
pub proof fn law_sort_labels_order_free(s: LabelsView, t: LabelsView)
    requires
        forall|k: Seq<char>| #[trigger] labels_named(s, k) == labels_named(t, k),
    ensures
        sort_labels_spec(s) == sort_labels_spec(t),
{
    law_sort_labels(s);
    law_sort_labels(t);
    assert forall|k: Seq<char>| #[trigger] labels_named(sort_labels_spec(s), k) == labels_named(
        sort_labels_spec(t),
        k,
    ) by {
        law_sort_labels_stable(s, k);
        law_sort_labels_stable(t, k);
        assert(labels_named(s, k) == labels_named(t, k));
    }
    lemma_sorted_same_named(sort_labels_spec(s), sort_labels_spec(t));
}

} // verus!
