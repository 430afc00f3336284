//! Character-level helpers on strings: searching, prefixes, and the
//! number parsing that the configuration and network code relies on.
use vstd::prelude::*;
use vstd::string::*;
use vstd::std_specs::iter::IteratorSpec;

verus! {

// ---------------------------------------------------------------------------
// Searching
// ---------------------------------------------------------------------------

/// `i` is the position of the first occurrence of `c` in `s`.
pub open spec fn is_first_pos(s: Seq<char>, c: char, i: int) -> bool {
    &&& 0 <= i < s.len()
    &&& s[i] == c
    &&& forall|j: int| 0 <= j < i ==> s[j] != c
}

/// `i` is the position of the last occurrence of `c` in `s`.
pub open spec fn is_last_pos(s: Seq<char>, c: char, i: int) -> bool {
    &&& 0 <= i < s.len()
    &&& s[i] == c
    &&& forall|j: int| i < j < s.len() ==> s[j] != c
}

/// Position of the first `c` in `s`, or `s.len()` when `c` does not occur.
pub open spec fn first_pos(s: Seq<char>, c: char) -> int {
    if exists|i: int| is_first_pos(s, c, i) {
        choose|i: int| is_first_pos(s, c, i)
    } else {
        s.len() as int
    }
}

/// Position of the last `c` in `s`, or `None` when `c` does not occur.
pub open spec fn last_pos(s: Seq<char>, c: char) -> Option<int> {
    if exists|i: int| is_last_pos(s, c, i) {
        Some(choose|i: int| is_last_pos(s, c, i))
    } else {
        None
    }
}

/// The part of `s` before its first `c` (all of `s` when there is none):
/// what `s.split(c).next()` yields.
pub open spec fn before_first(s: Seq<char>, c: char) -> Seq<char> {
    s.take(first_pos(s, c))
}

pub proof fn lemma_first_pos(s: Seq<char>, c: char, i: int)
    requires
        is_first_pos(s, c, i),
    ensures
        first_pos(s, c) == i,
{
    let k = choose|k: int| is_first_pos(s, c, k);
    assert(is_first_pos(s, c, k));
    if k < i {
        assert(s[k] != c);
    }
    if i < k {
        assert(s[i] != c);
    }
}

pub proof fn lemma_first_pos_none(s: Seq<char>, c: char)
    requires
        forall|j: int| 0 <= j < s.len() ==> s[j] != c,
    ensures
        first_pos(s, c) == s.len(),
{
    if exists|i: int| is_first_pos(s, c, i) {
        let k = choose|k: int| is_first_pos(s, c, k);
        assert(s[k] == c);
    }
}

pub proof fn lemma_last_pos(s: Seq<char>, c: char, i: int)
    requires
        is_last_pos(s, c, i),
    ensures
        last_pos(s, c) == Some(i),
{
    let k = choose|k: int| is_last_pos(s, c, k);
    assert(is_last_pos(s, c, k));
    if k < i {
        assert(s[i] != c);
    }
    if i < k {
        assert(s[k] != c);
    }
}

pub proof fn lemma_last_pos_none(s: Seq<char>, c: char)
    requires
        forall|j: int| 0 <= j < s.len() ==> s[j] != c,
    ensures
        last_pos(s, c) is None,
{
    if exists|i: int| is_last_pos(s, c, i) {
        let k = choose|k: int| is_last_pos(s, c, k);
        assert(s[k] == c);
    }
}

/// Finds the first `c` in `s`; returns `s`'s length in characters when there is none.
pub fn find_first(s: &str, c: char) -> (r: usize)
    ensures
        r == first_pos(s@, c),
        r <= s@.len(),
{
    let n = s.unicode_len();
    let mut i: usize = 0;
    while i < n
        invariant
            n == s@.len(),
            i <= n,
            forall|j: int| 0 <= j < i ==> s@[j] != c,
        decreases n - i,
    {
        if s.get_char(i) == c {
            proof {
                lemma_first_pos(s@, c, i as int);
            }
            return i;
        }
        i = i + 1;
    }
    proof {
        lemma_first_pos_none(s@, c);
    }
    n
}

/// Finds the last `c` in `s`.
pub fn find_last(s: &str, c: char) -> (r: Option<usize>)
    ensures
        match r {
            Some(i) => last_pos(s@, c) == Some(i as int),
            None => last_pos(s@, c) is None,
        },
{
    let n = s.unicode_len();
    let mut i: usize = n;
    while i > 0
        invariant
            n == s@.len(),
            i <= n,
            forall|j: int| i <= j < n ==> s@[j] != c,
        decreases i,
    {
        if s.get_char(i - 1) == c {
            proof {
                lemma_last_pos(s@, c, i - 1);
            }
            return Some(i - 1);
        }
        i = i - 1;
    }
    proof {
        lemma_last_pos_none(s@, c);
    }
    None
}

/// Whether `p` is a prefix of `s`.
pub fn starts_with(s: &str, p: &str) -> (r: bool)
    ensures
        r == p@.is_prefix_of(s@),
{
    let n = s.unicode_len();
    let m = p.unicode_len();
    if m > n {
        return false;
    }
    let mut i: usize = 0;
    while i < m
        invariant
            n == s@.len(),
            m == p@.len(),
            m <= n,
            i <= m,
            forall|j: int| 0 <= j < i ==> p@[j] == s@[j],
        decreases m - i,
    {
        if s.get_char(i) != p.get_char(i) {
            return false;
        }
        i = i + 1;
    }
    true
}

/// The part of `s` before its first `c`.
pub fn split_first<'a>(s: &'a str, c: char) -> (r: &'a str)
    ensures
        r@ == before_first(s@, c),
{
    let k = find_first(s, c);
    s.substring_char(0, k)
}

// ---------------------------------------------------------------------------
// URL schemes
// ---------------------------------------------------------------------------

pub open spec fn https_scheme() -> Seq<char> {
    seq!['h', 't', 't', 'p', 's', ':', '/', '/']
}

pub open spec fn http_scheme() -> Seq<char> {
    seq!['h', 't', 't', 'p', ':', '/', '/']
}

/// `s` without a leading `https://` or, failing that, `http://`.
pub open spec fn strip_scheme(s: Seq<char>) -> Seq<char> {
    if https_scheme().is_prefix_of(s) {
        s.skip(8)
    } else if http_scheme().is_prefix_of(s) {
        s.skip(7)
    } else {
        s
    }
}

/// Whether `s` starts with `https://`.
pub fn has_https_scheme(s: &str) -> (r: bool)
    ensures
        r == https_scheme().is_prefix_of(s@),
{
    let r = starts_with(s, "https://");
    proof {
        reveal_strlit("https://");
        assert("https://"@ =~= https_scheme());
    }
    r
}

/// Whether `s` starts with `http://`.
pub fn has_http_scheme(s: &str) -> (r: bool)
    ensures
        r == http_scheme().is_prefix_of(s@),
{
    let r = starts_with(s, "http://");
    proof {
        reveal_strlit("http://");
        assert("http://"@ =~= http_scheme());
    }
    r
}

/// Removes a leading `https://` or `http://` from `s`.
pub fn without_scheme<'a>(s: &'a str) -> (r: &'a str)
    ensures
        r@ == strip_scheme(s@),
{
    let n = s.unicode_len();
    if has_https_scheme(s) {
        s.substring_char(8, n)
    } else if has_http_scheme(s) {
        s.substring_char(7, n)
    } else {
        s
    }
}

// ---------------------------------------------------------------------------
// Unsigned integers as `from_str` / `from_str_radix` read them
// ---------------------------------------------------------------------------

/// Value of the digit `c` in base `radix` (10 or 16; both letter cases in base 16).
pub open spec fn digit_value(c: char, radix: nat) -> Option<nat> {
    let v = c as u32;
    if 48 <= v <= 57 {
        Some((v - 48) as nat)
    } else if radix == 16 && 97 <= v <= 102 {
        Some((v - 87) as nat)
    } else if radix == 16 && 65 <= v <= 70 {
        Some((v - 55) as nat)
    } else {
        None
    }
}

pub open spec fn all_digits(s: Seq<char>, radix: nat) -> bool {
    forall|i: int| 0 <= i < s.len() ==> (#[trigger] digit_value(s[i], radix)) is Some
}

/// The number that the digits `s` denote in base `radix`.
pub open spec fn digits_value(s: Seq<char>, radix: nat) -> nat
    decreases s.len(),
{
    if s.len() == 0 {
        0
    } else {
        digits_value(s.drop_last(), radix) * radix + match digit_value(s.last(), radix) {
            Some(d) => d,
            None => 0,
        }
    }
}

/// `s` without one leading `+`.
pub open spec fn unsigned_digits(s: Seq<char>) -> Seq<char> {
    if s.len() > 0 && s[0] == '+' {
        s.drop_first()
    } else {
        s
    }
}

/// What std's unsigned `from_str_radix` gives for `s`, for a type whose largest
/// value is `max`: an optional `+`, then at least one digit, and a value that fits.
pub open spec fn parse_unsigned_spec(s: Seq<char>, radix: nat, max: nat) -> Option<nat> {
    let d = unsigned_digits(s);
    if d.len() > 0 && all_digits(d, radix) && digits_value(d, radix) <= max {
        Some(digits_value(d, radix))
    } else {
        None
    }
}

/// What `s.parse::<u16>()` gives.
pub open spec fn parse_u16_spec(s: Seq<char>) -> Option<u16> {
    match parse_unsigned_spec(s, 10, 65535) {
        Some(v) => Some(v as u16),
        None => None,
    }
}

fn digit_of(c: char, radix: u32) -> (r: Option<u32>)
    requires
        radix == 10 || radix == 16,
    ensures
        match r {
            Some(d) => digit_value(c, radix as nat) == Some(d as nat) && d < radix,
            None => digit_value(c, radix as nat) is None,
        },
{
    let v = c as u32;
    if 48 <= v && v <= 57 {
        Some(v - 48)
    } else if radix == 16 && 97 <= v && v <= 102 {
        Some(v - 87)
    } else if radix == 16 && 65 <= v && v <= 70 {
        Some(v - 55)
    } else {
        None
    }
}

proof fn lemma_grow_past(a: nat, r: nat, d: nat, max: nat)
    requires
        a > max,
        r >= 1,
    ensures
        a * r + d > max,
{
    assert(a * r >= a) by (nonlinear_arith)
        requires
            r >= 1,
    ;
}

/// Reads `s` as std's unsigned `from_str_radix(s, radix)` does, for a type whose
/// largest value is `max`.
pub fn parse_unsigned(s: &str, radix: u32, max: u64) -> (r: Option<u64>)
    requires
        radix == 10 || radix == 16,
    ensures
        match r {
            Some(v) => parse_unsigned_spec(s@, radix as nat, max as nat) == Some(v as nat),
            None => parse_unsigned_spec(s@, radix as nat, max as nat) is None,
        },
{
    let n = s.unicode_len();
    let start: usize = if n > 0 && s.get_char(0) == '+' {
        1
    } else {
        0
    };
    let ghost d = unsigned_digits(s@);
    assert(d =~= s@.subrange(start as int, n as int));
    if start == n {
        return None;
    }
    let cap: u128 = max as u128 + 1;
    let mut acc: u128 = 0;
    let mut i: usize = start;
    while i < n
        invariant
            n == s@.len(),
            start <= i <= n,
            d == s@.subrange(start as int, n as int),
            d == unsigned_digits(s@),
            radix == 10 || radix == 16,
            cap == max + 1,
            all_digits(s@.subrange(start as int, i as int), radix as nat),
            digits_value(s@.subrange(start as int, i as int), radix as nat) <= max ==> acc
                == digits_value(s@.subrange(start as int, i as int), radix as nat),
            digits_value(s@.subrange(start as int, i as int), radix as nat) > max ==> acc == cap,
        decreases n - i,
    {
        let ghost prev = s@.subrange(start as int, i as int);
        let ghost next = s@.subrange(start as int, i + 1);
        assert(next.drop_last() =~= prev);
        assert(next.last() == s@[i as int]);
        let c = s.get_char(i);
        match digit_of(c, radix) {
            None => {
                proof {
                    assert(d[i - start] == c);
                    assert(digit_value(d[i - start], radix as nat) is None);
                }
                return None;
            },
            Some(dv) => {
                proof {
                    assert forall|j: int| 0 <= j < next.len() implies (#[trigger] digit_value(
                        next[j],
                        radix as nat,
                    )) is Some by {
                        if j < prev.len() {
                            assert(next[j] == prev[j]);
                        }
                    }
                }
                if acc == cap {
                    proof {
                        lemma_grow_past(
                            digits_value(prev, radix as nat),
                            radix as nat,
                            dv as nat,
                            max as nat,
                        );
                    }
                } else {
                    assert(acc <= max);
                    assert(acc * (radix as u128) <= 0xffff_ffff_ffff_ffffu128 * 16) by (nonlinear_arith)
                        requires
                            acc <= 0xffff_ffff_ffff_ffffu128,
                            radix <= 16,
                    ;
                    let nv = acc * (radix as u128) + (dv as u128);
                    if nv > max as u128 {
                        acc = cap;
                    } else {
                        acc = nv;
                    }
                }
            },
        }
        i = i + 1;
    }
    assert(s@.subrange(start as int, n as int) =~= d);
    if acc == cap {
        None
    } else {
        Some(acc as u64)
    }
}

/// Reads `s` as `s.parse::<u16>()` does.
pub fn parse_u16(s: &str) -> (r: Option<u16>)
    ensures
        r == parse_u16_spec(s@),
{
    match parse_unsigned(s, 10, 65535) {
        Some(v) => Some(v as u16),
        None => None,
    }
}

} // verus!

verus! {

/// The characters of `s`, in order.
pub fn to_chars(s: &str) -> (r: Vec<char>)
    ensures
        r@ == s@,
{
    broadcast use vstd::string::group_string_axioms;
    let mut v: Vec<char> = Vec::new();
    for c in it: s.chars()
        invariant
            v@ == it.seq().take(it.index() as int),
            it.seq() == s@,
    {
        v.push(c);
        assert(v@ =~= it.seq().take(it.index() + 1));
    }
    assert(v@ =~= s@);
    v
}

} // verus!

verus! {

// ---------------------------------------------------------------------------
// Trimming runs of one character
// ---------------------------------------------------------------------------

/// `s` has exactly `k` leading copies of `c`.
pub open spec fn is_lead_run(s: Seq<char>, c: char, k: int) -> bool {
    &&& 0 <= k <= s.len()
    &&& forall|j: int| 0 <= j < k ==> s[j] == c
    &&& (k == s.len() || s[k] != c)
}

/// `s` has exactly `k` trailing copies of `c`.
pub open spec fn is_trail_run(s: Seq<char>, c: char, k: int) -> bool {
    &&& 0 <= k <= s.len()
    &&& forall|j: int| s.len() - k <= j < s.len() ==> s[j] == c
    &&& (k == s.len() || s[s.len() - k - 1] != c)
}

pub open spec fn lead_run(s: Seq<char>, c: char) -> int {
    choose|k: int| is_lead_run(s, c, k)
}

pub open spec fn trail_run(s: Seq<char>, c: char) -> int {
    choose|k: int| is_trail_run(s, c, k)
}

/// `s` without its leading copies of `c`: `s.trim_start_matches(c)`.
pub open spec fn trim_start(s: Seq<char>, c: char) -> Seq<char> {
    s.skip(lead_run(s, c))
}

/// `s` without its trailing copies of `c`: `s.trim_end_matches(c)`.
pub open spec fn trim_end(s: Seq<char>, c: char) -> Seq<char> {
    s.take(s.len() - trail_run(s, c))
}

/// `s` without leading `[` and trailing `]`.
pub open spec fn trim_brackets(s: Seq<char>) -> Seq<char> {
    trim_end(trim_start(s, '['), ']')
}

proof fn lemma_lead_run(s: Seq<char>, c: char, k: int)
    requires
        is_lead_run(s, c, k),
    ensures
        lead_run(s, c) == k,
{
    let m = choose|m: int| is_lead_run(s, c, m);
    assert(is_lead_run(s, c, m));
    if m < k {
        assert(s[m] == c);
    }
    if k < m {
        assert(s[k] == c);
    }
}

proof fn lemma_trail_run(s: Seq<char>, c: char, k: int)
    requires
        is_trail_run(s, c, k),
    ensures
        trail_run(s, c) == k,
{
    let m = choose|m: int| is_trail_run(s, c, m);
    assert(is_trail_run(s, c, m));
    if m < k {
        assert(s[s.len() - m - 1] == c);
    }
    if k < m {
        assert(s[s.len() - k - 1] == c);
    }
}

/// Trimming brackets leaves a text without brackets as it is.
pub proof fn lemma_no_brackets(s: Seq<char>)
    requires
        forall|j: int| 0 <= j < s.len() ==> s[j] != '[' && s[j] != ']',
    ensures
        trim_brackets(s) == s,
{
    lemma_lead_run(s, '[', 0);
    assert(s.skip(0) =~= s);
    lemma_trail_run(s, ']', 0);
    assert(s.take(s.len() as int) =~= s);
}

/// Before the first `c` of `a + b`, where `a` holds no `c` and `b` is empty or
/// starts with `c`, stands `a`.
pub proof fn lemma_before_first_concat(a: Seq<char>, b: Seq<char>, c: char)
    requires
        forall|j: int| 0 <= j < a.len() ==> a[j] != c,
        b.len() == 0 || b[0] == c,
    ensures
        before_first(a + b, c) == a,
{
    let s = a + b;
    if b.len() > 0 {
        assert(is_first_pos(s, c, a.len() as int));
        lemma_first_pos(s, c, a.len() as int);
    } else {
        assert(s =~= a);
        lemma_first_pos_none(s, c);
    }
    assert(s.take(a.len() as int) =~= a);
}

/// `s.trim_start_matches(c)`.
pub fn trim_start_char<'a>(s: &'a str, c: char) -> (r: &'a str)
    ensures
        r@ == trim_start(s@, c),
{
    let n = s.unicode_len();
    let mut i: usize = 0;
    while i < n && s.get_char(i) == c
        invariant
            n == s@.len(),
            i <= n,
            forall|j: int| 0 <= j < i ==> s@[j] == c,
        decreases n - i,
    {
        i = i + 1;
    }
    proof {
        lemma_lead_run(s@, c, i as int);
    }
    s.substring_char(i, n)
}

/// `s.trim_end_matches(c)`.
pub fn trim_end_char<'a>(s: &'a str, c: char) -> (r: &'a str)
    ensures
        r@ == trim_end(s@, c),
{
    let n = s.unicode_len();
    let mut k: usize = 0;
    while k < n && s.get_char(n - k - 1) == c
        invariant
            n == s@.len(),
            k <= n,
            forall|j: int| n - k <= j < n ==> s@[j] == c,
        decreases n - k,
    {
        k = k + 1;
    }
    proof {
        lemma_trail_run(s@, c, k as int);
    }
    s.substring_char(0, n - k)
}

/// `s` without leading `[` and trailing `]`.
pub fn trim_bracket_chars<'a>(s: &'a str) -> (r: &'a str)
    ensures
        r@ == trim_brackets(s@),
{
    trim_end_char(trim_start_char(s, '['), ']')
}

// ---------------------------------------------------------------------------
// Decimal text of unsigned numbers
// ---------------------------------------------------------------------------

/// The decimal digit for `d < 10`.
pub open spec fn digit_char(d: nat) -> char {
    ((d + 48) as u32) as char
}

/// The decimal text of `n`, without leading zeros (`"0"` for zero).
pub open spec fn decimal(n: nat) -> Seq<char>
    decreases n,
{
    if n < 10 {
        seq![digit_char(n)]
    } else {
        decimal(n / 10).push(digit_char(n % 10))
    }
}

proof fn lemma_decimal_digits(n: nat)
    ensures
        decimal(n).len() > 0,
        all_digits(decimal(n), 10),
        digits_value(decimal(n), 10) == n,
        decimal(n)[0] != '+',
    decreases n,
{
    if n < 10 {
        let c = digit_char(n);
        assert((c as u32) == n + 48);
        assert(digit_value(c, 10) == Some(n));
        assert(decimal(n).drop_last() =~= Seq::<char>::empty());
        assert(digits_value(Seq::<char>::empty(), 10) == 0);
        assert(digits_value(decimal(n), 10) == 0 * 10 + n);
    } else {
        lemma_decimal_digits(n / 10);
        let d = decimal(n / 10);
        let c = digit_char(n % 10);
        assert((c as u32) == n % 10 + 48);
        let t = d.push(c);
        assert(t.drop_last() =~= d);
        assert forall|i: int| 0 <= i < t.len() implies (#[trigger] digit_value(t[i], 10)) is Some by {
            if i < d.len() {
                assert(t[i] == d[i]);
            }
        }
        assert(digit_value(c, 10) == Some(n % 10));
        assert(digits_value(t, 10) == digits_value(d, 10) * 10 + n % 10);
        assert(n == (n / 10) * 10 + n % 10) by (nonlinear_arith);
    }
}

/// Reading back the decimal text of a number gives the number, for every number
/// that fits: what `decimal_string` writes, `parse_unsigned` (and so
/// `parse_u16`) reads.
pub proof fn law_decimal_round_trip(n: nat, max: nat)
    requires
        n <= max,
    ensures
        parse_unsigned_spec(decimal(n), 10, max) == Some(n),
        n <= 65535 ==> parse_u16_spec(decimal(n)) == Some(n as u16),
{
    lemma_decimal_digits(n);
}

/// The single-character string of the digit `d`.
fn digit_str(d: u64) -> (r: &'static str)
    requires
        d < 10,
    ensures
        r@ == seq![digit_char(d as nat)],
{
    let digits = "0123456789";
    proof {
        reveal_strlit("0123456789");
    }
    let r = digits.substring_char(d as usize, (d + 1) as usize);
    proof {
        assert(r@ =~= seq![digit_char(d as nat)]);
    }
    r
}

/// The decimal text of `n`.
pub fn decimal_string(n: u64) -> (r: String)
    ensures
        r@ == decimal(n as nat),
    decreases n,
{
    if n < 10 {
        digit_str(n).to_owned()
    } else {
        let mut s = decimal_string(n / 10);
        s.append(digit_str(n % 10));
        s
    }
}

} // verus!

verus! {

// ---------------------------------------------------------------------------
// Splitting at a character
// ---------------------------------------------------------------------------

/// The pieces of `s` between occurrences of `c` (what `s.split(c)` yields).
pub open spec fn split_spec(s: Seq<char>, c: char) -> Seq<Seq<char>>
    decreases s.len(),
{
    let k = first_pos(s, c);
    if 0 <= k < s.len() {
        seq![s.take(k)] + split_spec(s.skip(k + 1), c)
    } else {
        seq![s]
    }
}

/// Splitting `a`, which holds no `c`, at `c` gives `a` alone.
pub proof fn lemma_split_none(a: Seq<char>, c: char)
    requires
        forall|j: int| 0 <= j < a.len() ==> a[j] != c,
    ensures
        split_spec(a, c) == seq![a],
{
    lemma_first_pos_none(a, c);
}

/// Splitting `a`, then `c`, then `b` at `c`, where `a` holds no `c`, gives `a`
/// followed by the pieces of `b`.
pub proof fn lemma_split_cons(a: Seq<char>, b: Seq<char>, c: char)
    requires
        forall|j: int| 0 <= j < a.len() ==> a[j] != c,
    ensures
        split_spec(a + (seq![c] + b), c) == seq![a] + split_spec(b, c),
{
    let s = a + (seq![c] + b);
    assert(is_first_pos(s, c, a.len() as int));
    lemma_first_pos(s, c, a.len() as int);
    assert(s.take(a.len() as int) =~= a);
    assert(s.skip(a.len() as int + 1) =~= b);
}

/// The pieces `parts` joined with `c` between them.
pub open spec fn join_with(parts: Seq<Seq<char>>, c: char) -> Seq<char>
    decreases parts.len(),
{
    if parts.len() <= 1 {
        if parts.len() == 1 {
            parts[0]
        } else {
            Seq::empty()
        }
    } else {
        parts[0] + (seq![c] + join_with(parts.drop_first(), c))
    }
}

/// Splitting pieces joined with `c`, none of which holds `c`, gives the pieces
/// back: `split` undoes `join`.
pub proof fn law_split_undoes_join(parts: Seq<Seq<char>>, c: char)
    requires
        parts.len() > 0,
        forall|i: int, j: int| 0 <= i < parts.len() && 0 <= j < parts[i].len() ==> parts[i][j] != c,
    ensures
        split_spec(join_with(parts, c), c) == parts,
    decreases parts.len(),
{
    if parts.len() == 1 {
        lemma_split_none(parts[0], c);
        assert(seq![parts[0]] =~= parts);
    } else {
        let rest = parts.drop_first();
        assert forall|i: int, j: int| 0 <= i < rest.len() && 0 <= j < rest[i].len() implies rest[i][j]
            != c by {
            assert(rest[i] == parts[i + 1]);
        }
        law_split_undoes_join(rest, c);
        assert forall|j: int| 0 <= j < parts[0].len() implies parts[0][j] != c by {}
        lemma_split_cons(parts[0], join_with(rest, c), c);
        assert(seq![parts[0]] + rest =~= parts);
    }
}

pub open spec fn views_of(v: Seq<&str>) -> Seq<Seq<char>> {
    v.map_values(|p: &str| p@)
}

/// The pieces of `s` between occurrences of `c`.
pub fn split_char<'a>(s: &'a str, c: char) -> (r: Vec<&'a str>)
    ensures
        views_of(r@) == split_spec(s@, c),
{
    let n = s.unicode_len();
    let mut parts: Vec<&'a str> = Vec::new();
    let mut start: usize = 0;
    let mut i: usize = 0;
    assert(s@.skip(0) =~= s@);
    assert(views_of(parts@) =~= Seq::<Seq<char>>::empty());
    while i < n
        invariant
            n == s@.len(),
            start <= i <= n,
            forall|j: int| start <= j < i ==> s@[j] != c,
            views_of(parts@) + split_spec(s@.skip(start as int), c) == split_spec(s@, c),
        decreases n - i,
    {
        if s.get_char(i) == c {
            let ghost t = s@.skip(start as int);
            proof {
                lemma_first_pos(t, c, (i - start) as int);
                assert(t.take(i - start) =~= s@.subrange(start as int, i as int));
                assert(t.skip(i - start + 1) =~= s@.skip(i + 1));
            }
            let ghost before = parts@;
            parts.push(s.substring_char(start, i));
            proof {
                assert(views_of(parts@) =~= views_of(before).push(s@.subrange(start as int, i as int)));
                assert(split_spec(t, c) == seq![t.take(i - start)] + split_spec(s@.skip(i + 1), c));
                assert(views_of(parts@) + split_spec(s@.skip(i + 1), c) =~= views_of(before)
                    + split_spec(t, c));
            }
            start = i + 1;
        }
        i = i + 1;
    }
    let ghost t = s@.skip(start as int);
    proof {
        lemma_first_pos_none(t, c);
        assert(t =~= s@.subrange(start as int, n as int));
    }
    let ghost before = parts@;
    parts.push(s.substring_char(start, n));
    proof {
        assert(views_of(parts@) =~= views_of(before).push(t));
        assert(views_of(parts@) =~= views_of(before) + split_spec(t, c));
    }
    parts
}

} // verus!

verus! {

/// Whether two strings are equal.
pub fn str_equal(a: &str, b: &str) -> (r: bool)
    ensures
        r == (a@ == b@),
{
    let n = a.unicode_len();
    if n != b.unicode_len() {
        return false;
    }
    let mut i: usize = 0;
    while i < n
        invariant
            n == a@.len(),
            n == b@.len(),
            i <= n,
            forall|j: int| 0 <= j < i ==> a@[j] == b@[j],
        decreases n - i,
    {
        if a.get_char(i) != b.get_char(i) {
            return false;
        }
        i = i + 1;
    }
    assert(a@ =~= b@);
    true
}

} // verus!
