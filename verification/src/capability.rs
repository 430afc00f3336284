//! Whether the process may open raw sockets, read from its status report.
use vstd::prelude::*;
use vstd::string::*;

use crate::text::{
    all_digits, digit_value, digits_value, join_with, law_split_undoes_join, lemma_split_cons,
    lemma_split_none, parse_unsigned, parse_unsigned_spec, split_char, split_spec, starts_with,
    unsigned_digits, views_of,
};

verus! {

/// The characters that `char::is_whitespace` accepts (Unicode `White_Space`).
pub open spec fn is_ws(c: char) -> bool {
    let v = c as u32;
    (9 <= v <= 13) || v == 32 || v == 0x85 || v == 0xA0 || v == 0x1680 || (0x2000 <= v <= 0x200A)
        || v == 0x2028 || v == 0x2029 || v == 0x202F || v == 0x205F || v == 0x3000
}

fn is_whitespace(c: char) -> (r: bool)
    ensures
        r == is_ws(c),
{
    let v = c as u32;
    (9 <= v && v <= 13) || v == 32 || v == 0x85 || v == 0xA0 || v == 0x1680 || (0x2000 <= v && v
        <= 0x200A) || v == 0x2028 || v == 0x2029 || v == 0x202F || v == 0x205F || v == 0x3000
}

/// `s` without leading and trailing whitespace, as `str::trim` gives it: the part
/// from `a` to `b`.
pub open spec fn is_trim_bounds(s: Seq<char>, a: int, b: int) -> bool {
    &&& 0 <= a <= b <= s.len()
    &&& forall|j: int| 0 <= j < a ==> is_ws(s[j])
    &&& forall|j: int| b <= j < s.len() ==> is_ws(s[j])
    &&& (a == b || (!is_ws(s[a]) && !is_ws(s[b - 1])))
}

pub open spec fn trim_ws(s: Seq<char>) -> Seq<char> {
    let (a, b) = choose|a: int, b: int| is_trim_bounds(s, a, b);
    s.subrange(a, b)
}

proof fn lemma_trim_bounds(s: Seq<char>, a: int, b: int)
    requires
        is_trim_bounds(s, a, b),
    ensures
        trim_ws(s) == s.subrange(a, b),
{
    let (x, y) = choose|x: int, y: int| is_trim_bounds(s, x, y);
    assert(is_trim_bounds(s, x, y));
    if a == b {
        // all whitespace
        if x != y {
            assert(is_ws(s[x]) || x >= a);
            if x < a {
                assert(is_ws(s[x]));
            } else {
                assert(is_ws(s[x]));
            }
        }
        assert(s.subrange(x, y) =~= s.subrange(a, b));
    } else {
        if x == y {
            if a < x {
                assert(is_ws(s[a]));
            } else {
                assert(is_ws(s[a]));
            }
        }
        if x < a {
            assert(is_ws(s[x]));
        }
        if a < x {
            assert(is_ws(s[a]));
        }
        if y < b {
            assert(is_ws(s[b - 1]));
        }
        if b < y {
            assert(is_ws(s[y - 1]));
        }
    }
}

/// `s.trim()`.
pub fn trim<'a>(s: &'a str) -> (r: &'a str)
    ensures
        r@ == trim_ws(s@),
{
    let n = s.unicode_len();
    let mut a: usize = 0;
    while a < n && is_whitespace(s.get_char(a))
        invariant
            n == s@.len(),
            a <= n,
            forall|j: int| 0 <= j < a ==> is_ws(s@[j]),
        decreases n - a,
    {
        a = a + 1;
    }
    let mut b: usize = n;
    while b > a && is_whitespace(s.get_char(b - 1))
        invariant
            n == s@.len(),
            a <= b <= n,
            forall|j: int| b <= j < n ==> is_ws(s@[j]),
        decreases b,
    {
        b = b - 1;
    }
    proof {
        lemma_trim_bounds(s@, a as int, b as int);
    }
    s.substring_char(a, b)
}

pub open spec fn cap_eff_prefix() -> Seq<char> {
    seq!['C', 'a', 'p', 'E', 'f', 'f', ':']
}

/// Index of the first line of `lines` that starts with `CapEff:`.
pub open spec fn is_first_cap_line(lines: Seq<Seq<char>>, i: int) -> bool {
    &&& 0 <= i < lines.len()
    &&& cap_eff_prefix().is_prefix_of(lines[i])
    &&& forall|j: int| 0 <= j < i ==> !cap_eff_prefix().is_prefix_of(#[trigger] lines[j])
}

/// Whether the effective capability mask of a line `CapEff: <hex>` has bit 13
/// (`CAP_NET_RAW`) set.
pub open spec fn line_grants_net_raw(line: Seq<char>) -> bool {
    let pieces = split_spec(line, ':');
    let field = if pieces.len() > 1 {
        pieces[1]
    } else {
        Seq::<char>::empty()
    };
    match parse_unsigned_spec(trim_ws(field), 16, 0xffff_ffff_ffff_ffff) {
        Some(v) => (v / 8192) % 2 == 1,
        None => false,
    }
}

/// Whether a `/proc/self/status` report grants `CAP_NET_RAW`: its first line
/// starting with `CapEff:` holds a hexadecimal mask with bit 13 set.
pub open spec fn grants_net_raw(content: Seq<char>) -> bool {
    let lines = split_spec(content, '\n');
    exists|i: int| is_first_cap_line(lines, i) && line_grants_net_raw(lines[i])
}

/// A status report grants `CAP_NET_RAW` exactly when bit 13 is set in the
/// hexadecimal mask of its first line that starts with `CapEff:` (a tab between
/// the two, as the kernel writes it); a report without such a line grants nothing.
pub proof fn law_net_raw_bit(lines: Seq<Seq<char>>, k: int, mask: Seq<char>)
    requires
        lines.len() > 0,
        forall|i: int, j: int| 0 <= i < lines.len() && 0 <= j < lines[i].len() ==> lines[i][j] != '\n',
    ensures
        (forall|i: int| 0 <= i < lines.len() ==> !cap_eff_prefix().is_prefix_of(#[trigger] lines[i]))
            ==> !grants_net_raw(join_with(lines, '\n')),
        ({
            &&& 0 <= k < lines.len()
            &&& lines[k] == cap_eff_prefix() + (seq!['\t'] + mask)
            &&& forall|i: int| 0 <= i < k ==> !cap_eff_prefix().is_prefix_of(#[trigger] lines[i])
            &&& mask.len() > 0
            &&& forall|j: int| 0 <= j < mask.len() ==> (#[trigger] digit_value(mask[j], 16)) is Some
            &&& digits_value(mask, 16) <= 0xffff_ffff_ffff_ffff
        }) ==> (grants_net_raw(join_with(lines, '\n')) <==> (digits_value(mask, 16) / 8192) % 2
            == 1),
{
    law_split_undoes_join(lines, '\n');
    let content = join_with(lines, '\n');
    assert(split_spec(content, '\n') == lines);
    if forall|i: int| 0 <= i < lines.len() ==> !cap_eff_prefix().is_prefix_of(#[trigger] lines[i]) {
        if grants_net_raw(content) {
            let i = choose|i: int| is_first_cap_line(lines, i) && line_grants_net_raw(lines[i]);
            assert(cap_eff_prefix().is_prefix_of(lines[i]));
        }
    }
    if 0 <= k < lines.len() && lines[k] == cap_eff_prefix() + (seq!['\t'] + mask) && (forall|i: int|
        0 <= i < k ==> !cap_eff_prefix().is_prefix_of(#[trigger] lines[i])) && mask.len() > 0
        && (forall|j: int| 0 <= j < mask.len() ==> (#[trigger] digit_value(mask[j], 16)) is Some)
        && digits_value(mask, 16) <= 0xffff_ffff_ffff_ffff {
        let line = lines[k];
        assert(line.take(7) =~= cap_eff_prefix());
        assert(is_first_cap_line(lines, k));
        let name = seq!['C', 'a', 'p', 'E', 'f', 'f'];
        let field = seq!['\t'] + mask;
        assert(line =~= name + (seq![':'] + field));
        assert forall|j: int| 0 <= j < mask.len() implies mask[j] != ':' by {
            assert(digit_value(mask[j], 16) is Some);
        }
        assert forall|j: int| 0 <= j < field.len() implies field[j] != ':' by {
            if j > 0 {
                assert(field[j] == mask[j - 1]);
                assert(digit_value(mask[j - 1], 16) is Some);
            }
        }
        lemma_split_none(field, ':');
        lemma_split_cons(name, field, ':');
        assert(split_spec(line, ':') =~= seq![name, field]);
        assert(is_trim_bounds(field, 1, field.len() as int)) by {
            assert forall|j: int| 1 <= j < field.len() implies !is_ws(field[j]) by {
                assert(field[j] == mask[j - 1]);
                assert(digit_value(mask[j - 1], 16) is Some);
            }
            assert(!is_ws(field[1]));
            assert(!is_ws(field[field.len() - 1]));
        }
        lemma_trim_bounds(field, 1, field.len() as int);
        assert(field.subrange(1, field.len() as int) =~= mask);
        assert(mask[0] != '+') by {
            assert(digit_value(mask[0], 16) is Some);
        }
        assert(unsigned_digits(mask) == mask);
        assert(all_digits(mask, 16));
        if grants_net_raw(content) {
            let i = choose|i: int| is_first_cap_line(lines, i) && line_grants_net_raw(lines[i]);
            if i < k {
                assert(!cap_eff_prefix().is_prefix_of(lines[i]));
            }
            if k < i {
                assert(!cap_eff_prefix().is_prefix_of(lines[k]));
            }
        }
        if (digits_value(mask, 16) / 8192) % 2 == 1 {
            assert(is_first_cap_line(lines, k) && line_grants_net_raw(lines[k]));
        }
    }
}

/// Reads the effective capability mask out of a `/proc/self/status` report.
pub fn net_raw_from_status(content: &str) -> (r: bool)
    ensures
        r == grants_net_raw(content@),
{
    let lines = split_char(content, '\n');
    let ghost ls = split_spec(content@, '\n');
    let mut i: usize = 0;
    while i < lines.len()
        invariant
            views_of(lines@) == ls,
            ls == split_spec(content@, '\n'),
            ls.len() == lines@.len(),
            i <= lines@.len(),
            forall|j: int| 0 <= j < i ==> !cap_eff_prefix().is_prefix_of(#[trigger] ls[j]),
        decreases lines@.len() - i,
    {
        let line = lines[i];
        assert(line@ == ls[i as int]);
        let is_cap = starts_with(line, "CapEff:");
        proof {
            reveal_strlit("CapEff:");
            assert("CapEff:"@ =~= cap_eff_prefix());
        }
        if is_cap {
            proof {
                assert(is_first_cap_line(ls, i as int));
                if exists|k: int| is_first_cap_line(ls, k) && line_grants_net_raw(ls[k]) {
                    let k = choose|k: int| is_first_cap_line(ls, k) && line_grants_net_raw(ls[k]);
                    if k < i {
                        assert(!cap_eff_prefix().is_prefix_of(ls[k]));
                    }
                    if i < k {
                        assert(!cap_eff_prefix().is_prefix_of(ls[i as int]));
                    }
                }
            }
            let pieces = split_char(line, ':');
            let field: &str = if pieces.len() > 1 {
                pieces[1]
            } else {
                ""
            };
            proof {
                assert(views_of(pieces@).len() == pieces@.len());
                if pieces@.len() > 1 {
                    assert(views_of(pieces@)[1] == pieces@[1]@);
                } else {
                    reveal_strlit("");
                    assert(field@ =~= Seq::<char>::empty());
                }
            }
            let caps = trim(field);
            let r = match parse_unsigned(caps, 16, 0xffff_ffff_ffff_ffff) {
                Some(v) => (v / 8192) % 2 == 1,
                None => false,
            };
            return r;
        }
        i = i + 1;
    }
    proof {
        if exists|k: int| is_first_cap_line(ls, k) && line_grants_net_raw(ls[k]) {
            let k = choose|k: int| is_first_cap_line(ls, k) && line_grants_net_raw(ls[k]);
            assert(!cap_eff_prefix().is_prefix_of(ls[k]));
        }
    }
    false
}

} // verus!
