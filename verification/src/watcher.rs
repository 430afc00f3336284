//! Which file-system events mean that the configuration changed.
use vstd::prelude::*;
use vstd::string::*;

use crate::text::{find_last, last_pos, lemma_last_pos, lemma_last_pos_none};

verus! {

/// The kind of a file-system event.
#[derive(Clone, Copy, Debug, PartialEq, Eq, Structural)]
pub enum ChangeKind {
    Modify,
    Create,
    Remove,
    Other,
}

/// The extension of a file name, as `Path::extension` gives it: the text after
/// the last `.`, except for `..` and for names whose only `.` comes first.
pub open spec fn extension_spec(name: Seq<char>) -> Option<Seq<char>> {
    if name == seq!['.', '.'] {
        None
    } else {
        match last_pos(name, '.') {
            Some(k) => if k == 0 {
                None
            } else {
                Some(name.skip(k + 1))
            },
            None => None,
        }
    }
}

/// The extension of a file name.
pub fn file_extension<'a>(name: &'a str) -> (r: Option<&'a str>)
    ensures
        match r {
            Some(e) => extension_spec(name@) == Some(e@),
            None => extension_spec(name@) is None,
        },
{
    let n = name.unicode_len();
    if n == 2 && name.get_char(0) == '.' && name.get_char(1) == '.' {
        proof {
            assert(name@ =~= seq!['.', '.']);
        }
        return None;
    }
    match find_last(name, '.') {
        Some(k) => {
            if k == 0 {
                None
            } else {
                Some(name.substring_char(k + 1, n))
            }
        },
        None => None,
    }
}

/// Whether a file name has the extension `toml`.
pub open spec fn is_toml_name(name: Option<String>) -> bool {
    match name {
        Some(n) => extension_spec(n@) == Some(seq!['t', 'o', 'm', 'l']),
        None => false,
    }
}

/// A file named `<stem>.toml` (any non-empty stem) has the extension `toml`; a
/// name without a `.`, or whose only `.` comes first, has none.
pub proof fn law_toml_extension(stem: Seq<char>, plain: Seq<char>)
    requires
        stem.len() > 0,
        forall|j: int| 0 <= j < plain.len() ==> plain[j] != '.',
    ensures
        extension_spec(stem + seq!['.', 't', 'o', 'm', 'l']) == Some(seq!['t', 'o', 'm', 'l']),
        extension_spec(plain) is None,
        extension_spec(seq!['.'] + plain) is None,
{
    let n = stem + seq!['.', 't', 'o', 'm', 'l'];
    assert(n.len() > 2);
    assert(n != seq!['.', '.']);
    assert forall|j: int| stem.len() < j < n.len() implies n[j] != '.' by {}
    lemma_last_pos(n, '.', stem.len() as int);
    assert(n.skip(stem.len() as int + 1) =~= seq!['t', 'o', 'm', 'l']);
    lemma_last_pos_none(plain, '.');
    if plain.len() == 0 {
        assert(plain != seq!['.', '.']);
    } else {
        assert(plain[0] != '.');
    }
    let d = seq!['.'] + plain;
    assert forall|j: int| 0 < j < d.len() implies d[j] != '.' by {
        assert(d[j] == plain[j - 1]);
    }
    lemma_last_pos(d, '.', 0);
    if d.len() == 2 {
        assert(d[1] == plain[0]);
    }
}

/// Whether an event means a configuration change: one of its files (given by
/// file name) has the extension `toml`, and it modifies, creates or removes.
pub fn is_config_change(file_names: &Vec<Option<String>>, kind: ChangeKind) -> (r: bool)
    ensures
        r == ((exists|i: int| 0 <= i < file_names@.len() && is_toml_name(#[trigger] file_names@[i]))
            && kind != ChangeKind::Other),
{
    let mut any_toml = false;
    let mut i: usize = 0;
    while i < file_names.len()
        invariant
            i <= file_names@.len(),
            any_toml == exists|j: int| 0 <= j < i && is_toml_name(#[trigger] file_names@[j]),
        decreases file_names@.len() - i,
    {
        if let Some(n) = &file_names[i] {
            if let Some(ext) = file_extension(n.as_str()) {
                let is_toml = ext.unicode_len() == 4 && ext.get_char(0) == 't' && ext.get_char(1)
                    == 'o' && ext.get_char(2) == 'm' && ext.get_char(3) == 'l';
                proof {
                    if is_toml {
                        assert(ext@ =~= seq!['t', 'o', 'm', 'l']);
                    }
                }
                if is_toml {
                    any_toml = true;
                }
            }
        }
        i = i + 1;
    }
    if !any_toml {
        return false;
    }
    match kind {
        ChangeKind::Modify | ChangeKind::Create | ChangeKind::Remove => true,
        ChangeKind::Other => false,
    }
}

} // verus!
