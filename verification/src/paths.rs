//! Path-string structure: separators, parent directories, file extensions.
//!
//! Paths are plain strings.  A volume root is published with a trailing
//! separator (for example `"D:\"`); every other path ends in a component
//! name.  The synthetic index-0 entry of a directory snapshot is computed
//! here as the parent of the active path.

use vstd::prelude::*;
use vstd::string::StrSliceExecFns;
use vstd::string::StringExecFns;

verus! {

/// The index of the last occurrence of `c` in `s`, or -1 when `c` does not
/// occur.
pub open spec fn last_index_of(s: Seq<char>, c: char) -> int
    decreases s.len(),
{
    if s.len() == 0 {
        -1
    } else if s.last() == c {
        s.len() - 1
    } else {
        last_index_of(s.drop_last(), c)
    }
}

/// Finds the last occurrence of `c` in `s`.
pub fn rfind_char(s: &str, c: char) -> (r: Option<usize>)
    ensures
        match r {
            Some(k) => k < s@.len() && last_index_of(s@, c) == k as int,
            None => last_index_of(s@, c) == -1,
        },
{
    let len: usize = s.unicode_len();
    let mut i: usize = len;
    proof {
        assert(s@.subrange(0, len as int) =~= s@);
    }
    while i > 0
        invariant
            i <= len,
            len == s@.len(),
            last_index_of(s@, c) == last_index_of(s@.subrange(0, i as int), c),
        decreases i,
    {
        let ch = s.get_char(i - 1);
        proof {
            assert(s@.subrange(0, i as int).last() == ch);
        }
        if ch == c {
            return Some(i - 1);
        }
        proof {
            assert(s@.subrange(0, i as int).drop_last() =~= s@.subrange(0, i as int - 1));
        }
        i = i - 1;
    }
    None
}

/// Whether the path is a filesystem root: it ends with the separator, as
/// volume roots do (`"D:\"`).
pub open spec fn is_root(s: Seq<char>) -> bool {
    s.len() > 0 && s.last() == '\\'
}

/// The parent directory of a path: the prefix before the last separator,
/// keeping the separator itself when the parent is a volume root.  A root,
/// the empty path, and a path without separators have no parent.
pub open spec fn parent_path(s: Seq<char>) -> Option<Seq<char>> {
    if s.len() == 0 || s.last() == '\\' {
        None
    } else {
        let k = last_index_of(s, '\\');
        if k < 0 {
            None
        } else if last_index_of(s.subrange(0, k), '\\') >= 0 {
            Some(s.subrange(0, k))
        } else {
            Some(s.subrange(0, k + 1))
        }
    }
}

/// Computes `parent_path`.
pub fn parent_of(s: &str) -> (r: Option<String>)
    ensures
        match r {
            Some(p) => parent_path(s@) == Some::<Seq<char>>(p@),
            None => parent_path(s@) is None,
        },
{
    let len: usize = s.unicode_len();
    if len == 0 {
        return None;
    }
    let lastc = s.get_char(len - 1);
    if lastc == '\\' {
        return None;
    }
    let k: usize = match rfind_char(s, '\\') {
        Some(k) => k,
        None => {
            return None;
        },
    };
    let prefix = s.substring_char(0, k);
    match rfind_char(prefix, '\\') {
        Some(_) => Some(String::from_str(prefix)),
        None => Some(String::from_str(s.substring_char(0, k + 1))),
    }
}

/// The parent of the path, or the path itself where it has none: what a
/// directory scan publishes at index 0.
pub fn parent_or_self(s: &str) -> (r: String)
    ensures
        r@ == match parent_path(s@) {
            Some(p) => p,
            None => s@,
        },
{
    match parent_of(s) {
        Some(p) => p,
        None => String::from_str(s),
    }
}

/// The file-name extension of a path: the characters after the last dot of
/// the last component, provided that dot is neither missing nor the
/// component's first character.
pub open spec fn extension_of(s: Seq<char>) -> Option<Seq<char>> {
    let name = s.subrange(last_index_of(s, '\\') + 1, s.len() as int);
    let d = last_index_of(name, '.');
    if d <= 0 {
        None
    } else {
        Some(name.subrange(d + 1, name.len() as int))
    }
}

/// Computes `extension_of`.
pub fn extension(s: &str) -> (r: Option<String>)
    ensures
        match r {
            Some(e) => extension_of(s@) == Some::<Seq<char>>(e@),
            None => extension_of(s@) is None,
        },
{
    let len: usize = s.unicode_len();
    let start: usize = match rfind_char(s, '\\') {
        Some(k) => k + 1,
        None => 0,
    };
    let name = s.substring_char(start, len);
    let d: usize = match rfind_char(name, '.') {
        Some(d) => d,
        None => {
            return None;
        },
    };
    if d == 0 {
        return None;
    }
    Some(String::from_str(name.substring_char(d + 1, name.unicode_len())))
}

} // verus!
