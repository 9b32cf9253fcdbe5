//! Path policy applied before any entry is processed: ignore-prefix matching
//! and the absolute-path rule.
//!
//! An entry whose path starts with a configured prefix is outside
//! synchronization scope for the whole run: it is not compared, not written,
//! not recorded, and not deleted. An entry whose path is absolute (starts
//! with `/`) would escape the configured root and is rejected as fatal.

use vstd::prelude::*;

verus! {

/// Whether `pre` is a prefix of `s`.
pub open spec fn is_prefix(pre: Seq<char>, s: Seq<char>) -> bool {
    pre.len() <= s.len() && s.take(pre.len() as int) == pre
}

/// Whether `p` matches any of the configured ignore prefixes.
pub open spec fn path_ignored(p: Seq<char>, ignored: Seq<Seq<char>>) -> bool {
    exists|i: int| 0 <= i < ignored.len() && is_prefix(ignored[i], p)
}

/// Whether `p` is an absolute path.
pub open spec fn path_absolute(p: Seq<char>) -> bool {
    p.len() > 0 && p[0] == '/'
}

/// Whether `pre` is a prefix of `s`, character for character.
pub fn str_has_prefix(s: &str, pre: &str) -> (r: bool)
    ensures
        r == is_prefix(pre@, s@),
{
    let n = pre.unicode_len();
    if n > s.unicode_len() {
        return false;
    }
    let mut i: usize = 0;
    while i < n
        invariant
            n == pre@.len(),
            n <= s@.len(),
            i <= n,
            forall|j: int| 0 <= j < i ==> s@[j] == pre@[j],
        decreases n - i,
    {
        if s.get_char(i) != pre.get_char(i) {
            assert(s@.take(n as int)[i as int] != pre@[i as int]);
            return false;
        }
        i += 1;
    }
    assert(s@.take(n as int) =~= pre@);
    true
}

/// Whether `path` matches any prefix in the ignore list.
pub fn is_ignored(path: &String, ignored: &Vec<String>) -> (r: bool)
    ensures
        r == path_ignored(path@, ignored.deep_view()),
{
    let n = ignored.len();
    let mut i: usize = 0;
    while i < n
        invariant
            n == ignored.len(),
            i <= n,
            forall|j: int| 0 <= j < i ==> !is_prefix(ignored.deep_view()[j], path@),
        decreases n - i,
    {
        if str_has_prefix(path.as_str(), ignored[i].as_str()) {
            assert(is_prefix(ignored.deep_view()[i as int], path@));
            return true;
        }
        i += 1;
    }
    false
}

/// Whether `path` is absolute.
pub fn is_absolute(path: &String) -> (r: bool)
    ensures
        r == path_absolute(path@),
{
    let s = path.as_str();
    s.unicode_len() > 0 && s.get_char(0) == '/'
}

/// Whether `path` is the archive-root marker `./`.
pub fn is_root_marker(path: &String) -> (r: bool)
    ensures
        r == (path@ == "./"@),
{
    proof {
        reveal_strlit("./");
    }
    let s = path.as_str();
    if s.unicode_len() == 2 && s.get_char(0) == '.' && s.get_char(1) == '/' {
        assert(path@ =~= "./"@);
        true
    } else {
        assert(path@ != "./"@);
        false
    }
}

} // verus!
