//! Character-level string predicates used by the filter predicates and the
//! locator resolution policy, proved against their sequence-level meaning.

use vstd::prelude::*;
use vstd::string::StrSliceExecFns;

verus! {

/// `p` is a prefix of `s`.
pub open spec fn prefix_of(p: Seq<char>, s: Seq<char>) -> bool {
    p.len() <= s.len() && s.subrange(0, p.len() as int) == p
}

/// `p` is a suffix of `s`.
pub open spec fn suffix_of(p: Seq<char>, s: Seq<char>) -> bool {
    p.len() <= s.len() && s.subrange(s.len() - p.len(), s.len() as int) == p
}

/// `p` occurs contiguously somewhere inside `s`.
pub open spec fn substring_of(p: Seq<char>, s: Seq<char>) -> bool {
    exists|i: int| 0 <= i && i + p.len() <= s.len() && #[trigger] s.subrange(i, i + p.len()) == p
}

/// Whether `s`, starting at position `at`, continues with exactly `p`.
fn matches_at(s: &str, p: &str, at: usize) -> (r: bool)
    requires
        at + p@.len() <= s@.len(),
        s@.len() <= usize::MAX,
    ensures
        r == (s@.subrange(at as int, at + p@.len()) == p@),
{
    let n: usize = p.unicode_len();
    let mut j: usize = 0;
    while j < n
        invariant
            j <= n,
            n == p@.len(),
            at + n <= s@.len() <= usize::MAX,
            forall|k: int| 0 <= k < j ==> s@[at + k] == p@[k],
        decreases n - j,
    {
        if s.get_char(at + j) != p.get_char(j) {
            assert(s@.subrange(at as int, at + p@.len()) == p@ ==> s@[at + j] == p@[j as int])
                by {
                if s@.subrange(at as int, at + p@.len()) == p@ {
                    assert(s@.subrange(at as int, at + p@.len())[j as int] == s@[at + j]);
                }
            }
            return false;
        }
        j += 1;
    }
    assert(s@.subrange(at as int, at + p@.len()) =~= p@);
    true
}

/// Whether `s` starts with the prefix `p`, by characters.
pub fn str_starts_with(s: &str, p: &str) -> (r: bool)
    ensures
        r == prefix_of(p@, s@),
{
    let n: usize = p.unicode_len();
    let m: usize = s.unicode_len();
    if n > m {
        return false;
    }
    matches_at(s, p, 0)
}

/// Whether `s` ends with the suffix `p`, by characters.
pub fn str_ends_with(s: &str, p: &str) -> (r: bool)
    ensures
        r == suffix_of(p@, s@),
{
    let n: usize = p.unicode_len();
    let m: usize = s.unicode_len();
    if n > m {
        return false;
    }
    matches_at(s, p, m - n)
}

/// Whether `p` occurs contiguously inside `s`, by characters.
pub fn str_contains(s: &str, p: &str) -> (r: bool)
    ensures
        r == substring_of(p@, s@),
{
    let n: usize = p.unicode_len();
    let m: usize = s.unicode_len();
    if n > m {
        return false;
    }
    if n == 0 {
        assert(substring_of(p@, s@)) by {
            assert(s@.subrange(0, 0 + p@.len() as int) =~= p@);
        }
        return true;
    }
    let mut i: usize = 0;
    while i <= m - n
        invariant
            n == p@.len(),
            m == s@.len() <= usize::MAX,
            0 < n <= m,
            i <= m - n + 1,
            forall|k: int| 0 <= k < i ==> #[trigger] s@.subrange(k, k + p@.len()) != p@,
        decreases m - n - i + 1,
    {
        if matches_at(s, p, i) {
            assert(substring_of(p@, s@)) by {
                assert(0 <= i as int && i as int + p@.len() <= s@.len()
                    && s@.subrange(i as int, i as int + p@.len()) == p@);
            }
            return true;
        }
        i += 1;
    }
    false
}

} // verus!
