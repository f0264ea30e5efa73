//! Verified helpers over strings viewed as sequences of characters:
//! equality, substring search and suffix tests, built on the character
//! primitives that vstd specifies.

use vstd::prelude::*;
use vstd::string::StrSliceExecFns;

verus! {

/// Character class of an archive-filename token: letters, digits and the
/// punctuation that occurs inside package filenames.
pub open spec fn is_fname_char(c: char) -> bool {
    let u = c as u32;
    (97 <= u && u <= 122)  // 'a'..='z'
    || (65 <= u && u <= 90)  // 'A'..='Z'
    || (48 <= u && u <= 57)  // '0'..='9'
    || c == '_' || c == '+' || c == '-' || c == '.'
}

pub fn fname_char(c: char) -> (r: bool)
    ensures
        r == is_fname_char(c),
{
    let u = c as u32;
    (97 <= u && u <= 122) || (65 <= u && u <= 90) || (48 <= u && u <= 57) || u == 95 || u == 43
        || u == 45 || u == 46
}

pub open spec fn is_digit_char(c: char) -> bool {
    48 <= c as u32 && c as u32 <= 57
}

pub fn digit_char(c: char) -> (r: bool)
    ensures
        r == is_digit_char(c),
{
    let u = c as u32;
    48 <= u && u <= 57
}

/// `t` occurs in `s` as a contiguous subsequence.
pub open spec fn contains_seq(s: Seq<char>, t: Seq<char>) -> bool {
    exists|i: int| 0 <= i && i + t.len() <= s.len() && #[trigger] s.subrange(i, i + t.len()) == t
}

/// `s` ends with `t`.
pub open spec fn ends_with_seq(s: Seq<char>, t: Seq<char>) -> bool {
    t.len() <= s.len() && s.subrange(s.len() - t.len(), s.len() as int) == t
}

/// `t` matches `s` at offset `i`.
fn matches_at(s: &str, t: &str, i: usize) -> (r: bool)
    requires
        i + t@.len() <= s@.len(),
        s@.len() <= usize::MAX,
    ensures
        r == (s@.subrange(i as int, i + t@.len()) == t@),
{
    let n = t.unicode_len();
    let mut j: usize = 0;
    while j < n
        invariant
            n == t@.len(),
            i + n <= s@.len(),
            s@.len() <= usize::MAX,
            j <= n,
            forall|k: int| 0 <= k < j ==> s@[i + k] == t@[k],
        decreases n - j,
    {
        if s.get_char(i + j) != t.get_char(j) {
            assert(s@.subrange(i as int, i + t@.len())[j as int] != t@[j as int]);
            return false;
        }
        j = j + 1;
    }
    assert(s@.subrange(i as int, i + t@.len()) =~= t@);
    true
}

/// String equality over the character views.
pub fn str_eq(a: &str, b: &str) -> (r: bool)
    ensures
        r == (a@ == b@),
{
    let na = a.unicode_len();
    let nb = b.unicode_len();
    if na != nb {
        assert(a@ != b@);
        return false;
    }
    let r = matches_at(a, b, 0);
    proof {
        assert(a@.subrange(0, b@.len() as int) =~= a@);
    }
    r
}

/// Substring search: whether `t` occurs anywhere in `s`.
pub fn contains_str(s: &str, t: &str) -> (r: bool)
    ensures
        r == contains_seq(s@, t@),
{
    let ns = s.unicode_len();
    let nt = t.unicode_len();
    if nt > ns {
        return false;
    }
    if nt == 0 {
        assert(s@.subrange(0, 0 + t@.len() as int) =~= t@);
        return true;
    }
    let mut i: usize = 0;
    while i <= ns - nt
        invariant
            ns == s@.len(),
            nt == t@.len(),
            0 < nt <= ns,
            i <= ns - nt + 1,
            forall|k: int| 0 <= k < i ==> #[trigger] s@.subrange(k, k + t@.len()) != t@,
        decreases ns - nt - i + 1,
    {
        if matches_at(s, t, i) {
            assert(0 <= i as int && i as int + t@.len() <= s@.len() && s@.subrange(
                i as int,
                i as int + t@.len(),
            ) == t@);
            return true;
        }
        i = i + 1;
    }
    false
}

/// Suffix test: whether `s` ends with `t`.
pub fn ends_with_str(s: &str, t: &str) -> (r: bool)
    ensures
        r == ends_with_seq(s@, t@),
{
    let ns = s.unicode_len();
    let nt = t.unicode_len();
    if nt > ns {
        return false;
    }
    matches_at(s, t, ns - nt)
}

} // verus!
