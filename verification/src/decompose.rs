//! The filename decomposer: splits an archive filename into a package name
//! and a version. After stripping the archive extension, the longest prefix
//! followed by a hyphen and a version-shaped suffix is the name; the suffix
//! (a digit-led group without hyphens, optionally followed by a revision
//! group `-rN`) is the version. A filename without such a suffix keeps the
//! whole stripped string as its name and gets the `"unknown"` sentinel as its
//! version. Anchoring on the last hyphen-separated group that starts with a
//! digit is a heuristic: a name that itself ends in a digit-led hyphenated
//! segment can absorb part of its version.

use vstd::prelude::*;
use vstd::string::StrSliceExecFns;
use vstd::string::StringExecFns;
use crate::text::{is_digit_char, digit_char, ends_with_seq};

verus! {

/// The archive extension, as characters.
pub open spec fn apk_ext() -> Seq<char> {
    seq!['.', 'a', 'p', 'k']
}

/// The sentinel version for a filename without a version-shaped suffix.
pub open spec fn unknown_sent() -> Seq<char> {
    seq!['u', 'n', 'k', 'n', 'o', 'w', 'n']
}

pub open spec fn no_dash(v: Seq<char>) -> bool {
    forall|i: int| 0 <= i < v.len() ==> v[i] != '-'
}

pub open spec fn all_digits(v: Seq<char>) -> bool {
    forall|i: int| 0 <= i < v.len() ==> is_digit_char(v[i])
}

/// A revision group: `-r` followed by one or more digits.
pub open spec fn rev_tail(t: Seq<char>) -> bool {
    t.len() >= 3 && t[0] == '-' && t[1] == 'r' && (forall|i: int|
        2 <= i < t.len() ==> is_digit_char(t[i]))
}

/// A version-shaped string: a digit, then characters without a hyphen,
/// optionally followed by a revision group.
pub open spec fn version_shape(v: Seq<char>) -> bool {
    &&& v.len() > 0
    &&& is_digit_char(v[0])
    &&& {
        ||| no_dash(v.subrange(1, v.len() as int))
        ||| exists|m: int|
            1 <= m < v.len() && v[m] == '-' && no_dash(v.subrange(1, m)) && rev_tail(
                #[trigger] v.subrange(m, v.len() as int),
            )
    }
}

/// `k` is a position where `s` splits into a nonempty name `s[..k]`, a
/// hyphen, and a version-shaped suffix `s[k+1..]`.
pub open spec fn valid_split(s: Seq<char>, k: int) -> bool {
    &&& 1 <= k <= s.len() - 2
    &&& s[k] == '-'
    &&& version_shape(s.subrange(k + 1, s.len() as int))
}

/// The largest valid split position at most `k`, or `-1` if there is none.
pub open spec fn best_split_from(s: Seq<char>, k: int) -> int
    decreases k,
{
    if k < 1 {
        -1
    } else if valid_split(s, k) {
        k
    } else {
        best_split_from(s, k - 1)
    }
}

/// The largest valid split position of `s`, or `-1` if there is none.
pub open spec fn best_split(s: Seq<char>) -> int {
    best_split_from(s, s.len() - 2)
}

/// The filename with a trailing archive extension removed.
pub open spec fn stripped_of(f: Seq<char>) -> Seq<char> {
    if crate::text::ends_with_seq(f, apk_ext()) {
        f.subrange(0, f.len() - 4)
    } else {
        f
    }
}

/// What the decomposer returns: the name and the version of a filename.
pub open spec fn decompose_spec(f: Seq<char>) -> (Seq<char>, Seq<char>) {
    let s = stripped_of(f);
    let k = best_split(s);
    if k >= 0 {
        (s.subrange(0, k), s.subrange(k + 1, s.len() as int))
    } else {
        (s, unknown_sent())
    }
}

/// Among valid splits up to `k`, the largest one is chosen.
proof fn lemma_best_split_from_found(s: Seq<char>, k: int, k0: int)
    requires
        1 <= k0 <= k,
        valid_split(s, k0),
        forall|j: int| k0 < j <= k ==> !valid_split(s, j),
    ensures
        best_split_from(s, k) == k0,
    decreases k,
{
    if k > k0 {
        lemma_best_split_from_found(s, k - 1, k0);
    }
}

/// Without any valid split up to `k`, none is chosen.
proof fn lemma_best_split_from_none(s: Seq<char>, k: int)
    requires
        forall|j: int| 1 <= j <= k ==> !valid_split(s, j),
    ensures
        best_split_from(s, k) == -1,
    decreases k,
{
    if k >= 1 {
        lemma_best_split_from_none(s, k - 1);
    }
}

/// Law: a filename `<name>-<version>-r<revision>.apk`, where the version
/// group is nonempty, digit-led and hyphen-free and the revision group is a
/// nonempty run of digits, decomposes into exactly that name and the version
/// `<version>-r<revision>`, whatever the name contains.
pub proof fn lemma_decompose_versioned(name: Seq<char>, main: Seq<char>, rev: Seq<char>)
    requires
        name.len() >= 1,
        main.len() >= 1,
        is_digit_char(main[0]),
        no_dash(main),
        rev.len() >= 1,
        all_digits(rev),
    ensures
        decompose_spec(name + seq!['-'] + main + seq!['-', 'r'] + rev + apk_ext()).0 == name,
        decompose_spec(name + seq!['-'] + main + seq!['-', 'r'] + rev + apk_ext()).1 == main
            + seq!['-', 'r'] + rev,
{
    let s = name + seq!['-'] + main + seq!['-', 'r'] + rev;
    let f = s + apk_ext();
    let nl = name.len() as int;
    let ml = main.len() as int;
    let rl = rev.len() as int;
    let sl = nl + 1 + ml + 2 + rl;
    assert(s.len() == sl);
    assert(forall|i: int| 0 <= i < nl ==> s[i] == name[i]);
    assert(s[nl] == '-');
    assert(forall|i: int| 0 <= i < ml ==> s[nl + 1 + i] == main[i]);
    assert(s[nl + 1 + ml] == '-');
    assert(s[nl + 2 + ml] == 'r');
    assert(forall|i: int| 0 <= i < rl ==> s[nl + 3 + ml + i] == rev[i]);
    assert(ends_with_seq(f, apk_ext())) by {
        assert(f.subrange(f.len() - 4, f.len() as int) =~= apk_ext());
    }
    assert(stripped_of(f) =~= s);
    let k0 = nl;
    let v = s.subrange(k0 + 1, sl);
    assert(v.len() == ml + 2 + rl);
    assert(forall|i: int| 0 <= i < v.len() ==> v[i] == s[nl + 1 + i]);
    assert(version_shape(v)) by {
        assert(is_digit_char(v[0]));
        assert(v[ml] == '-');
        assert(no_dash(v.subrange(1, ml))) by {
            assert(forall|i: int|
                0 <= i < ml - 1 ==> (#[trigger] v.subrange(1, ml)[i]) == main[i + 1]);
        }
        assert(rev_tail(v.subrange(ml, v.len() as int))) by {
            let t = v.subrange(ml, v.len() as int);
            assert(t[0] == '-');
            assert(t[1] == 'r');
            assert(forall|i: int| 2 <= i < t.len() ==> #[trigger] t[i] == rev[i - 2]);
        }
    }
    assert(valid_split(s, k0));
    assert forall|k: int| k0 < k <= sl - 2 implies !valid_split(s, k) by {
        if valid_split(s, k) {
            assert(s[k] == '-');
            assert(k == nl + 1 + ml) by {
                if nl < k < nl + 1 + ml {
                    assert(s[k] == main[k - nl - 1]);
                }
                if k == nl + 2 + ml {
                    assert(s[k] == 'r');
                }
                if k > nl + 2 + ml {
                    assert(s[k] == rev[k - nl - 3 - ml]);
                    assert(is_digit_char(s[k]));
                }
            }
            let v2 = s.subrange(k + 1, sl);
            assert(v2[0] == s[nl + 2 + ml]);
            assert(!is_digit_char('r'));
            assert(!version_shape(v2));
        }
    }
    lemma_best_split_from_found(s, sl - 2, k0);
    assert(best_split(s) == k0);
    assert(s.subrange(0, k0) =~= name);
    assert(s.subrange(k0 + 1, s.len() as int) =~= main + seq!['-', 'r'] + rev);
}

/// Law: a filename with no digit-led hyphen suffix anywhere decomposes into
/// the whole stripped filename and the `"unknown"` sentinel.
pub proof fn lemma_decompose_unversioned(f: Seq<char>)
    requires
        forall|k: int|
            0 <= k < stripped_of(f).len() - 1 ==> !((#[trigger] stripped_of(f)[k]) == '-'
                && is_digit_char(stripped_of(f)[k + 1])),
    ensures
        decompose_spec(f).0 == stripped_of(f),
        decompose_spec(f).1 == unknown_sent(),
{
    let s = stripped_of(f);
    assert forall|j: int| 1 <= j <= s.len() - 2 implies !valid_split(s, j) by {
        if valid_split(s, j) {
            let v = s.subrange(j + 1, s.len() as int);
            assert(is_digit_char(v[0]));
            assert(v[0] == s[j + 1]);
        }
    }
    lemma_best_split_from_none(s, s.len() - 2);
}

/// A string whose first hyphen does not start a revision group is not
/// version-shaped.
proof fn lemma_shape_needs_rev_at_first_dash(v: Seq<char>, i: int)
    requires
        0 < i < v.len(),
        v[i] == '-',
        forall|j: int| 1 <= j < i ==> v[j] != '-',
        !rev_tail(v.subrange(i, v.len() as int)),
    ensures
        !version_shape(v),
{
    assert(v.subrange(1, v.len() as int)[i - 1] == v[i]);
    if version_shape(v) {
        let m = choose|m: int|
            1 <= m < v.len() && v[m] == '-' && no_dash(v.subrange(1, m)) && rev_tail(
                #[trigger] v.subrange(m, v.len() as int),
            );
        if m > i {
            assert(v.subrange(1, m)[i - 1] == v[i]);
        }
        assert(m == i);
        assert(false);
    }
}

/// Whether `v` is version-shaped.
fn version_ok(v: &str) -> (r: bool)
    ensures
        r == version_shape(v@),
{
    let n = v.unicode_len();
    if n == 0 {
        return false;
    }
    if !digit_char(v.get_char(0)) {
        return false;
    }
    // Find the first hyphen after the leading digit.
    let mut i: usize = 1;
    while i < n && v.get_char(i) != '-'
        invariant
            n == v@.len(),
            1 <= i <= n,
            forall|j: int| 1 <= j < i ==> v@[j] != '-',
        decreases n - i,
    {
        i = i + 1;
    }
    if i == n {
        // No hyphen at all: the first disjunct of the shape.
        assert(no_dash(v@.subrange(1, n as int)));
        return true;
    }
    // First hyphen at `i`: only a revision group starting there can match.
    assert(v@[i as int] == '-');
    if n - i < 3 {
        proof {
            assert(v@.subrange(i as int, v@.len() as int).len() < 3);
            lemma_shape_needs_rev_at_first_dash(v@, i as int);
        }
        return false;
    }
    if v.get_char(i + 1) != 'r' {
        proof {
            assert(v@.subrange(i as int, v@.len() as int)[1] == v@[i + 1]);
            lemma_shape_needs_rev_at_first_dash(v@, i as int);
        }
        return false;
    }
    let mut j: usize = i + 2;
    while j < n
        invariant
            n == v@.len(),
            0 < i < n,
            v@[i as int] == '-',
            forall|p: int| 1 <= p < i ==> v@[p] != '-',
            i + 2 <= j <= n,
            forall|p: int| i + 2 <= p < j ==> is_digit_char(v@[p]),
        decreases n - j,
    {
        if !digit_char(v.get_char(j)) {
            proof {
                assert(v@.subrange(i as int, v@.len() as int)[j - i] == v@[j as int]);
                lemma_shape_needs_rev_at_first_dash(v@, i as int);
            }
            return false;
        }
        j = j + 1;
    }
    assert(rev_tail(v@.subrange(i as int, n as int))) by {
        assert(forall|p: int|
            2 <= p < n - i ==> #[trigger] v@.subrange(i as int, n as int)[p] == v@[i + p]);
    }
    true
}

/// Splits an archive filename into a package name and a version, following
/// the rule of `decompose_spec`; a filename without a version-shaped suffix
/// yields the `"unknown"` sentinel.
pub fn extract_name_version(filename: &str) -> (r: (String, String))
    ensures
        r.0@ == decompose_spec(filename@).0,
        r.1@ == decompose_spec(filename@).1,
{
    proof {
        reveal_strlit(".apk");
        assert(".apk"@ =~= apk_ext());
        reveal_strlit("unknown");
        assert("unknown"@ =~= unknown_sent());
    }
    let n = filename.unicode_len();
    let s: &str = if crate::text::ends_with_str(filename, ".apk") {
        filename.substring_char(0, n - 4)
    } else {
        filename
    };
    assert(s@ == stripped_of(filename@));
    let sn = s.unicode_len();
    if sn >= 3 {
        let mut k: usize = sn - 2;
        while k > 0
            invariant
                sn == s@.len(),
                3 <= sn,
                k <= sn - 2,
                s@ == stripped_of(filename@),
                best_split(s@) == best_split_from(s@, k as int),
            decreases k,
        {
            if s.get_char(k) == '-' {
                let v = s.substring_char(k + 1, sn);
                if version_ok(v) {
                    assert(valid_split(s@, k as int));
                    assert(best_split_from(s@, k as int) == k as int);
                    let name = String::from_str(s.substring_char(0, k));
                    let version = String::from_str(v);
                    assert(decompose_spec(filename@).0 == s@.subrange(0, k as int));
                    assert(decompose_spec(filename@).1 == s@.subrange(k + 1, sn as int));
                    return (name, version);
                }
            }
            assert(!valid_split(s@, k as int));
            assert(best_split_from(s@, k as int) == best_split_from(s@, k - 1));
            k = k - 1;
        }
        assert(best_split(s@) == best_split_from(s@, 0));
        assert(best_split(s@) == -1);
    } else {
        assert(best_split(s@) == -1) by {
            assert(s@.len() - 2 < 1);
        }
    }
    (String::from_str(s), String::from_str("unknown"))
}

} // verus!
