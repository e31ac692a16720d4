//! Shared text primitives: character search, separator splitting, and
//! string building, with their specification-level counterparts.

use vstd::prelude::*;

verus! {

/// Index of the first occurrence of `c` in `s`, or `s.len()` if absent.
pub open spec fn find_idx(s: Seq<char>, c: char) -> int
    decreases s.len(),
{
    if s.len() == 0 {
        0
    } else if s[0] == c {
        0
    } else {
        1 + find_idx(s.drop_first(), c)
    }
}

/// The parts of `s` separated by `sep`, in order, separators removed.
/// Adjacent separators yield empty parts; a string without the separator is
/// one single part.
pub open spec fn split_parts(s: Seq<char>, sep: char) -> Seq<Seq<char>>
    decreases s.len(),
{
    let i = find_idx(s, sep);
    if i == s.len() {
        seq![s]
    } else if 0 <= i < s.len() {
        seq![s.subrange(0, i)] + split_parts(s.subrange(i + 1, s.len() as int), sep)
    } else {
        seq![s]
    }
}

/// `find_idx` is pinned by its characteristic properties: everything before
/// `j` differs from `c`, and `j` is the length or an occurrence.
pub proof fn lemma_find_idx_at(s: Seq<char>, c: char, j: int)
    requires
        0 <= j <= s.len(),
        forall|k: int| 0 <= k < j ==> s[k] != c,
        j == s.len() || s[j] == c,
    ensures
        find_idx(s, c) == j,
    decreases j,
{
    if j == 0 {
    } else {
        assert(s[0] != c);
        lemma_find_idx_at(s.drop_first(), c, j - 1);
    }
}

/// `find_idx` stays within bounds and marks a real occurrence when short of
/// the length.
pub proof fn lemma_find_idx_bounds(s: Seq<char>, c: char)
    ensures
        0 <= find_idx(s, c) <= s.len(),
        find_idx(s, c) < s.len() ==> s[find_idx(s, c)] == c,
        forall|k: int| 0 <= k < find_idx(s, c) ==> s[k] != c,
    decreases s.len(),
{
    if s.len() == 0 {
    } else if s[0] == c {
    } else {
        lemma_find_idx_bounds(s.drop_first(), c);
        assert forall|k: int| 0 <= k < find_idx(s, c) implies s[k] != c by {
            if k > 0 {
                assert(s.drop_first()[k - 1] == s[k]);
            }
        }
    }
}

/// Whether `c` does not occur in `x`.
pub open spec fn no_char(x: Seq<char>, c: char) -> bool {
    forall|i: int| 0 <= i < x.len() ==> x[i] != c
}

/// A split has at least one part, and no part contains the separator.
pub proof fn lemma_split_parts_shape(s: Seq<char>, c: char)
    ensures
        split_parts(s, c).len() >= 1,
        forall|k: int|
            0 <= k < split_parts(s, c).len() ==> no_char(#[trigger] split_parts(s, c)[k], c),
    decreases s.len(),
{
    let i = find_idx(s, c);
    lemma_find_idx_bounds(s, c);
    if i == s.len() {
        assert(split_parts(s, c) == seq![s]);
        assert(no_char(s, c));
    } else {
        let head = s.subrange(0, i);
        let rest = s.subrange(i + 1, s.len() as int);
        assert(split_parts(s, c) == seq![head] + split_parts(rest, c));
        assert(no_char(head, c)) by {
            assert(forall|t: int| 0 <= t < i ==> head[t] == s[t]);
        }
        lemma_split_parts_shape(rest, c);
        assert forall|k: int|
            0 <= k < split_parts(s, c).len() implies no_char(
            #[trigger] split_parts(s, c)[k],
            c,
        ) by {
            if k > 0 {
                assert(split_parts(s, c)[k] == split_parts(rest, c)[k - 1]);
            }
        }
    }
}

/// Splitting distributes over concatenation at a separator: the parts of
/// `x + sep + y` are the parts of `x` followed by the parts of `y`.
pub proof fn lemma_split_concat(x: Seq<char>, y: Seq<char>, sep: char)
    ensures
        split_parts(x + seq![sep] + y, sep) == split_parts(x, sep) + split_parts(y, sep),
    decreases x.len(),
{
    let s = x + seq![sep] + y;
    let i = find_idx(x, sep);
    lemma_find_idx_bounds(x, sep);
    if i == x.len() {
        lemma_find_idx_at(s, sep, x.len() as int);
        assert(s.subrange(0, x.len() as int) =~= x);
        assert(s.subrange(x.len() as int + 1, s.len() as int) =~= y);
        assert(split_parts(s, sep) =~= seq![x] + split_parts(y, sep));
        assert(split_parts(x, sep) == seq![x]);
    } else {
        lemma_find_idx_at(s, sep, i);
        let xrest = x.subrange(i + 1, x.len() as int);
        assert(s.subrange(0, i) =~= x.subrange(0, i));
        assert(s.subrange(i + 1, s.len() as int) =~= xrest + seq![sep] + y);
        lemma_split_concat(xrest, y, sep);
        assert(split_parts(s, sep) =~= seq![x.subrange(0, i)] + (split_parts(xrest, sep)
            + split_parts(y, sep)));
        assert(split_parts(x, sep) == seq![x.subrange(0, i)] + split_parts(xrest, sep));
        assert(seq![x.subrange(0, i)] + (split_parts(xrest, sep) + split_parts(y, sep)) =~= (
        seq![x.subrange(0, i)] + split_parts(xrest, sep)) + split_parts(y, sep));
    }
}

/// Index of the first occurrence of `target` at or after `from`, or the
/// string's length if there is none.
pub fn find_from(s: &str, from: usize, target: char) -> (j: usize)
    requires
        from <= s@.len(),
    ensures
        from <= j <= s@.len(),
        forall|k: int| from <= k < j ==> s@[k] != target,
        j < s@.len() ==> s@[j as int] == target,
{
    let n = s.unicode_len();
    let mut j = from;
    while j < n
        invariant
            from <= j <= n,
            n == s@.len(),
            forall|k: int| from <= k < j ==> s@[k] != target,
        decreases n - j,
    {
        if s.get_char(j) == target {
            return j;
        }
        j = j + 1;
    }
    j
}

/// Whether `s` ends in `suffix`.
pub open spec fn has_suffix(s: Seq<char>, suffix: Seq<char>) -> bool {
    s.len() >= suffix.len() && s.subrange(s.len() - suffix.len(), s.len() as int) == suffix
}

/// Whether `pat` occurs as a contiguous run inside `s`.
pub open spec fn contains_sub(s: Seq<char>, pat: Seq<char>) -> bool {
    exists|k: int|
        0 <= k <= s.len() - pat.len() && #[trigger] s.subrange(k, k + pat.len() as int) == pat
}

/// Whether the needle occurs as a substring of the haystack.
pub fn str_contains(hay: &str, needle: &str) -> (r: bool)
    ensures
        r == contains_sub(hay@, needle@),
{
    let n = hay.unicode_len();
    let m = needle.unicode_len();
    if m > n {
        return false;
    }
    let mut k: usize = 0;
    while k <= n - m
        invariant
            m <= n,
            n == hay@.len(),
            m == needle@.len(),
            k <= n - m + 1,
            forall|j: int|
                0 <= j < k ==> #[trigger] hay@.subrange(j, j + needle@.len() as int) != needle@,
        decreases n - m - k + 1,
    {
        let mut t: usize = 0;
        while t < m && hay.get_char(k + t) == needle.get_char(t)
            invariant
                k + m <= n,
                n == hay@.len(),
                m == needle@.len(),
                t <= m,
                forall|u: int| 0 <= u < t ==> hay@[k + u] == needle@[u],
            decreases m - t,
        {
            t = t + 1;
        }
        if t == m {
            proof {
                assert(hay@.subrange(k as int, k as int + needle@.len() as int) =~= needle@);
            }
            return true;
        }
        proof {
            assert(hay@[k + t] != needle@[t as int]);
            assert(hay@.subrange(k as int, k as int + needle@.len() as int)[t as int] == hay@[k
                + t]);
            assert(hay@.subrange(k as int, k as int + needle@.len() as int) != needle@);
        }
        k = k + 1;
    }
    proof {
        assert(!contains_sub(hay@, needle@)) by {
            if contains_sub(hay@, needle@) {
                let w = choose|w: int|
                    0 <= w <= hay@.len() - needle@.len() && #[trigger] hay@.subrange(
                        w,
                        w + needle@.len() as int,
                    ) == needle@;
                assert(w < k);
            }
        }
    }
    false
}

/// Relies on `String::push`: appends one character to the string.
#[verifier::external_body]
pub fn push_char(s: &mut String, c: char)
    ensures
        final(s)@ == old(s)@.push(c),
{
    s.push(c);
}

} // verus!
