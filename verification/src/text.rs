//! Substring occurrence specifications and verified search routines.
//!
//! Every text transform in this crate is specified over `Seq<char>`.  This
//! module defines what it means for a pattern to occur at a position, the
//! first and last occurrence of a pattern, and executable search functions
//! proved against those definitions.

use vstd::prelude::*;

verus! {

/// The characters of `p` from index `j` on all agree with `s` at offset `i`.
pub open spec fn match_chars_from(s: Seq<char>, p: Seq<char>, i: int, j: int) -> bool
    decreases p.len() - j + 1,
{
    if j >= p.len() {
        true
    } else {
        s[i + j] == p[j] && match_chars_from(s, p, i, j + 1)
    }
}

/// Pattern `p` occurs in `s` starting at index `i`.
pub open spec fn matches_at(s: Seq<char>, p: Seq<char>, i: int) -> bool {
    &&& 0 <= i
    &&& i + p.len() <= s.len()
    &&& match_chars_from(s, p, i, 0)
}

/// `matches_at` is occurrence of `p` as a subrange of `s`.
pub proof fn lemma_matches_at_subrange(s: Seq<char>, p: Seq<char>, i: int)
    requires
        0 <= i,
        i + p.len() <= s.len(),
    ensures
        matches_at(s, p, i) <==> s.subrange(i, i + p.len() as int) == p,
{
    lemma_match_chars_iff(s, p, i, 0);
    if match_chars_from(s, p, i, 0) {
        assert(s.subrange(i, i + p.len() as int) =~= p);
    } else {
        let j = choose|j: int| 0 <= j < p.len() && s[i + j] != p[j];
        assert(s.subrange(i, i + p.len() as int)[j] == s[i + j]);
    }
}

pub proof fn lemma_match_chars_iff(s: Seq<char>, p: Seq<char>, i: int, j: int)
    requires
        0 <= i,
        0 <= j <= p.len(),
        i + p.len() <= s.len(),
    ensures
        match_chars_from(s, p, i, j) <==> (forall|k: int| j <= k < p.len() ==> s[i + k] == p[k]),
    decreases p.len() - j,
{
    if j < p.len() {
        lemma_match_chars_iff(s, p, i, j + 1);
    }
}

/// Index of the first occurrence of `p` in `s` at or after `i`.
pub open spec fn find_from_spec(s: Seq<char>, p: Seq<char>, i: int) -> Option<int>
    decreases s.len() - i + 1,
{
    if i < 0 || i + p.len() > s.len() {
        None
    } else if matches_at(s, p, i) {
        Some(i)
    } else {
        find_from_spec(s, p, i + 1)
    }
}

/// `s` has an occurrence of `p` somewhere.
pub open spec fn contains_seq(s: Seq<char>, p: Seq<char>) -> bool {
    find_from_spec(s, p, 0) is Some
}

/// Index of the last occurrence of `p` in `s` at or before `i`.
pub open spec fn rfind_upto(s: Seq<char>, p: Seq<char>, i: int) -> Option<int>
    decreases i + 1,
{
    if i < 0 {
        None
    } else if matches_at(s, p, i) {
        Some(i)
    } else {
        rfind_upto(s, p, i - 1)
    }
}

/// Index of the last occurrence of `p` in `s`.
pub open spec fn rfind_spec(s: Seq<char>, p: Seq<char>) -> Option<int> {
    rfind_upto(s, p, s.len() - p.len())
}

pub open spec fn is_prefix_of(p: Seq<char>, s: Seq<char>) -> bool {
    p.len() <= s.len() && match_chars_from(s, p, 0, 0)
}

pub open spec fn is_suffix_of(p: Seq<char>, s: Seq<char>) -> bool {
    p.len() <= s.len() && match_chars_from(s, p, s.len() - p.len(), 0)
}

/// No nonempty proper suffix `p[k..]` (for `k0 <= k < p.len()`) is a prefix
/// of `m`.  Used to rule out occurrences of `p` that would start before an
/// inserted block `m` and continue into it.
pub open spec fn no_suffix_prefix_from(p: Seq<char>, m: Seq<char>, k0: int) -> bool
    decreases p.len() - k0,
{
    if k0 >= p.len() {
        true
    } else {
        !is_prefix_of(p.skip(k0), m) && no_suffix_prefix_from(p, m, k0 + 1)
    }
}

pub open spec fn no_suffix_prefix(p: Seq<char>, m: Seq<char>) -> bool {
    no_suffix_prefix_from(p, m, 1)
}

/// No nonempty proper prefix `p[..k]` (for `1 <= k <= k1`) is a suffix of
/// `m`.  Used to rule out occurrences of `p` that would start inside an
/// inserted block `m` and continue past it.
pub open spec fn no_prefix_suffix_upto(p: Seq<char>, m: Seq<char>, k1: int) -> bool
    decreases k1,
{
    if k1 <= 0 {
        true
    } else {
        !is_suffix_of(p.take(k1), m) && no_prefix_suffix_upto(p, m, k1 - 1)
    }
}

pub open spec fn no_prefix_suffix(p: Seq<char>, m: Seq<char>) -> bool {
    no_prefix_suffix_upto(p, m, p.len() - 1)
}

/// Converts a string slice to a character vector; all search routines in
/// this crate index characters, not bytes.
pub fn to_char_vec(s: &str) -> (v: Vec<char>)
    ensures
        v@ == s@,
{
    let n = s.unicode_len();
    let mut v: Vec<char> = Vec::new();
    let mut i: usize = 0;
    while i < n
        invariant
            n == s@.len(),
            i <= n,
            v@ == s@.subrange(0, i as int),
        decreases n - i,
    {
        v.push(s.get_char(i));
        proof {
            assert(v@ =~= s@.subrange(0, i + 1 as int));
        }
        i = i + 1;
    }
    proof {
        assert(v@ =~= s@);
    }
    v
}

/// Whether `p` occurs in `s` at exactly index `i`.
pub fn match_at(s: &Vec<char>, p: &Vec<char>, i: usize) -> (b: bool)
    requires
        i + p@.len() <= s@.len(),
    ensures
        b == matches_at(s@, p@, i as int),
{
    proof {
        assert(s.len() == s@.len());
    }
    let mut j: usize = 0;
    while j < p.len()
        invariant
            i + p@.len() <= s@.len(),
            s@.len() <= usize::MAX,
            j <= p@.len(),
            forall|k: int| 0 <= k < j ==> s@[i + k] == p@[k],
        decreases p@.len() - j,
    {
        if s[i + j] != p[j] {
            proof {
                lemma_match_chars_iff(s@, p@, i as int, 0);
            }
            return false;
        }
        j = j + 1;
    }
    proof {
        lemma_match_chars_iff(s@, p@, i as int, 0);
    }
    true
}

/// First occurrence of `p` in `s` at or after `from`.
pub fn find_from(s: &Vec<char>, p: &Vec<char>, from: usize) -> (r: Option<usize>)
    requires
        p@.len() >= 1,
    ensures
        match r {
            Some(j) => find_from_spec(s@, p@, from as int) == Some(j as int),
            None => find_from_spec(s@, p@, from as int) is None,
        },
{
    if p.len() > s.len() {
        proof {
            lemma_find_from_none_when_short(s@, p@, from as int);
        }
        return None;
    }
    let mut i: usize = from;
    while i <= s.len() - p.len()
        invariant
            1 <= p@.len() <= s@.len(),
            from <= i,
            find_from_spec(s@, p@, from as int) == find_from_spec(s@, p@, i as int),
        decreases s@.len() - i,
    {
        if match_at(s, p, i) {
            return Some(i);
        }
        i = i + 1;
    }
    None
}

proof fn lemma_find_from_none_when_short(s: Seq<char>, p: Seq<char>, i: int)
    requires
        p.len() > s.len(),
    ensures
        find_from_spec(s, p, i) is None,
    decreases s.len() - i,
{
    if !(i < 0 || i + p.len() > s.len()) {
        lemma_find_from_none_when_short(s, p, i + 1);
    }
}

/// Last occurrence of `p` in `s`.
pub fn rfind(s: &Vec<char>, p: &Vec<char>) -> (r: Option<usize>)
    requires
        p@.len() >= 1,
    ensures
        match r {
            Some(j) => rfind_spec(s@, p@) == Some(j as int),
            None => rfind_spec(s@, p@) is None,
        },
{
    if p.len() > s.len() {
        proof {
            lemma_rfind_upto_none_when_short(s@, p@, s@.len() - p@.len());
        }
        return None;
    }
    let mut i: usize = s.len() - p.len();
    loop
        invariant
            1 <= p@.len() <= s@.len(),
            i + p@.len() <= s@.len(),
            rfind_spec(s@, p@) == rfind_upto(s@, p@, i as int),
        decreases i,
    {
        if match_at(s, p, i) {
            return Some(i);
        }
        if i == 0 {
            proof {
                assert(rfind_upto(s@, p@, -1) is None);
            }
            return None;
        }
        i = i - 1;
    }
}

proof fn lemma_rfind_upto_none_when_short(s: Seq<char>, p: Seq<char>, i: int)
    requires
        p.len() > s.len(),
    ensures
        rfind_upto(s, p, i) is None,
    decreases i + 1,
{
    if i >= 0 {
        lemma_rfind_upto_none_when_short(s, p, i - 1);
    }
}


/// Characterizes the `Some` and `None` results of `find_from_spec`.
pub proof fn lemma_find_from_props(s: Seq<char>, p: Seq<char>, i: int)
    requires
        0 <= i,
    ensures
        match find_from_spec(s, p, i) {
            Some(j) => i <= j && matches_at(s, p, j) && (forall|k: int|
                i <= k < j ==> !matches_at(s, p, k)),
            None => forall|k: int| k >= i ==> !matches_at(s, p, k),
        },
    decreases s.len() - i + 1,
{
    if i < 0 || i + p.len() > s.len() {
        assert(forall|k: int| k >= i ==> !matches_at(s, p, k));
    } else if matches_at(s, p, i) {
    } else {
        lemma_find_from_props(s, p, i + 1);
    }
}

/// `find_from_spec` returns exactly the earliest occurrence at or after `i`.
pub proof fn lemma_find_from_exact(s: Seq<char>, p: Seq<char>, i: int, j: int)
    requires
        0 <= i <= j,
        matches_at(s, p, j),
        forall|k: int| i <= k < j ==> !matches_at(s, p, k),
    ensures
        find_from_spec(s, p, i) == Some(j),
    decreases j - i,
{
    if i < j {
        lemma_find_from_exact(s, p, i + 1, j);
    }
}

/// Characterizes the `Some` and `None` results of `rfind_upto`.
pub proof fn lemma_rfind_upto_props(s: Seq<char>, p: Seq<char>, i: int)
    ensures
        match rfind_upto(s, p, i) {
            Some(j) => j <= i && matches_at(s, p, j) && (forall|k: int|
                j < k <= i ==> !matches_at(s, p, k)),
            None => forall|k: int| k <= i ==> !matches_at(s, p, k),
        },
    decreases i + 1,
{
    if i >= 0 && !matches_at(s, p, i) {
        lemma_rfind_upto_props(s, p, i - 1);
    }
}

/// Characterizes the `Some` and `None` results of `rfind_spec`.
pub proof fn lemma_rfind_props(s: Seq<char>, p: Seq<char>)
    ensures
        match rfind_spec(s, p) {
            Some(j) => matches_at(s, p, j) && (forall|k: int| k > j ==> !matches_at(s, p, k)),
            None => forall|k: int| !matches_at(s, p, k),
        },
{
    lemma_rfind_upto_props(s, p, s.len() - p.len());
    assert(forall|k: int| k > s.len() - p.len() ==> !matches_at(s, p, k));
}

/// A string contains a pattern exactly when the pattern occurs somewhere.
pub proof fn lemma_contains_iff(s: Seq<char>, p: Seq<char>)
    ensures
        contains_seq(s, p) <==> exists|i: int| matches_at(s, p, i),
{
    lemma_find_from_props(s, p, 0);
    if find_from_spec(s, p, 0) is Some {
        assert(matches_at(s, p, find_from_spec(s, p, 0)->Some_0));
    }
}

/// An occurrence in the left part of a concatenation is an occurrence in the whole.
pub proof fn lemma_matches_left(a: Seq<char>, b: Seq<char>, p: Seq<char>, i: int)
    requires
        matches_at(a, p, i),
    ensures
        matches_at(a.add(b), p, i),
{
    lemma_match_chars_iff(a, p, i, 0);
    lemma_match_chars_iff(a.add(b), p, i, 0);
}

/// An occurrence in the right part of a concatenation is an occurrence in the whole.
pub proof fn lemma_matches_right(a: Seq<char>, b: Seq<char>, p: Seq<char>, i: int)
    requires
        matches_at(b, p, i),
    ensures
        matches_at(a.add(b), p, a.len() + i),
{
    lemma_match_chars_iff(b, p, i, 0);
    lemma_match_chars_iff(a.add(b), p, a.len() + i, 0);
}

/// Some nonempty proper suffix of `p` is a prefix of `b` while the matching
/// prefix of `p` is a suffix of `a`: the shape of an occurrence that straddles
/// the boundary between `a` and `b`.
pub open spec fn crossing(a: Seq<char>, b: Seq<char>, p: Seq<char>) -> bool {
    exists|k: int|
        1 <= k < p.len() && is_suffix_of(#[trigger] p.take(k), a) && is_prefix_of(p.skip(k), b)
}

/// Every occurrence in a concatenation lies in the left part, lies in the
/// right part, or straddles the boundary.
pub proof fn lemma_matches_split(a: Seq<char>, b: Seq<char>, p: Seq<char>, i: int)
    requires
        matches_at(a.add(b), p, i),
    ensures
        i + p.len() <= a.len() ==> matches_at(a, p, i),
        i >= a.len() ==> matches_at(b, p, i - a.len()),
        i < a.len() < i + p.len() ==> crossing(a, b, p),
{
    lemma_match_chars_iff(a.add(b), p, i, 0);
    if i + p.len() <= a.len() {
        lemma_match_chars_iff(a, p, i, 0);
    } else if i >= a.len() {
        lemma_match_chars_iff(b, p, i - a.len(), 0);
    } else {
        let k = a.len() - i;
        lemma_match_chars_iff(a, p.take(k), i, 0);
        lemma_match_chars_iff(b, p.skip(k), 0, 0);
        assert(forall|t: int| 0 <= t < k ==> a[i + t] == #[trigger] p.take(k)[t]);
        assert(forall|t: int| 0 <= t < p.len() - k ==> b[t] == #[trigger] p.skip(k)[t]);
        assert(is_suffix_of(p.take(k), a));
        assert(is_prefix_of(p.skip(k), b));
    }
}

proof fn lemma_no_suffix_prefix_iff(p: Seq<char>, m: Seq<char>, k0: int)
    ensures
        no_suffix_prefix_from(p, m, k0) <==> (forall|k: int|
            k0 <= k < p.len() ==> !is_prefix_of(#[trigger] p.skip(k), m)),
    decreases p.len() - k0 + 1,
{
    if k0 < p.len() {
        lemma_no_suffix_prefix_iff(p, m, k0 + 1);
    }
}

proof fn lemma_no_prefix_suffix_iff(p: Seq<char>, m: Seq<char>, k1: int)
    ensures
        no_prefix_suffix_upto(p, m, k1) <==> (forall|k: int|
            1 <= k <= k1 ==> !is_suffix_of(#[trigger] p.take(k), m)),
    decreases k1 + 1,
{
    if k1 > 0 {
        lemma_no_prefix_suffix_iff(p, m, k1 - 1);
    }
}

/// A prefix that fits inside the left part of a concatenation is a prefix of
/// the left part.
proof fn lemma_prefix_shorten(q: Seq<char>, m: Seq<char>, rest: Seq<char>)
    requires
        is_prefix_of(q, m.add(rest)),
        q.len() <= m.len(),
    ensures
        is_prefix_of(q, m),
{
    lemma_match_chars_iff(m.add(rest), q, 0, 0);
    lemma_match_chars_iff(m, q, 0, 0);
}

/// A suffix that fits inside the right part of a concatenation is a suffix of
/// the right part.
proof fn lemma_suffix_shorten(q: Seq<char>, u: Seq<char>, m: Seq<char>)
    requires
        is_suffix_of(q, u.add(m)),
        q.len() <= m.len(),
    ensures
        is_suffix_of(q, m),
{
    lemma_match_chars_iff(u.add(m), q, u.len() + m.len() - q.len(), 0);
    lemma_match_chars_iff(m, q, m.len() - q.len(), 0);
}

/// No occurrence straddles the boundary just before a block `m` at least as
/// long as the pattern, when no proper suffix of the pattern opens `m`.
pub proof fn lemma_no_crossing_into(a: Seq<char>, m: Seq<char>, rest: Seq<char>, p: Seq<char>)
    requires
        p.len() <= m.len() + 1,
        no_suffix_prefix(p, m),
    ensures
        !crossing(a, m.add(rest), p),
{
    lemma_no_suffix_prefix_iff(p, m, 1);
    if crossing(a, m.add(rest), p) {
        let k = choose|k: int|
            1 <= k < p.len() && is_suffix_of(#[trigger] p.take(k), a) && is_prefix_of(
                p.skip(k),
                m.add(rest),
            );
        lemma_prefix_shorten(p.skip(k), m, rest);
    }
}

/// No occurrence straddles the boundary just after a block `m` at least as
/// long as the pattern, when no proper prefix of the pattern closes `m`.
pub proof fn lemma_no_crossing_out_of(u: Seq<char>, m: Seq<char>, b: Seq<char>, p: Seq<char>)
    requires
        p.len() <= m.len() + 1,
        no_prefix_suffix(p, m),
    ensures
        !crossing(u.add(m), b, p),
{
    lemma_no_prefix_suffix_iff(p, m, p.len() - 1);
    if crossing(u.add(m), b, p) {
        let k = choose|k: int|
            1 <= k < p.len() && is_suffix_of(#[trigger] p.take(k), u.add(m)) && is_prefix_of(
                p.skip(k),
                b,
            );
        lemma_suffix_shorten(p.take(k), u, m);
    }
}

/// An occurrence inside a subrange is an occurrence in the whole string.
pub proof fn lemma_matches_in_subrange(x: Seq<char>, p: Seq<char>, l: int, r: int, i: int)
    requires
        0 <= l <= r <= x.len(),
        matches_at(x.subrange(l, r), p, i),
    ensures
        matches_at(x, p, l + i),
{
    lemma_match_chars_iff(x.subrange(l, r), p, i, 0);
    lemma_match_chars_iff(x, p, l + i, 0);
}

/// A pattern that occurs nowhere in a string occurs nowhere in any subrange.
pub proof fn lemma_subrange_free(x: Seq<char>, p: Seq<char>, l: int, r: int)
    requires
        0 <= l <= r <= x.len(),
        !contains_seq(x, p),
    ensures
        !contains_seq(x.subrange(l, r), p),
{
    lemma_contains_iff(x, p);
    lemma_contains_iff(x.subrange(l, r), p);
    if contains_seq(x.subrange(l, r), p) {
        let i = choose|i: int| matches_at(x.subrange(l, r), p, i);
        lemma_matches_in_subrange(x, p, l, r, i);
    }
}

/// A pattern containing `q` at offset `d` carries an occurrence of `q` along
/// with every occurrence of itself.
pub proof fn lemma_occurrence_of_part(s: Seq<char>, p: Seq<char>, q: Seq<char>, d: int, i: int)
    requires
        matches_at(s, p, i),
        matches_at(p, q, d),
    ensures
        matches_at(s, q, i + d),
{
    lemma_match_chars_iff(s, p, i, 0);
    lemma_match_chars_iff(p, q, d, 0);
    lemma_match_chars_iff(s, q, i + d, 0);
}


/// An occurrence in the whole string that lies within a subrange is an
/// occurrence in the subrange.
pub proof fn lemma_matches_to_subrange(x: Seq<char>, p: Seq<char>, l: int, r: int, i: int)
    requires
        matches_at(x, p, i),
        0 <= l <= i,
        i + p.len() <= r <= x.len(),
    ensures
        matches_at(x.subrange(l, r), p, i - l),
{
    lemma_match_chars_iff(x, p, i, 0);
    lemma_match_chars_iff(x.subrange(l, r), p, i - l, 0);
}

/// Searching from `i` is searching the suffix `s[i..]` from its start.
pub proof fn lemma_find_skip(s: Seq<char>, p: Seq<char>, i: int)
    requires
        0 <= i <= s.len(),
    ensures
        match find_from_spec(s, p, i) {
            Some(j) => find_from_spec(s.skip(i), p, 0) == Some(j - i),
            None => find_from_spec(s.skip(i), p, 0) is None,
        },
{
    lemma_find_from_props(s, p, i);
    assert(s.skip(i) =~= s.subrange(i, s.len() as int));
    match find_from_spec(s, p, i) {
        Some(j) => {
            lemma_matches_to_subrange(s, p, i, s.len() as int, j);
            assert forall|k: int| 0 <= k < j - i implies !matches_at(
                s.subrange(i, s.len() as int),
                p,
                k,
            ) by {
                if matches_at(s.subrange(i, s.len() as int), p, k) {
                    lemma_matches_in_subrange(s, p, i, s.len() as int, k);
                }
            }
            lemma_find_from_exact(s.subrange(i, s.len() as int), p, 0, j - i);
        },
        None => {
            lemma_find_from_props(s.subrange(i, s.len() as int), p, 0);
            if find_from_spec(s.subrange(i, s.len() as int), p, 0) is Some {
                let k = find_from_spec(s.subrange(i, s.len() as int), p, 0)->Some_0;
                lemma_matches_in_subrange(s, p, i, s.len() as int, k);
            }
        },
    }
}

/// Whether two string slices hold the same characters.
pub fn str_eq(a: &str, b: &str) -> (r: bool)
    ensures
        r <==> a@ == b@,
{
    let na = a.unicode_len();
    let nb = b.unicode_len();
    if na != nb {
        return false;
    }
    let va = to_char_vec(a);
    let vb = to_char_vec(b);
    let mut i: usize = 0;
    while i < na
        invariant
            na == a@.len() == b@.len(),
            va@ == a@,
            vb@ == b@,
            i <= na,
            forall|k: int| 0 <= k < i ==> a@[k] == b@[k],
        decreases na - i,
    {
        if va[i] != vb[i] {
            return false;
        }
        i = i + 1;
    }
    proof {
        assert(a@ =~= b@);
    }
    true
}


/// No occurrence can straddle a boundary whose right side is a block that no
/// proper suffix of the pattern opens.
pub proof fn lemma_block_no_crossing_in(a: Seq<char>, m: Seq<char>, p: Seq<char>)
    requires
        no_suffix_prefix(p, m),
    ensures
        !crossing(a, m, p),
{
    lemma_no_suffix_prefix_iff(p, m, 1);
}

/// No occurrence can straddle a boundary whose left side is a block that no
/// proper prefix of the pattern closes.
pub proof fn lemma_block_no_crossing_out(m: Seq<char>, b: Seq<char>, p: Seq<char>)
    requires
        no_prefix_suffix(p, m),
    ensures
        !crossing(m, b, p),
{
    lemma_no_prefix_suffix_iff(p, m, p.len() - 1);
}

/// A pattern absent from both parts of a concatenation and unable to
/// straddle their boundary is absent from the whole.
pub proof fn lemma_free_concat(a: Seq<char>, b: Seq<char>, p: Seq<char>)
    requires
        !contains_seq(a, p),
        !contains_seq(b, p),
        !crossing(a, b, p),
    ensures
        !contains_seq(a.add(b), p),
{
    lemma_contains_iff(a, p);
    lemma_contains_iff(b, p);
    lemma_contains_iff(a.add(b), p);
    if contains_seq(a.add(b), p) {
        let i = choose|i: int| matches_at(a.add(b), p, i);
        lemma_matches_split(a, b, p, i);
    }
}


/// Character `c` occurs somewhere in `s`.
pub open spec fn contains_char(s: Seq<char>, c: char) -> bool {
    exists|i: int| 0 <= i < s.len() && s[i] == c
}

/// The numeric value of a character with ASCII upper case folded to
/// lower.  Only the twenty-six ASCII letters fold; every other character,
/// whatever a Unicode case fold would make of it, stands for itself.
pub open spec fn lower_code(c: char) -> u32 {
    if 65 <= c as u32 && c as u32 <= 90 {
        (c as u32 + 32) as u32
    } else {
        c as u32
    }
}

/// The two names hold the same characters up to ASCII case.
pub open spec fn eq_ignore_case(a: Seq<char>, b: Seq<char>) -> bool {
    a.len() == b.len() && forall|i: int| 0 <= i < a.len() ==> lower_code(a[i]) == lower_code(b[i])
}


/// Whether the vector and the string hold the same characters up to ASCII case.
pub fn eq_ci(a: &Vec<char>, b: &str) -> (r: bool)
    ensures
        r == eq_ignore_case(a@, b@),
{
    let nb = b.unicode_len();
    if a.len() != nb {
        return false;
    }
    let vb = to_char_vec(b);
    let mut i: usize = 0;
    while i < nb
        invariant
            a@.len() == nb == b@.len(),
            vb@ == b@,
            i <= nb,
            forall|k: int| 0 <= k < i ==> lower_code(a@[k]) == lower_code(b@[k]),
        decreases nb - i,
    {
        let ca = a[i] as u32;
        let cb = vb[i] as u32;
        let la = if 65 <= ca && ca <= 90 {
            ca + 32
        } else {
            ca
        };
        let lb = if 65 <= cb && cb <= 90 {
            cb + 32
        } else {
            cb
        };
        if la != lb {
            return false;
        }
        i = i + 1;
    }
    true
}


/// Left-to-right replacement of every occurrence of `p` by `q`, as
/// `str::replace` performs it.
pub open spec fn replace_all(s: Seq<char>, p: Seq<char>, q: Seq<char>) -> Seq<char>
    decreases s.len(),
{
    if p.len() == 0 || s.len() < p.len() {
        s
    } else if is_prefix_of(p, s) {
        q + replace_all(s.skip(p.len() as int), p, q)
    } else {
        seq![s[0]] + replace_all(s.skip(1), p, q)
    }
}

/// Replacing a pattern that occurs nowhere changes nothing.
pub proof fn lemma_replace_all_free(s: Seq<char>, p: Seq<char>, q: Seq<char>)
    requires
        p.len() >= 1,
        !contains_seq(s, p),
    ensures
        replace_all(s, p, q) == s,
    decreases s.len(),
{
    lemma_contains_iff(s, p);
    if s.len() >= p.len() {
        if is_prefix_of(p, s) {
            assert(matches_at(s, p, 0));
        }
        assert(s.skip(1) =~= s.subrange(1, s.len() as int));
        lemma_subrange_free(s, p, 1, s.len() as int);
        lemma_replace_all_free(s.skip(1), p, q);
        assert(seq![s[0]] + s.skip(1) =~= s);
    }
}

/// Replacement proceeds from the first occurrence: everything before it is
/// kept, the occurrence becomes `q`, and replacement continues after it.
pub proof fn lemma_replace_all_step(s: Seq<char>, p: Seq<char>, q: Seq<char>, j: int)
    requires
        p.len() >= 1,
        find_from_spec(s, p, 0) == Some(j),
    ensures
        replace_all(s, p, q) == s.subrange(0, j) + q + replace_all(s.skip(j + p.len()), p, q),
    decreases s.len(),
{
    lemma_find_from_props(s, p, 0);
    if j == 0 {
        assert(is_prefix_of(p, s));
        assert(s.subrange(0, 0) + q + replace_all(s.skip(p.len() as int), p, q) =~= q
            + replace_all(s.skip(p.len() as int), p, q));
    } else {
        assert(!matches_at(s, p, 0));
        if is_prefix_of(p, s) {
            assert(matches_at(s, p, 0));
        }
        lemma_find_skip(s, p, 1);
        assert(find_from_spec(s, p, 1) == Some(j)) by {
            lemma_find_from_exact(s, p, 1, j);
        }
        lemma_replace_all_step(s.skip(1), p, q, j - 1);
        assert(s.skip(1).subrange(0, j - 1) =~= s.subrange(1, j));
        assert(s.skip(1).skip(j - 1 + p.len()) =~= s.skip(j + p.len()));
        assert(seq![s[0]] + (s.subrange(1, j) + q + replace_all(s.skip(j + p.len()), p, q))
            =~= s.subrange(0, j) + q + replace_all(s.skip(j + p.len()), p, q));
    }
}

/// Replaces every occurrence of `pat` by `rep`, scanning left to right.
pub fn replace_occurrences(s: &str, pat: &str, rep: &str) -> (r: String)
    requires
        pat@.len() >= 1,
    ensures
        r@ == replace_all(s@, pat@, rep@),
{
    let v = to_char_vec(s);
    let pv = to_char_vec(pat);
    let n = s.unicode_len();
    let mut out = String::new();
    let mut i: usize = 0;
    proof {
        assert(s@.skip(0) =~= s@);
        assert(out@ + replace_all(s@, pat@, rep@) =~= replace_all(s@, pat@, rep@));
    }
    loop
        invariant
            n == s@.len(),
            v@ == s@,
            pv@ == pat@,
            pat@.len() >= 1,
            i <= n,
            replace_all(s@, pat@, rep@) == out@ + replace_all(s@.skip(i as int), pat@, rep@),
        decreases n - i,
    {
        match find_from(&v, &pv, i) {
            Some(j) => {
                proof {
                    lemma_find_from_props(s@, pat@, i as int);
                    lemma_find_skip(s@, pat@, i as int);
                    lemma_replace_all_step(s@.skip(i as int), pat@, rep@, j - i);
                    assert(s@.skip(i as int).subrange(0, j - i) =~= s@.subrange(i as int, j as int));
                    assert(s@.skip(i as int).skip(j - i + pat@.len()) =~= s@.skip(j + pat@.len()));
                }
                out.append(s.substring_char(i, j));
                out.append(rep);
                i = j + pv.len();
            },
            None => {
                proof {
                    lemma_find_skip(s@, pat@, i as int);
                    lemma_replace_all_free(s@.skip(i as int), pat@, rep@);
                    assert(s@.skip(i as int) =~= s@.subrange(i as int, n as int));
                }
                out.append(s.substring_char(i, n));
                return out;
            },
        }
    }
}

/// The characters with the Unicode White_Space property: exactly the set
/// that `str::trim` strips.
pub open spec fn is_space(c: char) -> bool {
    ||| c == '\t'
    ||| c == '\n'
    ||| c == '\u{000B}'
    ||| c == '\u{000C}'
    ||| c == '\r'
    ||| c == ' '
    ||| c == '\u{0085}'
    ||| c == '\u{00A0}'
    ||| c == '\u{1680}'
    ||| ('\u{2000}' <= c && c <= '\u{200A}')
    ||| c == '\u{2028}'
    ||| c == '\u{2029}'
    ||| c == '\u{202F}'
    ||| c == '\u{205F}'
    ||| c == '\u{3000}'
}

pub open spec fn trim_start_spec(s: Seq<char>) -> Seq<char>
    decreases s.len(),
{
    if s.len() > 0 && is_space(s[0]) {
        trim_start_spec(s.skip(1))
    } else {
        s
    }
}

pub open spec fn trim_end_spec(s: Seq<char>) -> Seq<char>
    decreases s.len(),
{
    if s.len() > 0 && is_space(s[s.len() - 1]) {
        trim_end_spec(s.take(s.len() - 1))
    } else {
        s
    }
}

/// The text with leading and trailing whitespace stripped.
pub open spec fn trim_spec(s: Seq<char>) -> Seq<char> {
    trim_end_spec(trim_start_spec(s))
}

proof fn lemma_trim_start_at(s: Seq<char>, a: int)
    requires
        0 <= a <= s.len(),
        forall|k: int| 0 <= k < a ==> is_space(s[k]),
        a == s.len() || !is_space(s[a]),
    ensures
        trim_start_spec(s) == s.skip(a),
    decreases a,
{
    if a == 0 {
        assert(s.skip(0) =~= s);
    } else {
        assert(forall|k: int| 0 <= k < a - 1 ==> is_space(#[trigger] s.skip(1)[k]));
        lemma_trim_start_at(s.skip(1), a - 1);
        assert(s.skip(1).skip(a - 1) =~= s.skip(a));
    }
}

proof fn lemma_trim_end_at(s: Seq<char>, b: int)
    requires
        0 <= b <= s.len(),
        forall|k: int| b <= k < s.len() ==> is_space(s[k]),
        b == 0 || !is_space(s[b - 1]),
    ensures
        trim_end_spec(s) == s.take(b),
    decreases s.len() - b,
{
    if b == s.len() {
        assert(s.take(b) =~= s);
    } else {
        assert(forall|k: int| b <= k < s.len() - 1 ==> is_space(#[trigger] s.take(s.len() - 1)[k]));
        lemma_trim_end_at(s.take(s.len() - 1), b);
        assert(s.take(s.len() - 1).take(b) =~= s.take(b));
    }
}

fn space_char(c: char) -> (r: bool)
    ensures
        r == is_space(c),
{
    c == '\t' || c == '\n' || c == '\u{000B}' || c == '\u{000C}' || c == '\r' || c == ' '
        || c == '\u{0085}' || c == '\u{00A0}' || c == '\u{1680}' || ('\u{2000}' <= c && c
        <= '\u{200A}') || c == '\u{2028}' || c == '\u{2029}' || c == '\u{202F}' || c
        == '\u{205F}' || c == '\u{3000}'
}

/// Strips leading and trailing whitespace.
pub fn trim_str(s: &str) -> (r: String)
    ensures
        r@ == trim_spec(s@),
{
    let v = to_char_vec(s);
    let n = v.len();
    let mut a: usize = 0;
    while a < n && space_char(v[a])
        invariant
            n == s@.len(),
            v@ == s@,
            a <= n,
            forall|k: int| 0 <= k < a ==> is_space(s@[k]),
        decreases n - a,
    {
        a = a + 1;
    }
    let mut b: usize = n;
    while b > a && space_char(v[b - 1])
        invariant
            n == s@.len(),
            v@ == s@,
            a <= b <= n,
            forall|k: int| b <= k < n ==> is_space(s@[k]),
        decreases b,
    {
        b = b - 1;
    }
    proof {
        lemma_trim_start_at(s@, a as int);
        let t = s@.skip(a as int);
        assert(forall|k: int| b - a <= k < t.len() ==> is_space(t[k]));
        lemma_trim_end_at(t, b - a);
        assert(t.take(b - a) =~= s@.subrange(a as int, b as int));
    }
    s.substring_char(a, b).to_owned()
}

/// Lexicographic order on character sequences by code point, which agrees
/// with the byte order of their UTF-8 encodings.
pub open spec fn lex_le(a: Seq<char>, b: Seq<char>) -> bool
    decreases a.len(),
{
    if a.len() == 0 {
        true
    } else if b.len() == 0 {
        false
    } else if a[0] == b[0] {
        lex_le(a.skip(1), b.skip(1))
    } else {
        (a[0] as u32) < (b[0] as u32)
    }
}

proof fn lemma_lex_skip(a: Seq<char>, b: Seq<char>, i: int)
    requires
        0 <= i <= a.len(),
        i <= b.len(),
        forall|k: int| 0 <= k < i ==> a[k] == b[k],
    ensures
        lex_le(a, b) == lex_le(a.skip(i), b.skip(i)),
    decreases i,
{
    if i > 0 {
        assert(forall|k: int| 0 <= k < i - 1 ==> a.skip(1)[k] == b.skip(1)[k]);
        lemma_lex_skip(a.skip(1), b.skip(1), i - 1);
        assert(a.skip(1).skip(i - 1) =~= a.skip(i));
        assert(b.skip(1).skip(i - 1) =~= b.skip(i));
    } else {
        assert(a.skip(0) =~= a);
        assert(b.skip(0) =~= b);
    }
}

/// The order is total.
pub proof fn lemma_lex_total(a: Seq<char>, b: Seq<char>)
    ensures
        lex_le(a, b) || lex_le(b, a),
    decreases a.len(),
{
    if a.len() > 0 && b.len() > 0 {
        if a[0] == b[0] {
            lemma_lex_total(a.skip(1), b.skip(1));
        } else {
            vstd::utf8::char_u32_cast(a[0], a[0] as u32);
            vstd::utf8::char_u32_cast(b[0], b[0] as u32);
        }
    }
}

/// The order is transitive.
pub proof fn lemma_lex_trans(a: Seq<char>, b: Seq<char>, c: Seq<char>)
    requires
        lex_le(a, b),
        lex_le(b, c),
    ensures
        lex_le(a, c),
    decreases a.len(),
{
    if a.len() > 0 && b.len() > 0 && c.len() > 0 {
        if a[0] == b[0] && b[0] == c[0] {
            lemma_lex_trans(a.skip(1), b.skip(1), c.skip(1));
        }
    }
}

/// The order is antisymmetric.
pub proof fn lemma_lex_antisym(x: Seq<char>, y: Seq<char>)
    requires
        lex_le(x, y),
        lex_le(y, x),
    ensures
        x == y,
    decreases x.len(),
{
    if x.len() == 0 {
        assert(y.len() == 0);
        assert(x =~= y);
    } else if y.len() == 0 {
    } else if x[0] == y[0] {
        lemma_lex_antisym(x.skip(1), y.skip(1));
        assert(x.skip(1).len() == x.len() - 1);
        assert(y.skip(1).len() == y.len() - 1);
        assert forall|i: int| 0 <= i < x.len() implies x[i] == y[i] by {
            if i >= 1 {
                assert(x[i] == x.skip(1)[i - 1]);
                assert(y[i] == y.skip(1)[i - 1]);
            }
        }
        assert(x =~= y);
    }
}

/// Whether `a` comes no later than `b` in lexicographic order.
pub fn str_le(a: &str, b: &str) -> (r: bool)
    ensures
        r == lex_le(a@, b@),
{
    let va = to_char_vec(a);
    let vb = to_char_vec(b);
    let na = va.len();
    let nb = vb.len();
    let mut i: usize = 0;
    loop
        invariant
            va@ == a@,
            vb@ == b@,
            na == a@.len(),
            nb == b@.len(),
            i <= na,
            i <= nb,
            forall|k: int| 0 <= k < i ==> a@[k] == b@[k],
        decreases na - i,
    {
        if i >= na {
            proof {
                lemma_lex_skip(a@, b@, i as int);
            }
            return true;
        }
        if i >= nb {
            proof {
                lemma_lex_skip(a@, b@, i as int);
            }
            return false;
        }
        let ca = va[i];
        let cb = vb[i];
        if ca != cb {
            proof {
                lemma_lex_skip(a@, b@, i as int);
                assert(a@.skip(i as int)[0] == ca);
                assert(b@.skip(i as int)[0] == cb);
            }
            return (ca as u32) < (cb as u32);
        }
        i = i + 1;
    }
}

} // verus!
