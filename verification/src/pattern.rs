//! Byte-pattern search: the mathematical notion of the first occurrence of a
//! pattern inside a byte sequence, and a verified substring search over
//! `Vec<u8>`. Everything the boundary scanner proves is stated in terms of
//! [`find_from`].

use vstd::prelude::*;

verus! {

/// The pattern `pat` occurs in `data` starting at index `i`.
pub open spec fn is_match(data: Seq<u8>, pat: Seq<u8>, i: int) -> bool {
    &&& 0 <= i
    &&& i + pat.len() <= data.len()
    &&& forall|k: int| 0 <= k < pat.len() ==> data[i + k] == pat[k]
}

/// No occurrence of `pat` in `data` starts at an index in `[lo, hi)`.
pub open spec fn no_match_in(data: Seq<u8>, pat: Seq<u8>, lo: int, hi: int) -> bool {
    forall|j: int| lo <= j < hi ==> !is_match(data, pat, j)
}

/// Index of the first occurrence of `pat` in `data` at or after `from`,
/// or `None` if there is none.
pub open spec fn find_from(data: Seq<u8>, pat: Seq<u8>, from: int) -> Option<int>
    decreases data.len() - from,
{
    if from < 0 || from + pat.len() > data.len() {
        None
    } else if is_match(data, pat, from) {
        Some(from)
    } else {
        find_from(data, pat, from + 1)
    }
}

/// What `find_from` returns: the first match, or the certainty that there
/// is none.
pub proof fn lemma_find_from_spec(data: Seq<u8>, pat: Seq<u8>, from: int)
    requires
        0 <= from,
        pat.len() > 0,
    ensures
        match find_from(data, pat, from) {
            Some(i) => from <= i && is_match(data, pat, i) && no_match_in(data, pat, from, i),
            None => no_match_in(data, pat, from, data.len() as int),
        },
    decreases data.len() - from,
{
    if from + pat.len() > data.len() {
        assert forall|j: int| from <= j < data.len() implies !is_match(data, pat, j) by {}
    } else if is_match(data, pat, from) {
    } else {
        lemma_find_from_spec(data, pat, from + 1);
    }
}

/// Skipping over a region without matches does not change the result.
pub proof fn lemma_find_from_skip(data: Seq<u8>, pat: Seq<u8>, from: int, mid: int)
    requires
        0 <= from <= mid <= data.len(),
        no_match_in(data, pat, from, mid),
    ensures
        find_from(data, pat, from) == find_from(data, pat, mid),
    decreases mid - from,
{
    if from < mid {
        assert(!is_match(data, pat, from));
        lemma_find_from_skip(data, pat, from + 1, mid);
    }
}

/// Without any match anywhere, the search comes up empty.
pub proof fn lemma_find_from_none(data: Seq<u8>, pat: Seq<u8>, from: int)
    requires
        0 <= from,
        pat.len() > 0,
        no_match_in(data, pat, from, data.len() as int),
    ensures
        find_from(data, pat, from) is None,
{
    lemma_find_from_spec(data, pat, from);
    if let Some(i) = find_from(data, pat, from) {
        assert(!is_match(data, pat, i));
    }
}

/// A match at `i` with nothing before it is the first match.
pub proof fn lemma_find_from_is(data: Seq<u8>, pat: Seq<u8>, from: int, i: int)
    requires
        0 <= from <= i,
        pat.len() > 0,
        is_match(data, pat, i),
        no_match_in(data, pat, from, i),
    ensures
        find_from(data, pat, from) == Some(i),
{
    lemma_find_from_skip(data, pat, from, i);
}

/// Matching inside a window of `data` is matching in `data`, shifted.
pub proof fn lemma_match_in_window(data: Seq<u8>, pat: Seq<u8>, lo: int, hi: int, i: int)
    requires
        0 <= lo <= hi <= data.len(),
        0 <= i,
        lo + i + pat.len() <= hi,
    ensures
        is_match(data.subrange(lo, hi), pat, i) == is_match(data, pat, lo + i),
{
    let w = data.subrange(lo, hi);
    if is_match(w, pat, i) {
        assert forall|k: int| 0 <= k < pat.len() implies data[lo + i + k] == pat[k] by {
            assert(w[i + k] == data[lo + i + k]);
        }
    }
    if is_match(data, pat, lo + i) {
        assert forall|k: int| 0 <= k < pat.len() implies w[i + k] == pat[k] by {
            assert(w[i + k] == data[lo + i + k]);
        }
    }
}

/// First occurrence of `pat@` in `hay@`, by direct search.
pub fn find_sub(hay: &Vec<u8>, pat: &Vec<u8>) -> (r: Option<usize>)
    requires
        pat@.len() > 0,
    ensures
        match r {
            Some(i) => is_match(hay@, pat@, i as int) && no_match_in(hay@, pat@, 0, i as int),
            None => no_match_in(hay@, pat@, 0, hay@.len() as int),
        },
{
    if pat.len() > hay.len() {
        return None;
    }
    let last: usize = hay.len() - pat.len();
    let mut i: usize = 0;
    while i <= last
        invariant
            pat@.len() > 0,
            hay@.len() <= usize::MAX,
            last == hay@.len() - pat@.len(),
            0 <= i <= last + 1,
            no_match_in(hay@, pat@, 0, i as int),
        decreases last + 1 - i,
    {
        let mut k: usize = 0;
        let mut eq: bool = true;
        while k < pat.len()
            invariant
                pat@.len() > 0,
                hay@.len() <= usize::MAX,
                i + pat@.len() <= hay@.len(),
                0 <= k <= pat@.len(),
                eq ==> forall|m: int| 0 <= m < k ==> hay@[i + m] == pat@[m],
                !eq ==> !is_match(hay@, pat@, i as int),
            decreases pat@.len() - k,
        {
            if hay[i + k] != pat[k] {
                eq = false;
                k = pat.len();
            } else {
                k = k + 1;
            }
        }
        if eq {
            return Some(i);
        }
        i = i + 1;
    }
    assert forall|j: int| 0 <= j < hay@.len() implies !is_match(hay@, pat@, j) by {
        if j <= last {
            assert(!is_match(hay@, pat@, j));
        }
    }
    None
}

/// An element-for-element copy of a byte vector.
pub(crate) fn clone_bytes(v: &Vec<u8>) -> (r: Vec<u8>)
    ensures
        r@ == v@,
{
    copy_range(v, 0, v.len())
}

/// The bytes of `v` between `a` and `b`, as a fresh vector.
pub(crate) fn copy_range(v: &Vec<u8>, a: usize, b: usize) -> (r: Vec<u8>)
    requires
        a <= b <= v@.len(),
    ensures
        r@ == v@.subrange(a as int, b as int),
{
    let mut r: Vec<u8> = Vec::new();
    let mut i: usize = a;
    while i < b
        invariant
            a <= i <= b <= v@.len(),
            r@ == v@.subrange(a as int, i as int),
        decreases b - i,
    {
        let c = v[i];
        r.push(c);
        proof {
            assert(v@.subrange(a as int, i + 1) =~= v@.subrange(a as int, i as int).push(c));
        }
        i = i + 1;
    }
    proof {
        assert(r@ =~= v@.subrange(a as int, b as int));
    }
    r
}

/// Whether two byte vectors hold the same bytes.
pub(crate) fn bytes_eq(a: &Vec<u8>, b: &Vec<u8>) -> (r: bool)
    ensures
        r == (a@ == b@),
{
    if a.len() != b.len() {
        return false;
    }
    let mut i: usize = 0;
    while i < a.len()
        invariant
            a@.len() == b@.len(),
            0 <= i <= a@.len(),
            forall|m: int| 0 <= m < i ==> a@[m] == b@[m],
        decreases a@.len() - i,
    {
        if a[i] != b[i] {
            return false;
        }
        i = i + 1;
    }
    proof {
        assert(a@ =~= b@);
    }
    true
}

} // verus!
