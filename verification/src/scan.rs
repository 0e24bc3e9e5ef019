//! Searching a byte sequence for a delimiter.

use vstd::prelude::*;

verus! {

/// `pat` occurs in `s` at index `i`.
pub open spec fn occurs_at(s: Seq<u8>, pat: Seq<u8>, i: int) -> bool {
    &&& 0 <= i
    &&& i + pat.len() <= s.len()
    &&& s.subrange(i, i + pat.len()) == pat
}

/// `i` is the smallest index at which `pat` occurs in `s`.
pub open spec fn is_first_occurrence(s: Seq<u8>, pat: Seq<u8>, i: int) -> bool {
    &&& occurs_at(s, pat, i)
    &&& forall|j: int| 0 <= j < i ==> !occurs_at(s, pat, j)
}

/// `pat` occurs somewhere in `s`.
pub open spec fn occurs(s: Seq<u8>, pat: Seq<u8>) -> bool {
    exists|i: int| occurs_at(s, pat, i)
}

/// The smallest index at which `pat` occurs in `s`, if it occurs at all.
pub open spec fn first_occurrence(s: Seq<u8>, pat: Seq<u8>) -> Option<int> {
    if occurs(s, pat) {
        Some(choose|i: int| is_first_occurrence(s, pat, i))
    } else {
        None
    }
}

/// Below any occurrence there is a smallest one.
proof fn lemma_least_occurrence(s: Seq<u8>, pat: Seq<u8>, i: int)
    requires
        occurs_at(s, pat, i),
    ensures
        exists|k: int| is_first_occurrence(s, pat, k),
    decreases i,
{
    if forall|j: int| 0 <= j < i ==> !occurs_at(s, pat, j) {
        assert(is_first_occurrence(s, pat, i));
    } else {
        let j = choose|j: int| 0 <= j < i && occurs_at(s, pat, j);
        lemma_least_occurrence(s, pat, j);
    }
}

/// What `first_occurrence` returns is a smallest occurrence, and `None` means
/// that there is no occurrence.
pub proof fn lemma_first_occurrence(s: Seq<u8>, pat: Seq<u8>)
    ensures
        match first_occurrence(s, pat) {
            Some(i) => is_first_occurrence(s, pat, i),
            None => forall|j: int| !occurs_at(s, pat, j),
        },
{
    if occurs(s, pat) {
        let i = choose|i: int| occurs_at(s, pat, i);
        lemma_least_occurrence(s, pat, i);
    }
}

/// A smallest occurrence is the one that `first_occurrence` returns.
pub proof fn lemma_first_occurrence_is(s: Seq<u8>, pat: Seq<u8>, i: int)
    requires
        is_first_occurrence(s, pat, i),
    ensures
        first_occurrence(s, pat) == Some(i),
{
    lemma_first_occurrence(s, pat);
    let c = first_occurrence(s, pat)->0;
    assert(occurs_at(s, pat, i));
    if c < i {
        assert(!occurs_at(s, pat, c));
    }
    if i < c {
        assert(!occurs_at(s, pat, i));
    }
}

/// An occurrence in `s` is one in `s + more`, and an occurrence in `s + more`
/// that ends inside `s` is one in `s`.
pub proof fn lemma_occurs_at_append(s: Seq<u8>, more: Seq<u8>, pat: Seq<u8>, i: int)
    ensures
        occurs_at(s, pat, i) ==> occurs_at(s + more, pat, i),
        occurs_at(s + more, pat, i) && i + pat.len() <= s.len() ==> occurs_at(s, pat, i),
{
    if 0 <= i && i + pat.len() <= s.len() {
        assert((s + more).subrange(i, i + pat.len()) =~= s.subrange(i, i + pat.len()));
    }
}

/// The first occurrence in `s` is still the first one in `s + more`.
pub proof fn lemma_first_occurrence_append(s: Seq<u8>, more: Seq<u8>, pat: Seq<u8>, i: int)
    requires
        is_first_occurrence(s, pat, i),
    ensures
        is_first_occurrence(s + more, pat, i),
{
    lemma_occurs_at_append(s, more, pat, i);
    assert forall|j: int| 0 <= j < i implies !occurs_at(s + more, pat, j) by {
        lemma_occurs_at_append(s, more, pat, j);
    }
}

/// The first index at which `pat` occurs in `hay`.
pub fn find_bytes(hay: &[u8], pat: &[u8]) -> (r: Option<usize>)
    ensures
        match r {
            Some(i) => first_occurrence(hay@, pat@) == Some(i as int),
            None => first_occurrence(hay@, pat@) is None,
        },
{
    let n: usize = hay.len();
    let m: usize = pat.len();
    if m > n {
        proof {
            lemma_first_occurrence(hay@, pat@);
        }
        return None;
    }
    let last: usize = n - m;
    let mut i: usize = 0;
    while i <= last
        invariant
            n == hay@.len(),
            m == pat@.len(),
            m <= n,
            last == n - m,
            i <= last + 1,
            forall|j: int| 0 <= j < i ==> !occurs_at(hay@, pat@, j),
        decreases last + 1 - i,
    {
        let mut k: usize = 0;
        while k < m && hay[i + k] == pat[k]
            invariant
                n == hay@.len(),
                m == pat@.len(),
                i + m <= n,
                k <= m,
                forall|t: int| 0 <= t < k ==> hay@[i + t] == pat@[t],
            decreases m - k,
        {
            k += 1;
        }
        if k == m {
            proof {
                assert(hay@.subrange(i as int, i + m) =~= pat@);
                lemma_first_occurrence_is(hay@, pat@, i as int);
            }
            return Some(i);
        }
        proof {
            assert(hay@.subrange(i as int, i + m)[k as int] == hay@[i + k]);
        }
        i += 1;
    }
    proof {
        assert forall|j: int| !occurs_at(hay@, pat@, j) by {
            if occurs_at(hay@, pat@, j) {
                assert(j <= last);
            }
        }
        lemma_first_occurrence(hay@, pat@);
    }
    None
}

} // verus!
