//! First-match search over sequences.

use vstd::prelude::*;

verus! {

/// The index of the first element of `s` that satisfies `pred`, or -1.
pub open spec fn first_where<T>(s: Seq<T>, pred: spec_fn(T) -> bool) -> int
    decreases s.len(),
{
    if s.len() == 0 {
        -1
    } else if pred(s[0]) {
        0
    } else {
        let r = first_where(s.skip(1), pred);
        if r < 0 {
            -1
        } else {
            r + 1
        }
    }
}

/// `first_where` stated by position: `i` is the first hit, or the length when
/// there is none.
pub proof fn lemma_first_where<T>(s: Seq<T>, pred: spec_fn(T) -> bool, i: int)
    requires
        0 <= i <= s.len(),
        forall|j: int| 0 <= j < i ==> !pred(#[trigger] s[j]),
        i == s.len() || pred(s[i]),
    ensures
        first_where(s, pred) == (if i == s.len() { -1 } else { i }),
    decreases s.len(),
{
    if s.len() > 0 && i > 0 {
        assert forall|j: int| 0 <= j < i - 1 implies !pred(#[trigger] s.skip(1)[j]) by {
            assert(s.skip(1)[j] == s[j + 1]);
        }
        lemma_first_where(s.skip(1), pred, i - 1);
    }
}

/// What `first_where` gives: -1 when nothing satisfies `pred`, else an index
/// that does, before which nothing does.
pub proof fn lemma_first_where_meaning<T>(s: Seq<T>, pred: spec_fn(T) -> bool)
    ensures
        -1 <= first_where(s, pred) < s.len(),
        first_where(s, pred) == -1 ==> forall|j: int| 0 <= j < s.len() ==> !pred(#[trigger] s[j]),
        first_where(s, pred) >= 0 ==> pred(s[first_where(s, pred)]),
        first_where(s, pred) >= 0 ==> forall|j: int|
            0 <= j < first_where(s, pred) ==> !pred(#[trigger] s[j]),
    decreases s.len(),
{
    if s.len() > 0 && !pred(s[0]) {
        lemma_first_where_meaning(s.skip(1), pred);
        let f = first_where(s, pred);
        assert forall|j: int| 0 <= j < s.len() && (f == -1 || j < f) implies !pred(#[trigger] s[j]) by {
            if j > 0 {
                assert(s[j] == s.skip(1)[j - 1]);
            }
        }
    }
}

/// Two searches whose predicates agree position by position find the same
/// index.
pub proof fn lemma_first_where_congruent<T, U>(
    s1: Seq<T>,
    p1: spec_fn(T) -> bool,
    s2: Seq<U>,
    p2: spec_fn(U) -> bool,
)
    requires
        s1.len() == s2.len(),
        forall|i: int| 0 <= i < s1.len() ==> p1(#[trigger] s1[i]) == p2(s2[i]),
    ensures
        first_where(s1, p1) == first_where(s2, p2),
    decreases s1.len(),
{
    if s1.len() > 0 && !p1(s1[0]) {
        assert(p1(s1[0]) == p2(s2[0]));
        assert forall|i: int| 0 <= i < s1.skip(1).len() implies p1(#[trigger] s1.skip(1)[i]) == p2(
            s2.skip(1)[i],
        ) by {
            assert(s1.skip(1)[i] == s1[i + 1]);
            assert(s2.skip(1)[i] == s2[i + 1]);
        }
        lemma_first_where_congruent(s1.skip(1), p1, s2.skip(1), p2);
    } else if s1.len() > 0 {
        assert(p1(s1[0]) == p2(s2[0]));
    }
}

} // verus!
