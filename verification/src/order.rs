//! The ordering relation of the crate: non-decreasing sequences of `i64`,
//! and the basic lemmas the merge family rests on.

use vstd::prelude::*;
use vstd::relations::{sorted_by, total_ordering};
use vstd::seq_lib::lemma_sorted_unique;

verus! {

/// A sequence is non-decreasing: each element is at most every later one.
pub open spec fn is_sorted(s: Seq<i64>) -> bool {
    forall|i: int, j: int| 0 <= i <= j < s.len() ==> s[i] <= s[j]
}

/// `is_sorted` coincides with vstd's `sorted_by` under `<=` on `i64`.
pub proof fn lemma_is_sorted_by_le(s: Seq<i64>)
    ensures
        is_sorted(s) <==> sorted_by(s, |x: i64, y: i64| x <= y),
{
    let leq = |x: i64, y: i64| x <= y;
    if sorted_by(s, leq) {
        assert forall|i: int, j: int| 0 <= i <= j < s.len() implies s[i] <= s[j] by {
            if i < j {
                assert(leq(s[i], s[j]));
            }
        }
    }
}

/// Two non-decreasing sequences that hold the same multiset of elements
/// are the same sequence.
pub proof fn lemma_sorted_multiset_unique(x: Seq<i64>, y: Seq<i64>)
    requires
        is_sorted(x),
        is_sorted(y),
        x.to_multiset() == y.to_multiset(),
    ensures
        x == y,
{
    let leq = |a: i64, b: i64| a <= b;
    assert(total_ordering(leq));
    lemma_is_sorted_by_le(x);
    lemma_is_sorted_by_le(y);
    lemma_sorted_unique(x, y, leq);
    assert(x =~= y);
}

/// Appending an element that is at least the last one keeps a sequence
/// non-decreasing.
pub proof fn lemma_push_sorted(s: Seq<i64>, v: i64)
    requires
        is_sorted(s),
        s.len() > 0 ==> s.last() <= v,
    ensures
        is_sorted(s.push(v)),
{
    assert forall|i: int, j: int| 0 <= i <= j < s.push(v).len() implies s.push(v)[i] <= s.push(v)[j] by {
        if j < s.len() {
            assert(s.push(v)[i] == s[i] && s.push(v)[j] == s[j]);
        } else if i < s.len() {
            assert(s[i] <= s.last());
        }
    }
}

/// Prepending an element that is at most the first one keeps a sequence
/// non-decreasing.
pub proof fn lemma_cons_sorted(v: i64, s: Seq<i64>)
    requires
        is_sorted(s),
        s.len() > 0 ==> v <= s.first(),
    ensures
        is_sorted(seq![v] + s),
{
    let r = seq![v] + s;
    assert forall|i: int, j: int| 0 <= i <= j < r.len() implies r[i] <= r[j] by {
        if i == 0 {
            if j > 0 {
                assert(r[j] == s[j - 1]);
                assert(s.first() <= s[j - 1]);
            }
        } else {
            assert(r[i] == s[i - 1] && r[j] == s[j - 1]);
        }
    }
}

} // verus!
