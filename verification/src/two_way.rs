//! Two-way merge of non-decreasing vectors.
//!
//! The merge keeps one pending element per input; at each step it emits the
//! pending element whose key is not greater, preferring the left input when
//! the keys compare equal, so the merge is stable with respect to input
//! order. Inputs are never validated: the output is always exactly
//! [`merge_spec`] of the inputs, and the ordering and multiset laws below
//! say what that means when the inputs are in fact non-decreasing.

use vstd::prelude::*;
use vstd::multiset::Multiset;
use vstd::seq_lib::lemma_multiset_commutative;
use vstd::seq_lib::group_to_multiset_ensures;
use crate::order::{is_sorted, lemma_cons_sorted};

verus! {

/// The merged sequence: at each step the head that is not greater is taken,
/// the left head when the two compare equal.
pub open spec fn merge_spec(a: Seq<i64>, b: Seq<i64>) -> Seq<i64>
    decreases a.len() + b.len(),
{
    if a.len() == 0 {
        b
    } else if b.len() == 0 {
        a
    } else if a[0] <= b[0] {
        seq![a[0]] + merge_spec(a.drop_first(), b)
    } else {
        seq![b[0]] + merge_spec(a, b.drop_first())
    }
}

/// Merge two vectors, each assumed non-decreasing, into one vector.
///
/// The result is exactly `merge_spec` of the two inputs, whatever they hold;
/// when both inputs are non-decreasing, `lemma_merge_sorted` and
/// `lemma_merge_multiset` say that the result is their non-decreasing
/// multiset union.
pub fn merge(a: &Vec<i64>, b: &Vec<i64>) -> (r: Vec<i64>)
    ensures
        r@ == merge_spec(a@, b@),
        r@.to_multiset() == a@.to_multiset().add(b@.to_multiset()),
        r@.len() == a@.len() + b@.len(),
        is_sorted(a@) && is_sorted(b@) ==> is_sorted(r@),
{
    proof {
        lemma_merge_multiset(a@, b@);
        if is_sorted(a@) && is_sorted(b@) {
            lemma_merge_sorted(a@, b@);
        }
    }
    let mut r: Vec<i64> = Vec::new();
    let mut i: usize = 0;
    let mut j: usize = 0;
    proof {
        assert(a@.skip(0) =~= a@);
        assert(b@.skip(0) =~= b@);
        assert(r@ + merge_spec(a@, b@) =~= merge_spec(a@, b@));
    }
    while i < a.len() || j < b.len()
        invariant
            i <= a.len(),
            j <= b.len(),
            merge_spec(a@, b@) == r@ + merge_spec(a@.skip(i as int), b@.skip(j as int)),
        decreases a@.len() + b@.len() - i - j,
    {
        let ghost ra = a@.skip(i as int);
        let ghost rb = b@.skip(j as int);
        if j == b.len() || (i < a.len() && a[i] <= b[j]) {
            proof {
                assert(ra.drop_first() =~= a@.skip(i as int + 1));
                if j == b.len() {
                    assert(rb =~= Seq::<i64>::empty());
                    assert(ra =~= seq![a@[i as int]] + a@.skip(i as int + 1));
                } else {
                    assert(ra[0] == a@[i as int] && rb[0] == b@[j as int]);
                }
                assert(merge_spec(ra, rb) == seq![a@[i as int]] + merge_spec(
                    a@.skip(i as int + 1),
                    rb,
                ));
                assert(r@ + merge_spec(ra, rb) =~= r@.push(a@[i as int]) + merge_spec(
                    a@.skip(i as int + 1),
                    rb,
                ));
            }
            r.push(a[i]);
            i += 1;
        } else {
            proof {
                assert(rb.drop_first() =~= b@.skip(j as int + 1));
                if i < a.len() {
                    assert(ra[0] == a@[i as int]);
                } else {
                    assert(ra =~= Seq::<i64>::empty());
                }
                assert(rb[0] == b@[j as int]);
                assert(merge_spec(ra, rb) == seq![b@[j as int]] + merge_spec(
                    ra,
                    b@.skip(j as int + 1),
                ));
                assert(r@ + merge_spec(ra, rb) =~= r@.push(b@[j as int]) + merge_spec(
                    ra,
                    b@.skip(j as int + 1),
                ));
            }
            r.push(b[j]);
            j += 1;
        }
    }
    proof {
        assert(a@.skip(i as int) =~= Seq::<i64>::empty());
        assert(b@.skip(j as int) =~= Seq::<i64>::empty());
        assert(r@ + merge_spec(a@.skip(i as int), b@.skip(j as int)) =~= r@);
    }
    r
}

/// The merged sequence holds exactly the elements of both inputs: its
/// multiset is the union of theirs, and its length is the sum of theirs.
/// No ordering assumption is needed.
pub proof fn lemma_merge_multiset(a: Seq<i64>, b: Seq<i64>)
    ensures
        merge_spec(a, b).to_multiset() == a.to_multiset().add(b.to_multiset()),
        merge_spec(a, b).len() == a.len() + b.len(),
    decreases a.len() + b.len(),
{
    broadcast use group_to_multiset_ensures;
    broadcast use vstd::multiset::group_multiset_axioms;
    broadcast use vstd::multiset::lemma_multiset_empty_len;

    if a.len() == 0 {
        assert(a.to_multiset().len() == 0);
        assert(a.to_multiset() =~= Multiset::<i64>::empty());
        assert(merge_spec(a, b).to_multiset() =~= a.to_multiset().add(b.to_multiset()));
    } else if b.len() == 0 {
        assert(b.to_multiset().len() == 0);
        assert(b.to_multiset() =~= Multiset::<i64>::empty());
        assert(merge_spec(a, b).to_multiset() =~= a.to_multiset().add(b.to_multiset()));
    } else if a[0] <= b[0] {
        lemma_merge_multiset(a.drop_first(), b);
        assert(a =~= seq![a[0]] + a.drop_first());
        lemma_multiset_commutative(seq![a[0]], a.drop_first());
        lemma_multiset_commutative(seq![a[0]], merge_spec(a.drop_first(), b));
        assert(merge_spec(a, b).to_multiset() =~= a.to_multiset().add(b.to_multiset()));
    } else {
        lemma_merge_multiset(a, b.drop_first());
        assert(b =~= seq![b[0]] + b.drop_first());
        lemma_multiset_commutative(seq![b[0]], b.drop_first());
        lemma_multiset_commutative(seq![b[0]], merge_spec(a, b.drop_first()));
        assert(merge_spec(a, b).to_multiset() =~= a.to_multiset().add(b.to_multiset()));
    }
}

/// Merging two non-decreasing sequences yields a non-decreasing sequence.
pub proof fn lemma_merge_sorted(a: Seq<i64>, b: Seq<i64>)
    requires
        is_sorted(a),
        is_sorted(b),
    ensures
        is_sorted(merge_spec(a, b)),
    decreases a.len() + b.len(),
{
    if a.len() == 0 || b.len() == 0 {
    } else if a[0] <= b[0] {
        assert(is_sorted(a.drop_first())) by {
            assert(forall|i: int, j: int|
                0 <= i <= j < a.drop_first().len() ==> a.drop_first()[i] == a[i + 1]
                    && a.drop_first()[j] == a[j + 1]);
        }
        lemma_merge_sorted(a.drop_first(), b);
        let rest = merge_spec(a.drop_first(), b);
        assert(rest.len() > 0 ==> a[0] <= rest.first()) by {
            if a.drop_first().len() == 0 {
                assert(rest == b);
                assert(a[0] <= b[0]);
            } else if a.drop_first()[0] <= b[0] {
                assert(rest.first() == a.drop_first()[0]);
                assert(a.drop_first()[0] == a[1]);
                assert(a[0] <= a[1]);
            } else {
                assert(rest.first() == b[0]);
            }
        }
        lemma_cons_sorted(a[0], rest);
    } else {
        assert(is_sorted(b.drop_first())) by {
            assert(forall|i: int, j: int|
                0 <= i <= j < b.drop_first().len() ==> b.drop_first()[i] == b[i + 1]
                    && b.drop_first()[j] == b[j + 1]);
        }
        lemma_merge_sorted(a, b.drop_first());
        let rest = merge_spec(a, b.drop_first());
        assert(rest.len() > 0 ==> b[0] <= rest.first()) by {
            if b.drop_first().len() == 0 {
                assert(rest == a);
                assert(b[0] <= a[0]);
            } else if a[0] <= b.drop_first()[0] {
                assert(rest.first() == a[0]);
            } else {
                assert(rest.first() == b.drop_first()[0]);
                assert(b.drop_first()[0] == b[1]);
                assert(b[0] <= b[1]);
            }
        }
        lemma_cons_sorted(b[0], rest);
    }
}

/// Stability of the tie-break: whenever the two pending head elements
/// compare equal, the merge emits the left input's element first and only
/// then goes on with the rest of the left input. Every step of the merge
/// is the merge of two suffixes of the inputs, so applying this to those
/// suffixes gives the law at every comparison point of the run.
pub proof fn lemma_merge_stability(a: Seq<i64>, b: Seq<i64>)
    requires
        a.len() > 0,
        b.len() > 0,
        a[0] == b[0],
    ensures
        merge_spec(a, b) == seq![a[0]] + merge_spec(a.drop_first(), b),
        merge_spec(a, b).first() == a[0],
{
    assert(merge_spec(a, b) == seq![a[0]] + merge_spec(a.drop_first(), b));
    assert((seq![a[0]] + merge_spec(a.drop_first(), b)).first() == a[0]);
}

} // verus!
