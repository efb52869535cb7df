//! Eager sorting: materialize the input in ascending order.
//!
//! The sort is built on the two-way merge: the output is grown by merging
//! one further element at a time, so its contract comes straight from the
//! merge laws — the result is non-decreasing and holds exactly the input's
//! multiset of elements. Those two clauses pin the result down completely,
//! which is what the round-trip law below rests on.

use vstd::prelude::*;
use vstd::multiset::Multiset;
use vstd::multiset::group_multiset_axioms;
use vstd::multiset::lemma_multiset_empty_len;
use vstd::seq_lib::group_to_multiset_ensures;
use crate::order::{is_sorted, lemma_sorted_multiset_unique};
use crate::two_way::{merge, lemma_merge_multiset, lemma_merge_sorted};

verus! {

/// Collect the elements into a non-decreasing vector.
pub fn sorted(v: &Vec<i64>) -> (r: Vec<i64>)
    ensures
        is_sorted(r@),
        r@.to_multiset() == v@.to_multiset(),
        r@.len() == v@.len(),
{
    let mut r: Vec<i64> = Vec::new();
    let mut i: usize = 0;
    proof {
        broadcast use group_to_multiset_ensures;
        broadcast use lemma_multiset_empty_len;

        assert(v@.take(0) =~= Seq::<i64>::empty());
        assert(r@.to_multiset().len() == 0);
        assert(r@.to_multiset() =~= v@.take(0).to_multiset());
    }
    while i < v.len()
        invariant
            i <= v@.len(),
            is_sorted(r@),
            r@.to_multiset() == v@.take(i as int).to_multiset(),
        decreases v@.len() - i,
    {
        let mut single: Vec<i64> = Vec::new();
        single.push(v[i]);
        let ghost old_r = r@;
        r = merge(&r, &single);
        proof {
            broadcast use group_to_multiset_ensures;
            broadcast use group_multiset_axioms;
            broadcast use lemma_multiset_empty_len;

            assert(single@ =~= Seq::<i64>::empty().push(v@[i as int]));
            assert(is_sorted(single@));
            lemma_merge_sorted(old_r, single@);
            lemma_merge_multiset(old_r, single@);
            assert(single@.to_multiset() =~= Multiset::<i64>::empty().insert(v@[i as int]));
            assert(v@.take(i as int + 1) =~= v@.take(i as int).push(v@[i as int]));
            assert(r@.to_multiset() =~= v@.take(i as int + 1).to_multiset());
        }
        i += 1;
    }
    proof {
        broadcast use group_to_multiset_ensures;

        assert(v@.take(v@.len() as int) =~= v@);
        assert(r@.len() == r@.to_multiset().len());
        assert(v@.len() == v@.to_multiset().len());
    }
    r
}

/// Round trip: sorting leaves nothing more to sort. Any two outcomes that
/// meet `sorted`'s contract — the second applied to the first's result —
/// are the same sequence, so applying the sort twice yields exactly what
/// applying it once does.
pub proof fn lemma_sorted_round_trip(once: Seq<i64>, twice: Seq<i64>)
    requires
        is_sorted(once),
        is_sorted(twice),
        twice.to_multiset() == once.to_multiset(),
    ensures
        twice == once,
{
    lemma_sorted_multiset_unique(twice, once);
}

} // verus!
