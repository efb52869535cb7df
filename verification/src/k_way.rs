//! K-way merge of any number of non-decreasing vectors.
//!
//! One pending position is kept per source. Each step scans the pending
//! heads, emits the globally smallest one — the source with the lowest
//! index on equal keys, a deterministic tie-break — and advances that
//! source. The output is done when every source is exhausted; with no
//! sources at all it is empty at once, and a source that is itself empty
//! never contributes a pending head.

use vstd::prelude::*;
use vstd::multiset::Multiset;
use vstd::multiset::lemma_multiset_empty_len;
use vstd::multiset::group_multiset_axioms;
use vstd::seq_lib::lemma_multiset_commutative;
use vstd::seq_lib::group_to_multiset_ensures;
use crate::order::{is_sorted, lemma_push_sorted};

verus! {

/// Every sequence of the collection is non-decreasing.
pub open spec fn all_sorted(vss: Seq<Seq<i64>>) -> bool {
    forall|q: int| 0 <= q < vss.len() ==> is_sorted(#[trigger] vss[q])
}

/// The multiset union of the elements of all sequences of the collection.
pub open spec fn total_multiset(vss: Seq<Seq<i64>>) -> Multiset<i64>
    decreases vss.len(),
{
    if vss.len() == 0 {
        Multiset::<i64>::empty()
    } else {
        vss[0].to_multiset().add(total_multiset(vss.drop_first()))
    }
}

/// The number of elements over all sequences of the collection.
pub open spec fn total_len(vss: Seq<Seq<i64>>) -> nat
    decreases vss.len(),
{
    if vss.len() == 0 {
        0
    } else {
        vss[0].len() + total_len(vss.drop_first())
    }
}

/// What is still pending: for each source `q`, its elements from position
/// `idx[q]` on.
spec fn rem_multiset(vss: Seq<Seq<i64>>, idx: Seq<usize>) -> Multiset<i64>
    decreases vss.len(),
{
    if vss.len() == 0 {
        Multiset::<i64>::empty()
    } else {
        vss[0].skip(idx[0] as int).to_multiset().add(
            rem_multiset(vss.drop_first(), idx.drop_first()),
        )
    }
}

/// The empty sequence holds the empty multiset.
proof fn lemma_empty_to_multiset()
    ensures
        Seq::<i64>::empty().to_multiset() == Multiset::<i64>::empty(),
{
    broadcast use group_to_multiset_ensures;
    broadcast use lemma_multiset_empty_len;

    assert(Seq::<i64>::empty().to_multiset().len() == 0);
    assert(Seq::<i64>::empty().to_multiset() =~= Multiset::<i64>::empty());
}

/// Stepping one position into a sequence takes exactly that element out of
/// the multiset of its remainder.
proof fn lemma_skip_step(s: Seq<i64>, i: int)
    requires
        0 <= i < s.len(),
    ensures
        s.skip(i).to_multiset() == s.skip(i + 1).to_multiset().insert(s[i]),
{
    broadcast use group_to_multiset_ensures;
    broadcast use group_multiset_axioms;

    assert(s.skip(i) =~= seq![s[i]] + s.skip(i + 1));
    lemma_multiset_commutative(seq![s[i]], s.skip(i + 1));
    assert(seq![s[i]] =~= Seq::<i64>::empty().push(s[i]));
    lemma_empty_to_multiset();
    assert(seq![s[i]].to_multiset() =~= Multiset::<i64>::empty().insert(s[i]));
    assert(s.skip(i).to_multiset() =~= s.skip(i + 1).to_multiset().insert(s[i]));
}

/// With every index at zero, everything is still pending.
proof fn lemma_rem_initial(vss: Seq<Seq<i64>>, idx: Seq<usize>)
    requires
        idx.len() == vss.len(),
        forall|q: int| 0 <= q < idx.len() ==> idx[q] == 0,
    ensures
        rem_multiset(vss, idx) == total_multiset(vss),
    decreases vss.len(),
{
    if vss.len() == 0 {
    } else {
        assert(vss[0].skip(idx[0] as int) =~= vss[0]);
        assert(forall|q: int| 0 <= q < idx.drop_first().len() ==> idx.drop_first()[q] == idx[q + 1]);
        lemma_rem_initial(vss.drop_first(), idx.drop_first());
    }
}

/// With every index at its sequence's length, nothing is pending.
proof fn lemma_rem_exhausted(vss: Seq<Seq<i64>>, idx: Seq<usize>)
    requires
        idx.len() == vss.len(),
        forall|q: int| 0 <= q < vss.len() ==> idx[q] == vss[q].len(),
    ensures
        rem_multiset(vss, idx) == Multiset::<i64>::empty(),
    decreases vss.len(),
{
    broadcast use group_multiset_axioms;

    if vss.len() == 0 {
    } else {
        assert(vss[0].skip(idx[0] as int) =~= Seq::<i64>::empty());
        lemma_empty_to_multiset();
        assert(forall|q: int|
            0 <= q < vss.drop_first().len() ==> idx.drop_first()[q] == idx[q + 1]
                && vss.drop_first()[q] == vss[q + 1]);
        lemma_rem_exhausted(vss.drop_first(), idx.drop_first());
        assert(rem_multiset(vss, idx) =~= Multiset::<i64>::empty());
    }
}

/// Advancing source `j` by one position takes exactly its pending head out
/// of the pending multiset.
proof fn lemma_rem_update(vss: Seq<Seq<i64>>, idx: Seq<usize>, j: int, ni: usize)
    requires
        idx.len() == vss.len(),
        0 <= j < vss.len(),
        (idx[j] as int) < vss[j].len(),
        ni == idx[j] + 1,
    ensures
        rem_multiset(vss, idx) == rem_multiset(vss, idx.update(j, ni)).insert(
            vss[j][idx[j] as int],
        ),
    decreases vss.len(),
{
    broadcast use group_multiset_axioms;

    let idx2 = idx.update(j, ni);
    if j == 0 {
        lemma_skip_step(vss[0], idx[0] as int);
        assert(idx2.drop_first() =~= idx.drop_first());
        assert(idx2[0] == idx[0] + 1);
        assert(rem_multiset(vss, idx) =~= rem_multiset(vss, idx2).insert(vss[0][idx[0] as int]));
    } else {
        let dv = vss.drop_first();
        let di = idx.drop_first();
        assert(dv[j - 1] == vss[j] && di[j - 1] == idx[j]);
        lemma_rem_update(dv, di, j - 1, ni);
        assert(idx2.drop_first() =~= di.update(j - 1, ni));
        assert(idx2[0] == idx[0]);
        assert(rem_multiset(vss, idx) =~= rem_multiset(vss, idx2).insert(vss[j][idx[j] as int]));
    }
}

/// The multiset of the whole collection holds as many elements as the
/// collection does.
pub proof fn lemma_total_multiset_len(vss: Seq<Seq<i64>>)
    ensures
        total_multiset(vss).len() == total_len(vss),
    decreases vss.len(),
{
    broadcast use group_to_multiset_ensures;
    broadcast use group_multiset_axioms;

    if vss.len() == 0 {
        assert(total_multiset(vss).len() == 0);
    } else {
        lemma_total_multiset_len(vss.drop_first());
    }
}

/// The views of the vectors a vector of vectors holds.
proof fn lemma_deep_view(vs: &Vec<Vec<i64>>)
    ensures
        vs.deep_view().len() == vs@.len(),
        forall|q: int| 0 <= q < vs@.len() ==> vs.deep_view()[q] == vs@[q]@,
{
    assert forall|q: int| 0 <= q < vs@.len() implies vs.deep_view()[q] == vs@[q]@ by {
        assert(vs@[q].deep_view() =~= vs@[q]@);
    }
}

/// Merge any number of vectors, each assumed non-decreasing, into one
/// non-decreasing vector that holds exactly the elements of all of them.
///
/// No input vectors yield an empty result; a single input vector comes back
/// as it is (`lemma_kmerge_single`).
pub fn kmerge(vs: &Vec<Vec<i64>>) -> (r: Vec<i64>)
    requires
        all_sorted(vs.deep_view()),
    ensures
        is_sorted(r@),
        r@.to_multiset() == total_multiset(vs.deep_view()),
        r@.len() == total_len(vs.deep_view()),
{
    broadcast use group_to_multiset_ensures;
    broadcast use group_multiset_axioms;

    let ghost vss = vs.deep_view();
    proof {
        lemma_deep_view(vs);
    }
    let k = vs.len();
    let mut idx: Vec<usize> = Vec::new();
    while idx.len() < k
        invariant
            idx@.len() <= k,
            forall|q: int| 0 <= q < idx@.len() ==> idx@[q] == 0,
        decreases k - idx@.len(),
    {
        idx.push(0);
    }
    let mut out: Vec<i64> = Vec::new();
    proof {
        lemma_rem_initial(vss, idx@);
        lemma_empty_to_multiset();
        assert(out@.to_multiset().add(rem_multiset(vss, idx@)) =~= total_multiset(vss));
        lemma_total_multiset_len(vss);
    }
    loop
        invariant
            k == vs@.len(),
            vss == vs.deep_view(),
            vss.len() == k,
            all_sorted(vss),
            forall|q: int| 0 <= q < k ==> vss[q] == vs@[q]@,
            idx@.len() == k,
            forall|q: int| 0 <= q < k ==> idx@[q] <= vss[q].len(),
            is_sorted(out@),
            out@.to_multiset().add(rem_multiset(vss, idx@)) == total_multiset(vss),
            forall|q: int|
                0 <= q < k && (idx@[q] as int) < vss[q].len() && out@.len() > 0 ==> out@.last()
                    <= vss[q][idx@[q] as int],
        ensures
            is_sorted(out@),
            out@.to_multiset() == total_multiset(vss),
        decreases total_multiset(vss).len() - out@.len(),
    {
        let mut best: usize = k;
        let mut q: usize = 0;
        while q < k
            invariant
                q <= k,
                k == vs@.len(),
                vss.len() == k,
                forall|t: int| 0 <= t < k ==> vss[t] == vs@[t]@,
                idx@.len() == k,
                forall|t: int| 0 <= t < k ==> idx@[t] <= vss[t].len(),
                best == k || (best < q && (idx@[best as int] as int) < vss[best as int].len()),
                best == k ==> forall|t: int| 0 <= t < q ==> (idx@[t] as int) >= vss[t].len(),
                best < k ==> forall|t: int|
                    0 <= t < q && (idx@[t] as int) < vss[t].len()
                        ==> vss[best as int][idx@[best as int] as int] <= vss[t][idx@[t] as int],
            decreases k - q,
        {
            if idx[q] < vs[q].len() {
                if best == k || vs[q][idx[q]] < vs[best][idx[best]] {
                    best = q;
                }
            }
            q += 1;
        }
        if best == k {
            proof {
                broadcast use group_multiset_axioms;

                assert(forall|t: int| 0 <= t < k ==> idx@[t] == vss[t].len());
                lemma_rem_exhausted(vss, idx@);
                assert(out@.to_multiset() =~= total_multiset(vss));
            }
            break;
        }
        let ci = idx[best];
        let lb = vs[best].len();
        let e = vs[best][ci];
        proof {
            assert(ci < lb);
        }
        let ni = ci + 1;
        let ghost old_out = out@;
        let ghost old_idx = idx@;
        proof {
            lemma_rem_update(vss, old_idx, best as int, ni);
            lemma_push_sorted(old_out, e);
        }
        out.push(e);
        idx.set(best, ni);
        proof {
            broadcast use group_to_multiset_ensures;
            broadcast use group_multiset_axioms;

            assert(idx@ =~= old_idx.update(best as int, ni));
            assert(out@.to_multiset() =~= old_out.to_multiset().insert(e));
            assert(out@.to_multiset().add(rem_multiset(vss, idx@)) =~= old_out.to_multiset().add(
                rem_multiset(vss, old_idx),
            ));
            assert forall|t: int|
                0 <= t < k && (idx@[t] as int) < vss[t].len() && out@.len() > 0 implies out@.last()
                <= vss[t][idx@[t] as int] by {
                if t == best as int {
                    assert(is_sorted(vss[t]));
                    assert(vss[t][old_idx[t] as int] <= vss[t][idx@[t] as int]);
                } else {
                    assert(vss[best as int][old_idx[best as int] as int] <= vss[t][idx@[t] as int]);
                }
            }
            assert(rem_multiset(vss, old_idx).len() == rem_multiset(vss, idx@).len() + 1);
            assert(out@.len() + rem_multiset(vss, idx@).len() == total_multiset(vss).len());
        }
    }
    proof {
        broadcast use group_to_multiset_ensures;

        lemma_total_multiset_len(vss);
        assert(out@.len() == out@.to_multiset().len());
    }
    out
}

/// Merging a single non-decreasing sequence yields that sequence itself:
/// its multiset is the whole collection's, and a non-decreasing sequence
/// with that multiset is unique.
pub proof fn lemma_kmerge_single(a: Seq<i64>, r: Seq<i64>)
    requires
        is_sorted(a),
        is_sorted(r),
        r.to_multiset() == total_multiset(seq![a]),
    ensures
        r == a,
{
    broadcast use group_multiset_axioms;

    assert(seq![a].drop_first() =~= Seq::<Seq<i64>>::empty());
    assert(total_multiset(Seq::<Seq<i64>>::empty()) == Multiset::<i64>::empty());
    assert(total_multiset(seq![a]) =~= a.to_multiset());
    crate::order::lemma_sorted_multiset_unique(r, a);
}

/// Merging no sequences at all yields the empty sequence.
pub proof fn lemma_kmerge_empty(r: Seq<i64>)
    requires
        r.to_multiset() == total_multiset(Seq::<Seq<i64>>::empty()),
    ensures
        r == Seq::<i64>::empty(),
{
    broadcast use group_to_multiset_ensures;
    broadcast use lemma_multiset_empty_len;

    assert(r.to_multiset().len() == 0);
    assert(r =~= Seq::<i64>::empty());
}

} // verus!
