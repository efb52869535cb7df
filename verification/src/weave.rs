//! Interleave: strict alternation of two vectors.
//!
//! The output takes one element from each input in turn, starting with the
//! first input, with no ordering assumption. When one input runs out, the
//! output stops: the remainder of the longer input is not drained, so the
//! output always holds exactly twice as many elements as the shorter input.

use vstd::prelude::*;

verus! {

/// The interleaved sequence: heads of both inputs in turn until either
/// input is exhausted; the rest of the longer input is dropped.
pub open spec fn interleave_spec(a: Seq<i64>, b: Seq<i64>) -> Seq<i64>
    decreases a.len(),
{
    if a.len() == 0 || b.len() == 0 {
        Seq::<i64>::empty()
    } else {
        seq![a[0], b[0]] + interleave_spec(a.drop_first(), b.drop_first())
    }
}

/// Alternate the elements of `a` and `b`, one from each in turn, stopping
/// as soon as either side is exhausted.
pub fn interleave(a: &Vec<i64>, b: &Vec<i64>) -> (r: Vec<i64>)
    ensures
        r@ == interleave_spec(a@, b@),
        r@.len() == 2 * (if a@.len() <= b@.len() {
            a@.len()
        } else {
            b@.len()
        }),
{
    proof {
        lemma_interleave_shape(a@, b@);
    }
    let n: usize = if a.len() <= b.len() {
        a.len()
    } else {
        b.len()
    };
    let mut r: Vec<i64> = Vec::new();
    let mut i: usize = 0;
    proof {
        assert(a@.skip(0) =~= a@);
        assert(b@.skip(0) =~= b@);
        assert(r@ + interleave_spec(a@, b@) =~= interleave_spec(a@, b@));
    }
    while i < n
        invariant
            i <= n,
            n <= a.len() && n <= b.len(),
            n == a.len() || n == b.len(),
            interleave_spec(a@, b@) == r@ + interleave_spec(a@.skip(i as int), b@.skip(i as int)),
        decreases n - i,
    {
        let ghost ra = a@.skip(i as int);
        let ghost rb = b@.skip(i as int);
        proof {
            assert(ra[0] == a@[i as int] && rb[0] == b@[i as int]);
            assert(ra.drop_first() =~= a@.skip(i as int + 1));
            assert(rb.drop_first() =~= b@.skip(i as int + 1));
            assert(interleave_spec(ra, rb) == seq![a@[i as int], b@[i as int]] + interleave_spec(
                a@.skip(i as int + 1),
                b@.skip(i as int + 1),
            ));
            assert(r@ + interleave_spec(ra, rb) =~= r@.push(a@[i as int]).push(b@[i as int])
                + interleave_spec(a@.skip(i as int + 1), b@.skip(i as int + 1)));
        }
        r.push(a[i]);
        r.push(b[i]);
        i += 1;
    }
    proof {
        assert(a@.skip(i as int).len() == 0 || b@.skip(i as int).len() == 0);
        assert(r@ + interleave_spec(a@.skip(i as int), b@.skip(i as int)) =~= r@);
    }
    r
}

/// Shape of the interleaved sequence: exactly twice the shorter input's
/// length, in strict first-input, second-input alternation.
pub proof fn lemma_interleave_shape(a: Seq<i64>, b: Seq<i64>)
    ensures
        interleave_spec(a, b).len() == 2 * (if a.len() <= b.len() {
            a.len()
        } else {
            b.len()
        }),
        forall|i: int|
            0 <= i && 2 * i < interleave_spec(a, b).len() ==> interleave_spec(a, b)[2 * i]
                == #[trigger] a[i],
        forall|i: int|
            0 <= i && 2 * i + 1 < interleave_spec(a, b).len() ==> interleave_spec(a, b)[2 * i + 1]
                == #[trigger] b[i],
    decreases a.len(),
{
    if a.len() == 0 || b.len() == 0 {
    } else {
        lemma_interleave_shape(a.drop_first(), b.drop_first());
        let rest = interleave_spec(a.drop_first(), b.drop_first());
        let whole = interleave_spec(a, b);
        assert(whole == seq![a[0], b[0]] + rest);
        assert forall|i: int| 0 <= i && 2 * i < whole.len() implies whole[2 * i] == #[trigger] a[i] by {
            if i > 0 {
                assert(whole[2 * i] == rest[2 * i - 2]);
                assert(rest[2 * (i - 1)] == a.drop_first()[i - 1]);
                assert(a.drop_first()[i - 1] == a[i]);
            }
        }
        assert forall|i: int| 0 <= i && 2 * i + 1 < whole.len() implies whole[2 * i + 1]
            == #[trigger] b[i] by {
            if i > 0 {
                assert(whole[2 * i + 1] == rest[2 * i - 1]);
                assert(rest[2 * (i - 1) + 1] == b.drop_first()[i - 1]);
                assert(b.drop_first()[i - 1] == b[i]);
            }
        }
    }
}

} // verus!
