//! Direct, no-decision adaptors: running-index pairing, reversal,
//! lock-step pairing, concatenation, left fold, predicate tests, and
//! extremal elements. Each is a single pass over its input with a contract
//! that pins the result down.

use vstd::prelude::*;

verus! {

/// Pair each element with its running index, starting at zero.
pub fn enumerate<T: Copy>(v: &Vec<T>) -> (r: Vec<(usize, T)>)
    ensures
        r@.len() == v@.len(),
        forall|i: int| 0 <= i < v@.len() ==> (#[trigger] r@[i]).0 == i && r@[i].1 == v@[i],
{
    let mut r: Vec<(usize, T)> = Vec::new();
    let mut i: usize = 0;
    while i < v.len()
        invariant
            i <= v@.len(),
            r@.len() == i,
            forall|t: int| 0 <= t < i ==> (#[trigger] r@[t]).0 == t && r@[t].1 == v@[t],
        decreases v@.len() - i,
    {
        r.push((i, v[i]));
        proof {
            assert(r@[i as int].0 == i as int && r@[i as int].1 == v@[i as int]);
        }
        i += 1;
    }
    r
}

/// The elements in the opposite order.
pub fn rev<T: Copy>(v: &Vec<T>) -> (r: Vec<T>)
    ensures
        r@ == v@.reverse(),
{
    let mut r: Vec<T> = Vec::new();
    let mut i: usize = v.len();
    while i > 0
        invariant
            i <= v@.len(),
            r@.len() == v@.len() - i,
            forall|t: int| 0 <= t < r@.len() ==> r@[t] == v@[v@.len() - 1 - t],
        decreases i,
    {
        i -= 1;
        r.push(v[i]);
    }
    proof {
        assert(r@ =~= v@.reverse());
    }
    r
}

/// Pair the two inputs in lock step, stopping at the shorter one.
pub fn zip<A: Copy, B: Copy>(a: &Vec<A>, b: &Vec<B>) -> (r: Vec<(A, B)>)
    ensures
        r@.len() == if a@.len() <= b@.len() {
            a@.len()
        } else {
            b@.len()
        },
        forall|i: int| 0 <= i < r@.len() ==> r@[i].0 == a@[i] && r@[i].1 == b@[i],
{
    let n: usize = if a.len() <= b.len() {
        a.len()
    } else {
        b.len()
    };
    let mut r: Vec<(A, B)> = Vec::new();
    let mut i: usize = 0;
    while i < n
        invariant
            i <= n,
            n <= a@.len() && n <= b@.len(),
            r@.len() == i,
            forall|t: int| 0 <= t < i ==> r@[t].0 == a@[t] && r@[t].1 == b@[t],
        decreases n - i,
    {
        r.push((a[i], b[i]));
        i += 1;
    }
    r
}

/// All of the first input, then all of the second.
pub fn chain<T: Copy>(a: &Vec<T>, b: &Vec<T>) -> (r: Vec<T>)
    ensures
        r@ == a@ + b@,
{
    let mut r: Vec<T> = Vec::new();
    let mut i: usize = 0;
    while i < a.len()
        invariant
            i <= a@.len(),
            r@ == a@.take(i as int),
        decreases a@.len() - i,
    {
        proof {
            assert(a@.take(i as int + 1) =~= a@.take(i as int).push(a@[i as int]));
        }
        r.push(a[i]);
        i += 1;
    }
    let mut j: usize = 0;
    while j < b.len()
        invariant
            j <= b@.len(),
            r@ == a@ + b@.take(j as int),
        decreases b@.len() - j,
    {
        proof {
            assert(a@ + b@.take(j as int + 1) =~= (a@ + b@.take(j as int)).push(b@[j as int]));
        }
        r.push(b[j]);
        j += 1;
    }
    proof {
        assert(a@.take(a@.len() as int) =~= a@);
        assert(b@.take(b@.len() as int) =~= b@);
    }
    r
}

/// Left fold: feed the elements to `f` in order, threading the accumulator
/// through, and return the final accumulator. The chain of intermediate
/// accumulators witnesses that every step was one permitted call of `f`.
pub fn fold<B, F: Fn(B, i64) -> B>(v: &Vec<i64>, init: B, f: F) -> (r: B)
    requires
        forall|acc: B, x: i64| call_requires(f, (acc, x)),
    ensures
        exists|mids: Seq<B>|
            {
                &&& mids.len() == v@.len() + 1
                &&& mids[0] == init
                &&& mids[v@.len() as int] == r
                &&& forall|i: int|
                    0 <= i < v@.len() ==> call_ensures(f, (mids[i], v@[i]), #[trigger] mids[i + 1])
            },
{
    let ghost init0 = init;
    let mut acc = init;
    let ghost mut mids: Seq<B> = seq![init0];
    let mut i: usize = 0;
    while i < v.len()
        invariant
            i <= v@.len(),
            forall|a: B, x: i64| call_requires(f, (a, x)),
            mids.len() == i + 1,
            mids[0] == init0,
            mids[i as int] == acc,
            forall|t: int| 0 <= t < i ==> call_ensures(f, (mids[t], v@[t]), #[trigger] mids[t + 1]),
        decreases v@.len() - i,
    {
        acc = f(acc, v[i]);
        proof {
            mids = mids.push(acc);
        }
        i += 1;
    }
    proof {
        assert({
            &&& mids.len() == v@.len() + 1
            &&& mids[0] == init0
            &&& mids[v@.len() as int] == acc
            &&& forall|t: int|
                0 <= t < v@.len() ==> call_ensures(f, (mids[t], v@[t]), #[trigger] mids[t + 1])
        });
    }
    acc
}

/// Whether `f` holds of every element; stops at the first failing one.
pub fn all<F: Fn(i64) -> bool>(v: &Vec<i64>, f: F) -> (r: bool)
    requires
        forall|i: int| 0 <= i < v@.len() ==> call_requires(f, (#[trigger] v@[i],)),
    ensures
        r ==> forall|i: int| 0 <= i < v@.len() ==> call_ensures(f, (#[trigger] v@[i],), true),
        !r ==> exists|i: int| 0 <= i < v@.len() && call_ensures(f, (#[trigger] v@[i],), false),
{
    let mut i: usize = 0;
    while i < v.len()
        invariant
            i <= v@.len(),
            forall|t: int| 0 <= t < v@.len() ==> call_requires(f, (#[trigger] v@[t],)),
            forall|t: int| 0 <= t < i ==> call_ensures(f, (#[trigger] v@[t],), true),
        decreases v@.len() - i,
    {
        if !f(v[i]) {
            assert(call_ensures(f, (v@[i as int],), false));
            return false;
        }
        i += 1;
    }
    true
}

/// Whether `f` holds of some element; stops at the first succeeding one.
pub fn any<F: Fn(i64) -> bool>(v: &Vec<i64>, f: F) -> (r: bool)
    requires
        forall|i: int| 0 <= i < v@.len() ==> call_requires(f, (#[trigger] v@[i],)),
    ensures
        r ==> exists|i: int| 0 <= i < v@.len() && call_ensures(f, (#[trigger] v@[i],), true),
        !r ==> forall|i: int| 0 <= i < v@.len() ==> call_ensures(f, (#[trigger] v@[i],), false),
{
    let mut i: usize = 0;
    while i < v.len()
        invariant
            i <= v@.len(),
            forall|t: int| 0 <= t < v@.len() ==> call_requires(f, (#[trigger] v@[t],)),
            forall|t: int| 0 <= t < i ==> call_ensures(f, (#[trigger] v@[t],), false),
        decreases v@.len() - i,
    {
        if f(v[i]) {
            assert(call_ensures(f, (v@[i as int],), true));
            return true;
        }
        i += 1;
    }
    false
}

/// The greatest element of a non-empty prefix, the last one on ties.
pub open spec fn seq_max(s: Seq<i64>) -> i64
    recommends
        s.len() > 0,
    decreases s.len(),
{
    if s.len() <= 1 {
        s[0]
    } else if s.last() >= seq_max(s.drop_last()) {
        s.last()
    } else {
        seq_max(s.drop_last())
    }
}

/// The least element of a non-empty prefix, the last one on ties.
pub open spec fn seq_min(s: Seq<i64>) -> i64
    recommends
        s.len() > 0,
    decreases s.len(),
{
    if s.len() <= 1 {
        s[0]
    } else if s.last() <= seq_min(s.drop_last()) {
        s.last()
    } else {
        seq_min(s.drop_last())
    }
}

/// The maximum element, or nothing when the input is empty.
pub fn max(v: &Vec<i64>) -> (r: Option<i64>)
    ensures
        r == if v@.len() == 0 {
            Option::<i64>::None
        } else {
            Option::<i64>::Some(seq_max(v@))
        },
{
    if v.len() == 0 {
        return None;
    }
    let mut m = v[0];
    let mut i: usize = 1;
    proof {
        assert(v@.take(1).len() == 1 && v@.take(1)[0] == v@[0]);
    }
    while i < v.len()
        invariant
            1 <= i <= v@.len(),
            m == seq_max(v@.take(i as int)),
        decreases v@.len() - i,
    {
        proof {
            assert(v@.take(i as int + 1).drop_last() =~= v@.take(i as int));
            assert(v@.take(i as int + 1).last() == v@[i as int]);
        }
        if v[i] >= m {
            m = v[i];
        }
        i += 1;
    }
    proof {
        assert(v@.take(v@.len() as int) =~= v@);
    }
    Some(m)
}

/// The minimum element, or nothing when the input is empty.
pub fn min(v: &Vec<i64>) -> (r: Option<i64>)
    ensures
        r == if v@.len() == 0 {
            Option::<i64>::None
        } else {
            Option::<i64>::Some(seq_min(v@))
        },
{
    if v.len() == 0 {
        return None;
    }
    let mut m = v[0];
    let mut i: usize = 1;
    proof {
        assert(v@.take(1).len() == 1 && v@.take(1)[0] == v@[0]);
    }
    while i < v.len()
        invariant
            1 <= i <= v@.len(),
            m == seq_min(v@.take(i as int)),
        decreases v@.len() - i,
    {
        proof {
            assert(v@.take(i as int + 1).drop_last() =~= v@.take(i as int));
            assert(v@.take(i as int + 1).last() == v@[i as int]);
        }
        if v[i] <= m {
            m = v[i];
        }
        i += 1;
    }
    proof {
        assert(v@.take(v@.len() as int) =~= v@);
    }
    Some(m)
}

/// `seq_max` is an element of the sequence and bounds every element.
pub proof fn lemma_seq_max_is_greatest(s: Seq<i64>)
    requires
        s.len() > 0,
    ensures
        s.contains(seq_max(s)),
        forall|i: int| 0 <= i < s.len() ==> s[i] <= seq_max(s),
    decreases s.len(),
{
    if s.len() == 1 {
        assert(s[0] == seq_max(s));
    } else {
        lemma_seq_max_is_greatest(s.drop_last());
        assert forall|i: int| 0 <= i < s.len() implies s[i] <= seq_max(s) by {
            if i < s.len() - 1 {
                assert(s.drop_last()[i] == s[i]);
            }
        }
        if seq_max(s) == s.last() {
            assert(s[s.len() - 1] == seq_max(s));
        } else {
            let j = choose|j: int| 0 <= j < s.drop_last().len() && s.drop_last()[j] == seq_max(
                s.drop_last(),
            );
            assert(s[j] == seq_max(s));
        }
    }
}

/// `seq_min` is an element of the sequence and is bounded by every element.
pub proof fn lemma_seq_min_is_least(s: Seq<i64>)
    requires
        s.len() > 0,
    ensures
        s.contains(seq_min(s)),
        forall|i: int| 0 <= i < s.len() ==> seq_min(s) <= s[i],
    decreases s.len(),
{
    if s.len() == 1 {
        assert(s[0] == seq_min(s));
    } else {
        lemma_seq_min_is_least(s.drop_last());
        assert forall|i: int| 0 <= i < s.len() implies seq_min(s) <= s[i] by {
            if i < s.len() - 1 {
                assert(s.drop_last()[i] == s[i]);
            }
        }
        if seq_min(s) == s.last() {
            assert(s[s.len() - 1] == seq_min(s));
        } else {
            let j = choose|j: int| 0 <= j < s.drop_last().len() && s.drop_last()[j] == seq_min(
                s.drop_last(),
            );
            assert(s[j] == seq_min(s));
        }
    }
}

} // verus!
