use seqtools::{interleave, kmerge, merge, sorted};

#[test]
fn merge_example() {
    let a: Vec<i64> = vec![1, 3, 5];
    let b: Vec<i64> = vec![2, 3, 4];
    assert_eq!(merge(&a, &b), vec![1, 2, 3, 3, 4, 5]);
}

#[test]
fn merge_sorted_union() {
    let a: Vec<i64> = vec![-4, 0, 0, 7];
    let b: Vec<i64> = vec![-5, 0, 3];
    let r = merge(&a, &b);
    assert_eq!(r.len(), a.len() + b.len());
    for w in r.windows(2) {
        assert!(w[0] <= w[1]);
    }
    let mut both: Vec<i64> = a.clone();
    both.extend_from_slice(&b);
    assert_eq!(r, sorted(&both));
}

#[test]
fn merge_equal_keys() {
    let a: Vec<i64> = vec![3];
    let b: Vec<i64> = vec![3];
    assert_eq!(merge(&a, &b), vec![3, 3]);
    let c: Vec<i64> = vec![1, 2];
    let d: Vec<i64> = vec![2, 3];
    assert_eq!(merge(&c, &d), vec![1, 2, 2, 3]);
}

#[test]
fn merge_with_empty_side() {
    let a: Vec<i64> = vec![];
    let b: Vec<i64> = vec![1, 2];
    assert_eq!(merge(&a, &b), vec![1, 2]);
    assert_eq!(merge(&b, &a), vec![1, 2]);
    assert_eq!(merge(&a, &a), Vec::<i64>::new());
}

#[test]
fn kmerge_example() {
    let vs: Vec<Vec<i64>> = vec![vec![0, 2, 4], vec![1, 3, 5], vec![6, 7]];
    assert_eq!(kmerge(&vs), vec![0, 1, 2, 3, 4, 5, 6, 7]);
}

#[test]
fn kmerge_no_sources() {
    let vs: Vec<Vec<i64>> = vec![];
    assert_eq!(kmerge(&vs), Vec::<i64>::new());
}

#[test]
fn kmerge_single_source() {
    let vs: Vec<Vec<i64>> = vec![vec![5, 7, 7, 9]];
    assert_eq!(kmerge(&vs), vec![5, 7, 7, 9]);
}

#[test]
fn kmerge_empty_sources_skipped() {
    let vs: Vec<Vec<i64>> = vec![vec![], vec![1, 2], vec![], vec![2]];
    assert_eq!(kmerge(&vs), vec![1, 2, 2]);
}

#[test]
fn kmerge_matches_repeated_merge() {
    let vs: Vec<Vec<i64>> = vec![vec![-3, 4], vec![-9, -3, 11], vec![0]];
    let mut acc: Vec<i64> = Vec::new();
    for v in &vs {
        acc = merge(&acc, v);
    }
    assert_eq!(kmerge(&vs), acc);
}

#[test]
fn interleave_example() {
    let a: Vec<i64> = vec![1, 2, 3];
    let b: Vec<i64> = vec![2, 3, 4];
    assert_eq!(interleave(&a, &b), vec![1, 2, 2, 3, 3, 4]);
}

#[test]
fn interleave_stops_at_shorter() {
    let a: Vec<i64> = vec![1, 2];
    let b: Vec<i64> = vec![1];
    assert_eq!(interleave(&a, &b), vec![1, 1]);
    assert_eq!(interleave(&b, &a), vec![1, 1]);
    let empty: Vec<i64> = vec![];
    assert_eq!(interleave(&a, &empty), Vec::<i64>::new());
}

#[test]
fn interleave_equal_lengths_alternates() {
    let a: Vec<i64> = vec![10, 20, 30];
    let b: Vec<i64> = vec![-1, -2, -3];
    let r = interleave(&a, &b);
    assert_eq!(r.len(), 2 * a.len());
    for i in 0..a.len() {
        assert_eq!(r[2 * i], a[i]);
        assert_eq!(r[2 * i + 1], b[i]);
    }
}
