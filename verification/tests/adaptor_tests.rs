use seqtools::{all, any, chain, enumerate, fold, join, max, min, rev, sorted, to_decimal, zip};

#[test]
fn enumerate_pairs_with_index() {
    let v: Vec<i64> = vec![7, 8, 9];
    assert_eq!(enumerate(&v), vec![(0usize, 7i64), (1, 8), (2, 9)]);
    let e: Vec<i64> = vec![];
    assert_eq!(enumerate(&e), Vec::<(usize, i64)>::new());
}

#[test]
fn rev_reverses() {
    let v: Vec<i64> = vec![1, 2, 3];
    assert_eq!(rev(&v), vec![3, 2, 1]);
    let e: Vec<i64> = vec![];
    assert_eq!(rev(&e), Vec::<i64>::new());
}

#[test]
fn zip_stops_at_shorter() {
    let a: Vec<i64> = vec![1, 2, 3, 4, 5];
    let b: Vec<i64> = vec![2, 3, 4, 5];
    assert_eq!(zip(&a, &b), vec![(1i64, 2i64), (2, 3), (3, 4), (4, 5)]);
}

#[test]
fn chain_concatenates() {
    let a: Vec<i64> = vec![1, 2, 3];
    let b: Vec<i64> = vec![4];
    assert_eq!(chain(&a, &b), vec![1, 2, 3, 4]);
}

#[test]
fn fold_sums() {
    let v: Vec<i64> = vec![1, 2, 3, 4];
    assert_eq!(fold(&v, 0i64, |acc: i64, x: i64| acc + x), 10);
    let e: Vec<i64> = vec![];
    assert_eq!(fold(&e, 5i64, |acc: i64, x: i64| acc + x), 5);
}

#[test]
fn all_holds_for_all() {
    let v: Vec<i64> = vec![1, 2, 3];
    assert!(all(&v, |x: i64| x > 0));
    assert!(!all(&v, |x: i64| x > 1));
    let e: Vec<i64> = vec![];
    assert!(all(&e, |x: i64| x > 100));
}

#[test]
fn any_holds_for_some() {
    let v: Vec<i64> = vec![0, -1, 2];
    assert!(any(&v, |x: i64| x > 0));
    assert!(!any(&v, |x: i64| x > 5));
    let e: Vec<i64> = vec![];
    assert!(!any(&e, |x: i64| x > 0));
}

#[test]
fn max_and_min() {
    let v: Vec<i64> = (0..10).collect();
    assert_eq!(max(&v), Some(9));
    assert_eq!(min(&v), Some(0));
    let w: Vec<i64> = vec![-7, 3, -7, 3];
    assert_eq!(max(&w), Some(3));
    assert_eq!(min(&w), Some(-7));
    let e: Vec<i64> = vec![];
    assert_eq!(max(&e), None);
    assert_eq!(min(&e), None);
}

#[test]
fn join_example() {
    let v: Vec<i64> = vec![1, 2, 3];
    assert_eq!(join(&v, ", "), "1, 2, 3".to_string());
    let e: Vec<i64> = vec![];
    assert_eq!(join(&e, ", "), String::new());
}

#[test]
fn join_negative_and_zero() {
    let v: Vec<i64> = vec![-1, 0, 42];
    assert_eq!(join(&v, ","), "-1,0,42".to_string());
    let one: Vec<i64> = vec![-305];
    assert_eq!(join(&one, ", "), "-305".to_string());
}

#[test]
fn to_decimal_extremes() {
    assert_eq!(to_decimal(0), "0".to_string());
    assert_eq!(to_decimal(i64::MAX), "9223372036854775807".to_string());
    assert_eq!(to_decimal(i64::MIN), "-9223372036854775808".to_string());
}

#[test]
fn sorted_ascending() {
    let v: Vec<i64> = vec![3, 1, 2, 1];
    assert_eq!(sorted(&v), vec![1, 1, 2, 3]);
    let e: Vec<i64> = vec![];
    assert_eq!(sorted(&e), Vec::<i64>::new());
}

#[test]
fn sorted_twice_is_sorted_once() {
    let v: Vec<i64> = vec![5, -2, 9, -2, 0];
    let once = sorted(&v);
    let twice = sorted(&once);
    assert_eq!(twice, once);
}
