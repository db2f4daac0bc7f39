use numstat::stats::{average, median, modes, range_spread, search, sum};

#[test]
fn average_of_ints() {
    let v: Vec<i64> = vec![1, 2, 3, 4];
    let r = average(&v);
    assert_eq!(r.num, 10);
    assert_eq!(r.den, 4);
    assert_eq!(r.num as f64 / r.den as f64, 2.5);
}

#[test]
fn average_empty_is_zero() {
    let v: Vec<i64> = vec![];
    let r = average(&v);
    assert_eq!(r.num, 0);
    assert_eq!(r.den, 1);
    assert_eq!(r.num as f64 / r.den as f64, 0.0);
}

#[test]
fn average_lies_between_extremes() {
    let v: Vec<i64> = vec![7, -3, 12, 0];
    let r = average(&v);
    let value = r.num as f64 / r.den as f64;
    assert!(-3.0 <= value && value <= 12.0);
}

#[test]
fn median_even_length() {
    let v: Vec<i64> = vec![1, 2, 3, 4];
    let r = median(&v);
    assert_eq!(r.num, 5);
    assert_eq!(r.den, 2);
    assert_eq!(r.num as f64 / r.den as f64, 2.5);
}

#[test]
fn median_odd_length() {
    let v: Vec<i64> = vec![1, 2, 3];
    let r = median(&v);
    assert_eq!(r.num, 2);
    assert_eq!(r.den, 1);
}

#[test]
fn median_unsorted_input() {
    let v: Vec<i64> = vec![9, 1, 5];
    let r = median(&v);
    assert_eq!(r.num, 5);
    assert_eq!(r.den, 1);
}

#[test]
fn median_permutation_invariant() {
    let a: Vec<i64> = vec![9, 1, 4, 4, 7];
    let b: Vec<i64> = vec![4, 7, 9, 1, 4];
    assert_eq!(median(&a), median(&b));
}

#[test]
fn median_empty_is_zero() {
    let v: Vec<i64> = vec![];
    let r = median(&v);
    assert_eq!(r.num, 0);
    assert_eq!(r.den, 1);
}

#[test]
fn range_spread_short_sequences() {
    let empty: Vec<i64> = vec![];
    let single: Vec<i64> = vec![42];
    assert_eq!(range_spread(&empty), 0);
    assert_eq!(range_spread(&single), 0);
}

#[test]
fn range_spread_is_difference_of_extremes() {
    let v: Vec<i64> = vec![3, -2, 10, 5];
    assert_eq!(range_spread(&v), 12);
}

#[test]
fn modes_first_seen_order() {
    let v: Vec<i64> = vec![1, 1, 2, 2, 3];
    assert_eq!(modes(&v), vec![1, 2]);
}

#[test]
fn modes_all_distinct_is_empty() {
    let v: Vec<i64> = vec![5, 3, 9, 1];
    assert_eq!(modes(&v), Vec::<i64>::new());
}

#[test]
fn modes_empty_is_empty() {
    let v: Vec<i64> = vec![];
    assert_eq!(modes(&v), Vec::<i64>::new());
}

#[test]
fn modes_single_winner() {
    let v: Vec<i64> = vec![4, 6, 4, 6, 4];
    assert_eq!(modes(&v), vec![4]);
}

#[test]
fn modes_tie_keeps_first_seen_order() {
    let v: Vec<i64> = vec![3, 1, 3, 1];
    assert_eq!(modes(&v), vec![3, 1]);
}

#[test]
fn median_with_negatives() {
    let v: Vec<i64> = vec![-10, 4, -2, 8];
    let r = median(&v);
    assert_eq!(r.num, 2);
    assert_eq!(r.den, 2);
    assert_eq!(r.num as f64 / r.den as f64, 1.0);
}

#[test]
fn sum_exact() {
    let v: Vec<i64> = vec![2, -5, 7];
    assert_eq!(sum(&v), 4);
    let empty: Vec<i64> = vec![];
    assert_eq!(sum(&empty), 0);
}

#[test]
fn search_finds_values() {
    let v: Vec<i64> = vec![2, -5, 7];
    assert!(search(&v, -5));
    assert!(!search(&v, 3));
}
