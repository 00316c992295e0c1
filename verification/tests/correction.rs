use aberth::correction::{aberth_sum, sweep};
use num_complex::Complex64;

fn gather(acc: Complex64, at: Complex64, other: Complex64) -> Complex64 {
    acc + 1.0 / (at - other)
}

fn reals(values: &[f64]) -> Vec<Complex64> {
    values.iter().map(|&v| Complex64::new(v, 0.0)).collect()
}

#[test]
fn aberth_sum_leaves_out_its_own_position() {
    let xs = reals(&[1.0, 2.0, 5.0]);
    let zero = Complex64::new(0.0, 0.0);
    assert_eq!(aberth_sum(&xs, 0, zero, &gather), Complex64::new(-1.0 + -0.25, 0.0));
    assert_eq!(aberth_sum(&xs, 1, zero, &gather), Complex64::new(1.0 + 1.0 / -3.0, 0.0));
    assert_eq!(aberth_sum(&xs, 2, zero, &gather), Complex64::new(0.25 + 1.0 / 3.0, 0.0));
}

#[test]
fn aberth_sum_of_a_single_estimate_is_the_start() {
    let xs = reals(&[3.0]);
    let zero = Complex64::new(0.0, 0.0);
    assert_eq!(aberth_sum(&xs, 0, zero, &gather), zero);
    let marked = Complex64::new(8.0, -8.0);
    assert_eq!(aberth_sum(&xs, 0, marked, &gather), marked);
}

#[test]
fn aberth_sum_goes_in_ascending_position() {
    let seen = aberth_sum(&vec![1i64, 2, 3, 4], 2, 0, &|acc: i64, at: i64, other: i64| {
        acc * 100 + at * 10 + other
    });
    assert_eq!(seen, 313234);
}

#[test]
fn aberth_sum_does_not_skip_an_equal_estimate_elsewhere() {
    let xs = reals(&[2.0, 2.0]);
    let sum = aberth_sum(&xs, 0, Complex64::new(0.0, 0.0), &gather);
    assert!(!sum.is_finite());
}

fn horner(acc: Complex64, x: Complex64, a: Complex64) -> Complex64 {
    acc * x + a
}

fn correct(value: Complex64, by: Complex64, others: Complex64) -> Complex64 {
    let ratio = value / by;
    ratio / (1.0 - ratio * others)
}

#[test]
fn sweep_hands_each_position_its_value_slope_and_sum() {
    let out = sweep(
        &vec![1i64, 2, 3],
        &vec![2i64, 6],
        &vec![1i64, 2],
        0,
        &|acc: i64, x: i64, a: i64| acc * x + a,
        &|acc: i64, at: i64, other: i64| acc + (at - other),
        &|value: i64, by: i64, others: i64| value * 10000 + by * 100 + others,
    );
    assert_eq!(out.slopes, vec![8, 14]);
    assert_eq!(out.corrections, vec![60799, 171401]);
}

#[test]
fn sweep_of_no_estimates_is_empty() {
    let out = sweep(
        &vec![1i64, 2],
        &vec![2i64],
        &Vec::<i64>::new(),
        0,
        &|acc: i64, x: i64, a: i64| acc * x + a,
        &|acc: i64, at: i64, other: i64| acc + (at - other),
        &|value: i64, _by: i64, _others: i64| value,
    );
    assert!(out.slopes.is_empty());
    assert!(out.corrections.is_empty());
}

#[test]
fn sweep_corrects_towards_the_roots_of_a_quadratic() {
    let coeffs = reals(&[2.0, -3.0, 1.0]);
    let slope = reals(&[-3.0, 2.0]);
    let xs = reals(&[0.0, 4.0]);
    let out = sweep(&coeffs, &slope, &xs, Complex64::new(0.0, 0.0), &horner, &gather, &correct);
    assert_eq!(out.slopes, reals(&[-3.0, 5.0]));
    let first = (2.0 / -3.0) / (1.0 - (2.0 / -3.0) * (1.0 / -4.0));
    let second = (6.0 / 5.0) / (1.0 - (6.0 / 5.0) * (1.0 / 4.0));
    assert!((out.corrections[0] - Complex64::new(first, 0.0)).norm() <= 1.0e-15);
    assert!((out.corrections[1] - Complex64::new(second, 0.0)).norm() <= 1.0e-15);
}
