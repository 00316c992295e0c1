use aberth::error::SolveError;
use aberth::poly::{derivative, eval, first_nonzero, inspect, map_with, zip_with, Shape};
use aberth::scalar::Complex;
use num_complex::Complex64;

fn encode_all(values: &[f64]) -> Vec<Complex> {
    values.iter().map(|v| Complex::new(v.to_bits(), 0.0f64.to_bits())).collect()
}

fn reals(values: &[f64]) -> Vec<Complex64> {
    values.iter().map(|&v| Complex64::new(v, 0.0)).collect()
}

fn horner(acc: Complex64, x: Complex64, a: Complex64) -> Complex64 {
    acc * x + a
}

fn scale(n: usize, a: &Complex64) -> Complex64 {
    (n as f64) * a
}

#[test]
fn inspect_rejects_all_zero_coefficients() {
    assert_eq!(inspect(&encode_all(&[0.0, 0.0, 0.0])), Err(SolveError::DegenerateInput));
    assert_eq!(inspect(&encode_all(&[-0.0, 0.0])), Err(SolveError::DegenerateInput));
}

#[test]
fn inspect_rejects_degree_zero() {
    assert_eq!(inspect(&encode_all(&[])), Err(SolveError::DegenerateInput));
    assert_eq!(inspect(&encode_all(&[3.0])), Err(SolveError::DegenerateInput));
}

#[test]
fn inspect_reads_degree_and_pivot() {
    assert_eq!(inspect(&encode_all(&[-6.0, 11.0, -6.0, 1.0])), Ok(Shape { degree: 3, pivot: 0 }));
    assert_eq!(inspect(&encode_all(&[0.0, 0.0, 1.0])), Ok(Shape { degree: 2, pivot: 2 }));
    assert_eq!(inspect(&encode_all(&[0.0, 4.0, 0.0, 0.0])), Ok(Shape { degree: 3, pivot: 1 }));
    let imaginary = vec![Complex::new(0, 0), Complex::new(0, 1.0f64.to_bits())];
    assert_eq!(inspect(&imaginary), Ok(Shape { degree: 1, pivot: 1 }));
}

#[test]
fn first_nonzero_finds_the_lowest_index() {
    assert_eq!(first_nonzero(&encode_all(&[])), None);
    assert_eq!(first_nonzero(&encode_all(&[0.0, -0.0])), None);
    assert_eq!(first_nonzero(&encode_all(&[0.0, 2.0, 3.0])), Some(1));
    assert_eq!(first_nonzero(&encode_all(&[5.0])), Some(0));
    assert_eq!(first_nonzero(&encode_all(&[f64::NAN, 1.0])), Some(0));
}

#[test]
fn derivative_scales_each_coefficient_by_its_power() {
    let p = vec![
        Complex64::new(7.0, -1.0),
        Complex64::new(0.5, 2.0),
        Complex64::new(-3.0, 0.25),
        Complex64::new(0.1, 0.0),
        Complex64::new(1.0, 1.0),
    ];
    let d = derivative(&p, &scale);
    assert_eq!(
        d,
        vec![
            Complex64::new(0.5, 2.0),
            Complex64::new(-6.0, 0.5),
            Complex64::new(3.0 * 0.1, 0.0),
            Complex64::new(4.0, 4.0),
        ]
    );
}

#[test]
fn derivative_of_the_cubic() {
    let d = derivative(&reals(&[-6.0, 11.0, -6.0, 1.0]), &scale);
    assert_eq!(d, reals(&[11.0, -12.0, 3.0]));
}

#[test]
fn derivative_of_a_constant_is_empty() {
    assert_eq!(derivative(&reals(&[4.0]), &scale), Vec::<Complex64>::new());
    assert_eq!(derivative(&reals(&[]), &scale), Vec::<Complex64>::new());
}

#[test]
fn derivative_works_over_integers() {
    let d = derivative(&vec![9i64, 8, 7, 6], &|n: usize, a: &i64| n as i64 * *a);
    assert_eq!(d, vec![8, 14, 18]);
}

#[test]
fn eval_of_a_constant_is_the_constant_exactly() {
    let c = Complex64::new(0.1, -0.3);
    let points = [
        Complex64::new(0.0, 0.0),
        Complex64::new(1.0e300, -1.0e300),
        Complex64::new(f64::INFINITY, 0.0),
        Complex64::new(f64::NAN, f64::NAN),
        Complex64::new(-2.0, 5.0),
    ];
    for x in points {
        let value = eval(&vec![c], x, &horner);
        assert_eq!(value.re.to_bits(), c.re.to_bits());
        assert_eq!(value.im.to_bits(), c.im.to_bits());
    }
}

#[test]
fn eval_of_the_cubic_on_exact_values() {
    let p = reals(&[-6.0, 11.0, -6.0, 1.0]);
    assert_eq!(eval(&p, Complex64::new(1.0, 0.0), &horner), Complex64::new(0.0, 0.0));
    assert_eq!(eval(&p, Complex64::new(2.0, 0.0), &horner), Complex64::new(0.0, 0.0));
    assert_eq!(eval(&p, Complex64::new(3.0, 0.0), &horner), Complex64::new(0.0, 0.0));
    assert_eq!(eval(&p, Complex64::new(0.0, 0.0), &horner), Complex64::new(-6.0, 0.0));
    assert_eq!(eval(&p, Complex64::new(4.0, 0.0), &horner), Complex64::new(6.0, 0.0));
    assert_eq!(eval(&p, Complex64::new(0.0, 1.0), &horner), Complex64::new(0.0, 10.0));
}

#[test]
fn eval_goes_from_the_leading_coefficient_down() {
    let steps = eval(&vec![1i64, 2, 3], 10, &|acc: i64, x: i64, a: i64| acc * x + a);
    assert_eq!(steps, 321);
    let order = eval(&vec![1i64, 2, 3], 0, &|acc: i64, _x: i64, a: i64| acc * 10 + a);
    assert_eq!(order, 321);
}

#[test]
fn eval_of_x_squared_plus_one_at_i() {
    let p = reals(&[1.0, 0.0, 1.0]);
    assert_eq!(eval(&p, Complex64::new(0.0, 1.0), &horner), Complex64::new(0.0, 0.0));
    assert_eq!(eval(&p, Complex64::new(0.0, -1.0), &horner), Complex64::new(0.0, 0.0));
}

#[test]
fn zip_with_combines_entry_by_entry() {
    let left = reals(&[5.0, 7.0, 9.0]);
    let right = reals(&[1.0, 2.5, -3.0]);
    let out = zip_with(&left, &right, &|a: Complex64, b: Complex64| a - b);
    assert_eq!(out, reals(&[4.0, 4.5, 12.0]));
    let none = zip_with(&Vec::<i64>::new(), &Vec::<i64>::new(), &|a: i64, b: i64| a - b);
    assert!(none.is_empty());
}

#[test]
fn map_with_converts_entry_by_entry() {
    let bits = map_with(&vec![1.0f64, -0.0, 2.5], &|x: f64| x.to_bits());
    assert_eq!(bits, vec![0x3FF0_0000_0000_0000, 0x8000_0000_0000_0000, 0x4004_0000_0000_0000]);
    let none = map_with(&Vec::<i64>::new(), &|x: i64| x + 1);
    assert!(none.is_empty());
}
