//! Scalar arithmetic, vector kernel, convergence test and damping.

use scheesim::fixed::{fx_add, fx_div, fx_mul, fx_rem, fx_sub, Fixed, SolveError};
use scheesim::kernel::is_diagonally_converged;
use scheesim::vector::{Convergent, Dampen, DiagFlat, PushAndSwapRemove, VectorOps};

const SCALE_F: f64 = 4294967296.0;

fn fx(x: f64) -> Fixed {
    Fixed::from_mantissa((x * SCALE_F).round() as i64)
}

fn fl(f: Fixed) -> f64 {
    f.mantissa() as f64 / SCALE_F
}

fn fxv(xs: &[f64]) -> Vec<Fixed> {
    xs.iter().map(|&x| fx(x)).collect()
}

#[test]
fn scalar_ops_exact() {
    assert_eq!(fl(fx_add(fx(1.5), fx(2.25)).unwrap()), 3.75);
    assert_eq!(fl(fx_sub(fx(1.5), fx(2.25)).unwrap()), -0.75);
    assert_eq!(fl(fx_mul(fx(1.5), fx(2.0)).unwrap()), 3.0);
    assert_eq!(fl(fx_div(fx(3.0), fx(2.0)).unwrap()), 1.5);
    assert_eq!(fl(fx_rem(fx(3.5), fx(2.0)).unwrap()), 1.5);
}

#[test]
fn scalar_ops_signs() {
    assert_eq!(fl(fx_mul(fx(-1.5), fx(2.0)).unwrap()), -3.0);
    assert_eq!(fl(fx_div(fx(-3.0), fx(2.0)).unwrap()), -1.5);
    assert_eq!(fl(fx_rem(fx(-3.5), fx(2.0)).unwrap()), -1.5);
}

#[test]
fn scalar_overflow_is_non_finite() {
    let big = Fixed::from_mantissa(i64::MAX);
    assert_eq!(fx_add(big, Fixed::one()), Err(SolveError::NonFiniteResult));
    assert_eq!(fx_mul(big, big), Err(SolveError::NonFiniteResult));
}

#[test]
fn division_by_zero_is_non_finite() {
    assert_eq!(fx_div(fx(1.0), fx(0.0)), Err(SolveError::NonFiniteResult));
    assert_eq!(fx_rem(fx(1.0), fx(0.0)), Err(SolveError::NonFiniteResult));
}

#[test]
fn dot_product_accumulates_left_to_right() {
    let a = fxv(&[1.0, 2.0, 3.0]);
    let b = fxv(&[4.0, 5.0, 6.0]);
    let d: Result<Fixed, SolveError> = a.dot(&b);
    assert_eq!(fl(d.unwrap()), 32.0);
}

#[test]
fn vector_ops_shape_mismatch() {
    let a = fxv(&[1.0, 2.0]);
    let b = fxv(&[1.0]);
    let d: Result<Fixed, SolveError> = a.dot(&b);
    assert_eq!(d, Err(SolveError::ShapeMismatch));
}

#[test]
fn elementwise_vector_ops() {
    let a = fxv(&[1.0, 2.0]);
    let b = fxv(&[0.5, 4.0]);
    let s: Result<Vec<Fixed>, SolveError> = a.sub(&b);
    let s = s.unwrap();
    assert_eq!(fl(s[0]), 0.5);
    assert_eq!(fl(s[1]), -2.0);
    let q: Result<Vec<Fixed>, SolveError> = a.div(&b);
    let q = q.unwrap();
    assert_eq!(fl(q[0]), 2.0);
    assert_eq!(fl(q[1]), 0.5);
}

#[test]
fn scalar_broadcast_ops() {
    let a = fxv(&[1.0, -2.0]);
    let r: Result<Vec<Fixed>, SolveError> = a.mul(&fx(2.0));
    let r = r.unwrap();
    assert_eq!(fl(r[0]), 2.0);
    assert_eq!(fl(r[1]), -4.0);
}

#[test]
fn matrix_vector_product() {
    let m = vec![fxv(&[1.0, 2.0]), fxv(&[3.0, 4.0])];
    let x = fxv(&[1.0, 1.0]);
    let r: Result<Vec<Fixed>, SolveError> = m.dot(&x);
    let r = r.unwrap();
    assert_eq!(fl(r[0]), 3.0);
    assert_eq!(fl(r[1]), 7.0);
}

#[test]
fn matrix_elementwise_sub() {
    let a = vec![fxv(&[1.0, 2.0]), fxv(&[3.0, 4.0])];
    let b = vec![fxv(&[1.0, 0.0]), fxv(&[0.0, 4.0])];
    let r: Result<Vec<Vec<Fixed>>, SolveError> = a.sub(&b);
    let r = r.unwrap();
    assert_eq!(fl(r[0][0]), 0.0);
    assert_eq!(fl(r[0][1]), 2.0);
    assert_eq!(fl(r[1][0]), 3.0);
    assert_eq!(fl(r[1][1]), 0.0);
}

#[test]
fn diag_and_diag_flat() {
    let m = vec![fxv(&[5.0, 1.0]), fxv(&[2.0, 7.0])];
    let d = m.diag().unwrap();
    assert_eq!(fl(d[0]), 5.0);
    assert_eq!(fl(d[1]), 7.0);
    let df = m.diag_flat().unwrap();
    assert_eq!(fl(df[0][0]), 5.0);
    assert_eq!(fl(df[0][1]), 0.0);
    assert_eq!(fl(df[1][0]), 0.0);
    assert_eq!(fl(df[1][1]), 7.0);
}

#[test]
fn diag_requires_square() {
    let m = vec![fxv(&[1.0, 2.0])];
    assert_eq!(m.diag(), Err(SolveError::ShapeMismatch));
}

#[test]
fn is_diagonal_checks_small_diagonal() {
    let m = vec![fxv(&[0.001, 9.0]), fxv(&[9.0, -0.001])];
    assert_eq!(m.is_diagonal(fx(0.01)), Ok(true));
    assert_eq!(m.is_diagonal(fx(0.0001)), Ok(false));
}

#[test]
fn push_and_swap_remove_replaces_slot() {
    let mut v = fxv(&[1.0, 2.0, 3.0]);
    v.push_and_swap_remove(0, fx(9.0));
    assert_eq!(fl(v[0]), 9.0);
    assert_eq!(fl(v[1]), 2.0);
    assert_eq!(fl(v[2]), 3.0);
    assert_eq!(v.len(), 3);
}

#[test]
fn convergence_is_reflexive() {
    // Any finite vector agrees with itself under nonnegative tolerances.
    let v = fxv(&[1.0, -2.5, 1000.0]);
    assert_eq!(
        is_diagonally_converged(&v, &v, fx(0.0), fx(0.0)),
        Ok(true)
    );
    assert_eq!(v.is_convergent(&v, fx(1e-6), fx(1e-6)), Ok(true));
}

#[test]
fn convergence_detects_disagreement() {
    let a = fxv(&[1.0, 2.0]);
    let b = fxv(&[1.0, 2.5]);
    assert_eq!(is_diagonally_converged(&a, &b, fx(0.0), fx(0.1)), Ok(false));
    assert_eq!(is_diagonally_converged(&a, &b, fx(0.0), fx(0.6)), Ok(true));
    assert_eq!(is_diagonally_converged(&a, &b, fx(0.3), fx(0.0)), Ok(true));
}

#[test]
fn convergence_shape_mismatch() {
    let a = fxv(&[1.0]);
    let b = fxv(&[1.0, 2.0]);
    assert_eq!(
        is_diagonally_converged(&a, &b, fx(0.0), fx(0.0)),
        Err(SolveError::ShapeMismatch)
    );
}

#[test]
fn dampen_of_zero_is_zero() {
    // dampen(0, alpha, k) == 0 for every alpha and every k >= 1.
    for &alpha in &[0.25, 1.0, 3.0] {
        for k in 1..6usize {
            let r = fx(0.0).dampen_ln(fx(alpha), k).unwrap();
            assert_eq!(r.mantissa(), 0);
        }
    }
}

#[test]
fn dampen_keeps_sign() {
    for &x in &[0.001, 0.5, 2.0, 100.0] {
        for k in 1..5usize {
            let p = fx(x).dampen_ln(fx(1.0), k).unwrap();
            assert!(p.mantissa() > 0);
            let nm = fx(-x).dampen_ln(fx(1.0), k).unwrap();
            assert!(nm.mantissa() < 0);
        }
    }
}

#[test]
fn dampen_known_values() {
    // dampen(1, 1, 1) = ln 2; dampen(-1, 1, 1) = -ln 2;
    // dampen(3, 2, 2) = (2/2) * ln(1 + 2*3) = ln 7.
    let ln2 = 0.6931471805599453;
    let ln7 = 1.9459101090932196;
    let a = fl(fx(1.0).dampen_ln(fx(1.0), 1).unwrap());
    assert!((a - ln2).abs() < 1e-4, "got {a}");
    let b = fl(fx(-1.0).dampen_ln(fx(1.0), 1).unwrap());
    assert!((b + ln2).abs() < 1e-4, "got {b}");
    let c = fl(fx(3.0).dampen_ln(fx(2.0), 2).unwrap());
    assert!((c - ln7).abs() < 1e-4, "got {c}");
}

#[test]
fn dampen_vector_elementwise() {
    let v = fxv(&[0.0, 1.0, -1.0]);
    let r = v.dampen_ln(fx(1.0), 1).unwrap();
    assert_eq!(r[0].mantissa(), 0);
    assert!((fl(r[1]) - 0.6931).abs() < 1e-3);
    assert!((fl(r[2]) + 0.6931).abs() < 1e-3);
}

#[test]
fn dampen_of_iteration_zero_fails() {
    assert_eq!(fx(1.0).dampen_ln(fx(1.0), 0), Err(SolveError::NonFiniteResult));
}

#[test]
fn matrix_row_pair_dot() {
    let a = vec![fxv(&[1.0, 2.0]), fxv(&[3.0, 4.0])];
    let b = vec![fxv(&[5.0, 6.0]), fxv(&[7.0, 8.0])];
    let r: Result<Vec<Fixed>, SolveError> = a.dot(&b);
    let r = r.unwrap();
    assert_eq!(fl(r[0]), 17.0);
    assert_eq!(fl(r[1]), 53.0);
}

#[test]
fn scalar_left_broadcast() {
    let v = fxv(&[1.0, 4.0]);
    let r: Result<Vec<Fixed>, SolveError> = fx(8.0).div(&v);
    let r = r.unwrap();
    assert_eq!(fl(r[0]), 8.0);
    assert_eq!(fl(r[1]), 2.0);
    let s: Result<Vec<Fixed>, SolveError> = fx(1.0).sub(&v);
    let s = s.unwrap();
    assert_eq!(fl(s[0]), 0.0);
    assert_eq!(fl(s[1]), -3.0);
}
