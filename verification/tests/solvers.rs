//! LU factorization, the iterative solvers and the facade.

use scheesim::fixed::{Fixed, SolveError, SCALE};
use scheesim::iterative::{gauss_jacobi_iterative_solve, gauss_seidel_iterative_solve};
use scheesim::lu::{backward_substitution, forward_substitute, make_eye_matrix,
    produce_list_of_intermittent_0s_and_1s, EliminatorSolver};
use scheesim::solve::LinearSystemSolve;
use scheesim::vector::VectorOps;

const SCALE_F: f64 = 4294967296.0;

fn fx(x: f64) -> Fixed {
    Fixed::from_mantissa((x * SCALE_F).round() as i64)
}

fn fl(f: Fixed) -> f64 {
    f.mantissa() as f64 / SCALE_F
}

fn fxv(xs: &[f64]) -> Vec<Fixed> {
    xs.iter().map(|&x| fx(x)).collect()
}

fn fxm(rows: &[&[f64]]) -> Vec<Vec<Fixed>> {
    rows.iter().map(|r| fxv(r)).collect()
}

fn lu_solve(a: Vec<Vec<Fixed>>, b: Vec<Fixed>) -> Result<Vec<Fixed>, SolveError> {
    let mut solver = EliminatorSolver::new(&a, &b)?;
    solver.factorize_eliminate_solve()
}

#[test]
fn lu_three_by_three() {
    // The exact solution of this system is x = (1, 0, 2); the elimination
    // multipliers and substitutions are all exact in fixed point.
    let a = fxm(&[&[2.0, 1.0, 1.0], &[4.0, 3.0, 3.0], &[8.0, 7.0, 9.0]]);
    let b = fxv(&[4.0, 10.0, 26.0]);
    let x = lu_solve(a.clone(), b.clone()).unwrap();
    assert!((fl(x[0]) - 1.0).abs() < 1e-9);
    assert!((fl(x[1]) - 0.0).abs() < 1e-9);
    assert!((fl(x[2]) - 2.0).abs() < 1e-9);
    // Residual check: ||A x - b||_inf <= 1e-12.
    let ax: Result<Vec<Fixed>, SolveError> = a.dot(&x);
    let ax = ax.unwrap();
    for i in 0..3 {
        assert!((fl(ax[i]) - fl(b[i])).abs() <= 1e-12);
    }
}

#[test]
fn lu_residual_bound() {
    // ||A x - b||_inf <= tau(n) * eps * ||A||_inf * ||x||_inf with
    // tau(n) = 10 n^3 and eps the fixed-point resolution 2^-32.
    let a = fxm(&[&[3.0, 1.0], &[1.0, 2.0]]);
    let b = fxv(&[1.0, 1.0]);
    let x = lu_solve(a.clone(), b.clone()).unwrap();
    let ax: Result<Vec<Fixed>, SolveError> = a.dot(&x);
    let ax = ax.unwrap();
    let mut residual: f64 = 0.0;
    for i in 0..2 {
        residual = residual.max((fl(ax[i]) - fl(b[i])).abs());
    }
    let norm_a: f64 = 4.0;
    let norm_x = fl(x[0]).abs().max(fl(x[1]).abs());
    let eps = 1.0 / SCALE_F;
    let tau = 10.0 * 8.0;
    assert!(residual <= tau * eps * norm_a * norm_x.max(1.0), "residual {residual}");
}

#[test]
fn lu_permutation_two_by_two() {
    // A zero pivot forces a row swap: A = [[0,1],[1,0]], b = [2,3] -> x = [3,2].
    let a = fxm(&[&[0.0, 1.0], &[1.0, 0.0]]);
    let b = fxv(&[2.0, 3.0]);
    let x = lu_solve(a, b).unwrap();
    assert_eq!(fl(x[0]), 3.0);
    assert_eq!(fl(x[1]), 2.0);
}

#[test]
fn lu_singular_detection() {
    let a = fxm(&[&[1.0, 2.0], &[2.0, 4.0]]);
    let b = fxv(&[5.0, 7.0]);
    assert_eq!(lu_solve(a, b), Err(SolveError::Singular));
}

#[test]
fn lu_one_by_one() {
    let x = lu_solve(fxm(&[&[4.0]]), fxv(&[6.0])).unwrap();
    assert_eq!(fl(x[0]), 1.5);
    assert_eq!(
        lu_solve(fxm(&[&[0.0]]), fxv(&[6.0])),
        Err(SolveError::Singular)
    );
}

#[test]
fn lu_triangular_input_leaves_factors_identity() {
    // Already upper-triangular A: U stays A and L stays the identity.
    let a = fxm(&[&[2.0, 3.0, -1.0], &[0.0, 5.0, 4.0], &[0.0, 0.0, 7.0]]);
    let b = fxv(&[1.0, 1.0, 1.0]);
    let mut solver = EliminatorSolver::new(&a, &b).unwrap();
    solver.factorize_eliminate_solve().unwrap();
    for i in 0..3 {
        for j in 0..3 {
            assert_eq!(solver.coeffs[i][j].mantissa(), a[i][j].mantissa());
            let expected_l = if i == j { SCALE } else { 0 };
            assert_eq!(solver.lvals[i][j].mantissa(), expected_l);
            let expected_p = if i == j { SCALE } else { 0 };
            assert_eq!(solver.permutation[i][j].mantissa(), expected_p);
        }
    }
}

#[test]
fn lu_factors_are_triangular() {
    // After factorization the U part is zero below the diagonal and L is
    // unit lower triangular.
    let a = fxm(&[&[2.0, 1.0, 1.0], &[4.0, 3.0, 3.0], &[8.0, 7.0, 9.0]]);
    let b = fxv(&[4.0, 10.0, 26.0]);
    let mut solver = EliminatorSolver::new(&a, &b).unwrap();
    solver.factorize_eliminate_solve().unwrap();
    for i in 0..3 {
        assert_eq!(solver.lvals[i][i].mantissa(), SCALE);
        for j in 0..3 {
            if j < i {
                assert_eq!(solver.coeffs[i][j].mantissa(), 0);
            }
            if j > i {
                assert_eq!(solver.lvals[i][j].mantissa(), 0);
            }
        }
    }
    // The recorded multipliers for this system are 2, 4 and 3.
    assert_eq!(fl(solver.lvals[1][0]), 2.0);
    assert_eq!(fl(solver.lvals[2][0]), 4.0);
    assert_eq!(fl(solver.lvals[2][1]), 3.0);
}

#[test]
fn lu_shape_mismatch() {
    let a = fxm(&[&[1.0, 2.0]]);
    let b = fxv(&[1.0]);
    assert!(matches!(
        EliminatorSolver::new(&a, &b),
        Err(SolveError::ShapeMismatch)
    ));
}

#[test]
fn substitutions_solve_triangular_systems() {
    // Forward: L y = b with unit diagonal; backward: U x = y.
    let l = fxm(&[&[1.0, 0.0], &[0.5, 1.0]]);
    let b = fxv(&[2.0, 3.0]);
    let y = forward_substitute(&l, &b, 2).unwrap();
    assert_eq!(fl(y[0]), 2.0);
    assert_eq!(fl(y[1]), 2.0);
    let u = fxm(&[&[2.0, 1.0], &[0.0, 4.0]]);
    let x = backward_substitution(&u, &y, 2).unwrap();
    assert_eq!(fl(x[1]), 0.5);
    assert_eq!(fl(x[0]), 0.75);
}

#[test]
fn eye_matrix_and_partition_helpers() {
    let eye = make_eye_matrix(2, 3);
    assert_eq!(eye[0][0].mantissa(), SCALE);
    assert_eq!(eye[0][1].mantissa(), 0);
    assert_eq!(eye[1][1].mantissa(), SCALE);
    assert_eq!(eye[1][2].mantissa(), 0);
    let tags = produce_list_of_intermittent_0s_and_1s(5, 0, 1);
    assert_eq!(tags, vec![1, 0, 1, 0, 1]);
}

fn dominant_system() -> (Vec<Vec<Fixed>>, Vec<Fixed>) {
    (
        fxm(&[
            &[10.0, -1.0, 2.0, 0.0],
            &[-1.0, 11.0, -1.0, 3.0],
            &[2.0, -1.0, 10.0, -1.0],
            &[0.0, 3.0, -1.0, 8.0],
        ]),
        fxv(&[6.0, 25.0, -11.0, 15.0]),
    )
}

#[test]
fn jacobi_four_by_four() {
    // Converges to (1, 2, -1, 1) to four decimals within 50 iterations.
    let (a, b) = dominant_system();
    let x0 = fxv(&[0.0, 0.0, 0.0, 0.0]);
    let (x, _iters) =
        gauss_jacobi_iterative_solve(&a, &b, &x0, 50, fx(1e-10), fx(1e-10)).unwrap();
    let expected = [1.0, 2.0, -1.0, 1.0];
    for i in 0..4 {
        assert!((fl(x[i]) - expected[i]).abs() < 1e-4, "x[{i}] = {}", fl(x[i]));
    }
}

#[test]
fn seidel_four_by_four() {
    let (a, b) = dominant_system();
    let x0 = fxv(&[0.0, 0.0, 0.0, 0.0]);
    let (x, _iters) =
        gauss_seidel_iterative_solve(&a, &b, &x0, 50, fx(1e-10), fx(1e-10)).unwrap();
    let expected = [1.0, 2.0, -1.0, 1.0];
    for i in 0..4 {
        assert!((fl(x[i]) - expected[i]).abs() < 1e-4, "x[{i}] = {}", fl(x[i]));
    }
}

#[test]
fn seidel_converges_in_fewer_iterations_than_jacobi() {
    let (a, b) = dominant_system();
    let x0 = fxv(&[0.0, 0.0, 0.0, 0.0]);
    let (_, jac) =
        gauss_jacobi_iterative_solve(&a, &b, &x0, 1000, fx(1e-8), fx(1e-8)).unwrap();
    let (_, sei) =
        gauss_seidel_iterative_solve(&a, &b, &x0, 1000, fx(1e-8), fx(1e-8)).unwrap();
    assert!(sei < jac, "seidel {sei} vs jacobi {jac}");
    assert!(jac < 1000);
}

#[test]
fn jacobi_round_trip() {
    // For a diagonally dominant A and a chosen x, solving A x = b from zero
    // recovers x to 1e-8.
    let (a, _) = dominant_system();
    let x_true = fxv(&[0.5, -0.25, 0.125, 1.0]);
    let b: Result<Vec<Fixed>, SolveError> = a.dot(&x_true);
    let b = b.unwrap();
    let x0 = fxv(&[0.0, 0.0, 0.0, 0.0]);
    let (x, _) =
        gauss_jacobi_iterative_solve(&a, &b, &x0, 1000, fx(1e-10), fx(1e-10)).unwrap();
    for i in 0..4 {
        assert!((fl(x[i]) - fl(x_true[i])).abs() <= 1e-8, "x[{i}] = {}", fl(x[i]));
    }
}

#[test]
fn seidel_round_trip() {
    let (a, _) = dominant_system();
    let x_true = fxv(&[0.5, -0.25, 0.125, 1.0]);
    let b: Result<Vec<Fixed>, SolveError> = a.dot(&x_true);
    let b = b.unwrap();
    let x0 = fxv(&[0.0, 0.0, 0.0, 0.0]);
    let (x, _) =
        gauss_seidel_iterative_solve(&a, &b, &x0, 1000, fx(1e-10), fx(1e-10)).unwrap();
    for i in 0..4 {
        assert!((fl(x[i]) - fl(x_true[i])).abs() <= 1e-8, "x[{i}] = {}", fl(x[i]));
    }
}

#[test]
fn solve_recovers_known_vector_for_every_method() {
    // If solve(S, A, A v) returns x, x agrees with v under the tolerances.
    let (a, _) = dominant_system();
    let v = fxv(&[1.0, -0.5, 0.25, 2.0]);
    let b: Result<Vec<Fixed>, SolveError> = a.dot(&v);
    let b = b.unwrap();
    let x0 = fxv(&[0.0, 0.0, 0.0, 0.0]);
    for method in [
        LinearSystemSolve::LFactorize,
        LinearSystemSolve::GaussJacobi,
        LinearSystemSolve::GaussSeidel,
    ] {
        let x = method
            .solve(&a, &b, Some(&x0), Some(2000), Some(fx(1e-10)), Some(fx(1e-10)))
            .unwrap();
        let ok = scheesim::kernel::is_diagonally_converged(&x, &v, fx(1e-6), fx(1e-6));
        assert_eq!(ok, Ok(true), "method failed to recover v");
    }
}

#[test]
fn facade_missing_parameters() {
    let (a, b) = dominant_system();
    assert_eq!(
        LinearSystemSolve::GaussJacobi.solve(&a, &b, None, Some(10), Some(fx(0.0)), Some(fx(0.0))),
        Err(SolveError::MissingParameter)
    );
    assert_eq!(
        LinearSystemSolve::GaussSeidel.solve(&a, &b, Some(&b), None, Some(fx(0.0)), Some(fx(0.0))),
        Err(SolveError::MissingParameter)
    );
}

#[test]
fn facade_shape_mismatch() {
    let a = fxm(&[&[1.0, 2.0]]);
    let b = fxv(&[1.0]);
    assert_eq!(
        LinearSystemSolve::LFactorize.solve(&a, &b, None, None, None, None),
        Err(SolveError::ShapeMismatch)
    );
}

#[test]
fn facade_shape_mismatch_with_zero_iterations() {
    // A wrong-length right-hand side is a ShapeMismatch even when the
    // iteration cap is zero, for both iterative methods.
    let a = fxm(&[&[4.0, 1.0], &[1.0, 3.0]]);
    let short_b = fxv(&[1.0]);
    let x0 = fxv(&[0.0, 0.0]);
    assert_eq!(
        LinearSystemSolve::GaussJacobi.solve(
            &a,
            &short_b,
            Some(&x0),
            Some(0),
            Some(fx(0.0)),
            Some(fx(0.0))
        ),
        Err(SolveError::ShapeMismatch)
    );
    assert_eq!(
        LinearSystemSolve::GaussSeidel.solve(
            &a,
            &short_b,
            Some(&x0),
            Some(0),
            Some(fx(0.0)),
            Some(fx(0.0))
        ),
        Err(SolveError::ShapeMismatch)
    );
    let short_x0 = fxv(&[0.0]);
    let b = fxv(&[1.0, 1.0]);
    assert_eq!(
        LinearSystemSolve::GaussJacobi.solve(
            &a,
            &b,
            Some(&short_x0),
            Some(0),
            Some(fx(0.0)),
            Some(fx(0.0))
        ),
        Err(SolveError::ShapeMismatch)
    );
}

#[test]
fn facade_lu_ignores_iterative_parameters() {
    let a = fxm(&[&[2.0]]);
    let b = fxv(&[3.0]);
    let x = LinearSystemSolve::LFactorize
        .solve(&a, &b, None, None, None, None)
        .unwrap();
    assert_eq!(fl(x[0]), 1.5);
}

#[test]
fn solver_selection_from_names() {
    assert_eq!(
        LinearSystemSolve::try_from_str("lud"),
        Some(LinearSystemSolve::LFactorize)
    );
    assert_eq!(
        LinearSystemSolve::try_from_str("gauss-jacobi"),
        Some(LinearSystemSolve::GaussJacobi)
    );
    assert_eq!(
        LinearSystemSolve::try_from_str("s"),
        Some(LinearSystemSolve::GaussSeidel)
    );
    assert_eq!(LinearSystemSolve::try_from_str("cholesky"), None);
    assert_eq!(
        LinearSystemSolve::from_str(String::from("gj")),
        LinearSystemSolve::GaussJacobi
    );
    assert_eq!(
        LinearSystemSolve::from_str(String::from("lu_factorise")),
        LinearSystemSolve::LFactorize
    );
}
