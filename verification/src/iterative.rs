//! Gauss-Jacobi and Gauss-Seidel iteration to a convergence tolerance or an
//! iteration cap.
//!
//! Each solver is pinned to a spec-level recursion over iterations that says
//! exactly which vector and which iteration count come back, and which error
//! is reported on which inputs.  Convergence is guaranteed by the caller's
//! choice of matrix (diagonal dominance), never assumed here.

use vstd::prelude::*;

use crate::fixed::{Fixed, FxOp, SolveError};
use crate::kernel::{diag_flat_result, diag_result, is_converged, is_diagonally_converged, mat_diag,
    mat_diag_flat, mat_row_acc, mat_row_acc_result, mat_vals, mat_zip, mat_zip_result, vals,
    vec_zip, zip_result};
use crate::lu::{acc_from, acc_from_ok, clone_row, dot_range};

verus! {

/// A solver result paired with the number of iterations it took.
pub open spec fn add_iters(
    r: Result<(Seq<int>, int), SolveError>,
    k: int,
) -> Result<(Seq<int>, int), SolveError> {
    match r {
        Ok(s) => Ok((s.0, s.1 + k)),
        Err(e) => Err(e),
    }
}

/// Adding zero iterations changes nothing.
pub proof fn lemma_add_iters_zero(r: Result<(Seq<int>, int), SolveError>)
    ensures
        add_iters(r, 0) == r,
{
    match r {
        Ok(s) => {
            assert(add_iters(r, 0) == Ok::<(Seq<int>, int), SolveError>((s.0, s.1 + 0)));
            assert((s.0, s.1 + 0) == s);
        },
        Err(_) => {},
    }
}

/// Iteration counts added in two steps add up.
pub proof fn lemma_add_iters_compose(r: Result<(Seq<int>, int), SolveError>, a: int, b: int)
    ensures
        add_iters(add_iters(r, a), b) == add_iters(r, a + b),
{
}

// ---------------------------------------------------------------------------
// Gauss-Jacobi.
// ---------------------------------------------------------------------------

/// One Jacobi update `x' = (b - (A - D) x) / d`, elementwise over the
/// diagonal `d` and the hollow matrix `m = A - D`.
pub open spec fn gj_step(m: Seq<Seq<int>>, d: Seq<int>, b: Seq<int>, x: Seq<int>) -> Result<
    Seq<int>,
    SolveError,
> {
    match mat_row_acc_result(FxOp::Mul, m, x) {
        Err(e) => Err(e),
        Ok(t) => match zip_result(FxOp::Sub, b, t) {
            Err(e) => Err(e),
            Ok(u) => zip_result(FxOp::Div, u, d),
        },
    }
}

/// Jacobi iteration with at most `k` more steps: the final iterate and the
/// number of steps taken (stopping as soon as an update agrees with the
/// previous iterate to the tolerances).
pub open spec fn gj_rec(
    m: Seq<Seq<int>>,
    d: Seq<int>,
    b: Seq<int>,
    x: Seq<int>,
    rtol: int,
    atol: int,
    k: int,
) -> Result<(Seq<int>, int), SolveError>
    decreases k,
{
    if k <= 0 {
        Ok((x, 0))
    } else {
        match gj_step(m, d, b, x) {
            Err(e) => Err(e),
            Ok(xn) => if is_converged(xn, x, rtol, atol) {
                Ok((xn, 1))
            } else {
                add_iters(gj_rec(m, d, b, xn, rtol, atol, k - 1), 1)
            },
        }
    }
}

/// What the whole Gauss-Jacobi solve returns: diagonal extraction, the
/// hollow matrix `A - D`, then the iteration.
pub open spec fn gauss_jacobi_spec(
    a: Seq<Seq<int>>,
    b: Seq<int>,
    x0: Seq<int>,
    num_iter: int,
    atol: int,
    rtol: int,
) -> Result<(Seq<int>, int), SolveError> {
    if !iter_shape_ok(a, b, x0) {
        Err(SolveError::ShapeMismatch)
    } else {
        match diag_result(a) {
            Err(e) => Err(e),
            Ok(d) => match diag_flat_result(a) {
                Err(e) => Err(e),
                Ok(df) => match mat_zip_result(FxOp::Sub, a, df) {
                    Err(e) => Err(e),
                    Ok(m) => gj_rec(m, d, b, x0, rtol, atol, num_iter),
                },
            },
        }
    }
}

/// Does a `(vector, count)` result match its spec-level counterpart?
pub open spec fn pair_res_matches(
    r: Result<(Vec<Fixed>, usize), SolveError>,
    s: Result<(Seq<int>, int), SolveError>,
) -> bool {
    match (r, s) {
        (Ok(p), Ok(q)) => vals(p.0@) == q.0 && p.1 as int == q.1,
        (Err(e1), Err(e2)) => e1 == e2,
        _ => false,
    }
}

/// Gauss-Jacobi iteration: per step `x' = (b - (A - D) x) / diag(A)`,
/// stopping at convergence or after `num_iter` steps.  Returns the final
/// iterate and the number of steps taken.
pub fn gauss_jacobi_iterative_solve(
    coeffs: &Vec<Vec<Fixed>>,
    rhs: &Vec<Fixed>,
    init_guess: &Vec<Fixed>,
    num_iter: usize,
    abs_tol: Fixed,
    rel_tol: Fixed,
) -> (r: Result<(Vec<Fixed>, usize), SolveError>)
    ensures
        pair_res_matches(
            r,
            gauss_jacobi_spec(
                mat_vals(coeffs@),
                vals(rhs@),
                vals(init_guess@),
                num_iter as int,
                abs_tol@,
                rel_tol@,
            ),
        ),
{
    let nn = coeffs.len();
    for i in 0..nn
        invariant
            coeffs@.len() == nn,
            forall|t: int| 0 <= t < i ==> #[trigger] coeffs@[t]@.len() == nn,
    {
        if coeffs[i].len() != nn {
            assert(mat_vals(coeffs@)[i as int].len() != nn);
            assert(!iter_shape_ok(mat_vals(coeffs@), vals(rhs@), vals(init_guess@)));
            return Err(SolveError::ShapeMismatch);
        }
    }
    if rhs.len() != nn || init_guess.len() != nn {
        assert(!iter_shape_ok(mat_vals(coeffs@), vals(rhs@), vals(init_guess@)));
        return Err(SolveError::ShapeMismatch);
    }
    assert(iter_shape_ok(mat_vals(coeffs@), vals(rhs@), vals(init_guess@)));
    let coeffs_diag = match mat_diag(coeffs) {
        Ok(v) => v,
        Err(e) => {
            return Err(e);
        },
    };
    let coeffs_diagflat = match mat_diag_flat(coeffs) {
        Ok(v) => v,
        Err(e) => {
            return Err(e);
        },
    };
    let coeff_sub_diagflat = match mat_zip(FxOp::Sub, coeffs, &coeffs_diagflat) {
        Ok(v) => v,
        Err(e) => {
            return Err(e);
        },
    };
    let ghost mv = mat_vals(coeff_sub_diagflat@);
    let ghost dv = vals(coeffs_diag@);
    let ghost bv = vals(rhs@);
    let ghost x0 = vals(init_guess@);
    let mut x = clone_row(init_guess);
    proof {
        lemma_add_iters_zero(gj_rec(mv, dv, bv, x0, rel_tol@, abs_tol@, num_iter as int));
        assert(crate::kernel::is_square(mat_vals(coeffs@)));
        assert(mv == crate::kernel::mat_zip_val(
            FxOp::Sub,
            mat_vals(coeffs@),
            crate::kernel::diag_flat_val(mat_vals(coeffs@)),
        ));
        assert forall|t: int| 0 <= t < mv.len() implies #[trigger] mv[t].len() == mv.len() by {
            assert(mv[t] == crate::kernel::zip_val(
                FxOp::Sub,
                mat_vals(coeffs@)[t],
                crate::kernel::diag_flat_val(mat_vals(coeffs@))[t],
            ));
            assert(mat_vals(coeffs@)[t].len() == mat_vals(coeffs@).len());
        }
    }
    let mut k: usize = 0;
    while k < num_iter
        invariant
            k <= num_iter,
            mv == mat_vals(coeff_sub_diagflat@),
            dv == vals(coeffs_diag@),
            bv == vals(rhs@),
            x0 == vals(init_guess@),
            iter_shape_ok(mat_vals(coeffs@), bv, x0),
            forall|t: int| 0 <= t < mv.len() ==> #[trigger] mv[t].len() == mv.len(),
            gauss_jacobi_spec(
                mat_vals(coeffs@),
                bv,
                x0,
                num_iter as int,
                abs_tol@,
                rel_tol@,
            ) == add_iters(
                gj_rec(mv, dv, bv, vals(x@), rel_tol@, abs_tol@, num_iter - k),
                k as int,
            ),
        decreases num_iter - k,
    {
        let t = match mat_row_acc(FxOp::Mul, &coeff_sub_diagflat, &x) {
            Ok(v) => v,
            Err(e) => {
                proof {
                    assert(gj_step(mv, dv, bv, vals(x@)) == Err::<Seq<int>, SolveError>(e));
                    assert(gj_rec(mv, dv, bv, vals(x@), rel_tol@, abs_tol@, num_iter - k)
                        == Err::<(Seq<int>, int), SolveError>(e));
                }
                return Err(e);
            },
        };
        let u = match vec_zip(FxOp::Sub, rhs, &t) {
            Ok(v) => v,
            Err(e) => {
                proof {
                    assert(gj_step(mv, dv, bv, vals(x@)) == Err::<Seq<int>, SolveError>(e));
                    assert(gj_rec(mv, dv, bv, vals(x@), rel_tol@, abs_tol@, num_iter - k)
                        == Err::<(Seq<int>, int), SolveError>(e));
                }
                return Err(e);
            },
        };
        let x_new = match vec_zip(FxOp::Div, &u, &coeffs_diag) {
            Ok(v) => v,
            Err(e) => {
                proof {
                    assert(gj_step(mv, dv, bv, vals(x@)) == Err::<Seq<int>, SolveError>(e));
                    assert(gj_rec(mv, dv, bv, vals(x@), rel_tol@, abs_tol@, num_iter - k)
                        == Err::<(Seq<int>, int), SolveError>(e));
                }
                return Err(e);
            },
        };
        let conv = if x_new.len() == x.len() {
            match is_diagonally_converged(&x_new, &x, rel_tol, abs_tol) {
                Ok(b) => b,
                Err(_) => {
                    assert(false);
                    return Err(SolveError::ShapeMismatch);
                },
            }
        } else {
            // Only an empty system can reach this branch, and the test over
            // the empty update is vacuously true.
            proof {
                assert(vals(t@).len() == mv.len());
                assert(vals(u@).len() == bv.len());
                assert(vals(u@).len() == vals(t@).len());
                assert(vals(x_new@).len() == vals(u@).len());
                if mv.len() > 0 {
                    assert(crate::kernel::rows_match(mv, vals(x@)));
                    assert(mv[0].len() == vals(x@).len());
                    assert(false);
                }
                assert(vals(x_new@).len() == 0);
                assert(is_converged(vals(x_new@), vals(x@), rel_tol@, abs_tol@));
            }
            true
        };
        if conv {
            proof {
                assert(gj_rec(mv, dv, bv, vals(x@), rel_tol@, abs_tol@, num_iter - k)
                    == Ok::<(Seq<int>, int), SolveError>((vals(x_new@), 1)));
            }
            return Ok((x_new, k + 1));
        }
        proof {
            assert(gj_rec(mv, dv, bv, vals(x@), rel_tol@, abs_tol@, num_iter - k) == add_iters(
                gj_rec(mv, dv, bv, vals(x_new@), rel_tol@, abs_tol@, num_iter - k - 1),
                1,
            ));
            lemma_add_iters_compose(
                gj_rec(mv, dv, bv, vals(x_new@), rel_tol@, abs_tol@, num_iter - k - 1),
                1,
                k as int,
            );
        }
        x = x_new;
        k += 1;
    }
    Ok((x, num_iter))
}

// ---------------------------------------------------------------------------
// Gauss-Seidel.
// ---------------------------------------------------------------------------

/// Plausible shapes for an iterative solve: square `a`, `b` and `x0` of
/// matching length.
pub open spec fn iter_shape_ok(a: Seq<Seq<int>>, b: Seq<int>, x0: Seq<int>) -> bool {
    &&& forall|i: int| 0 <= i < a.len() ==> #[trigger] a[i].len() == a.len()
    &&& b.len() == a.len()
    &&& x0.len() == a.len()
}

/// One Seidel row update:
/// `x'[j] = (b[j] - sum_{c<j} a[j][c] x'[c] - sum_{c>j} a[j][c] x[c]) / a[j][j]`,
/// with `xn` the rows already updated this sweep and `xo` the previous
/// iterate.
pub open spec fn gs_row(
    a: Seq<Seq<int>>,
    b: Seq<int>,
    xn: Seq<int>,
    xo: Seq<int>,
    j: int,
) -> Result<int, SolveError> {
    let n = a.len() as int;
    let s1 = acc_from(a[j], xn, 0, j);
    if !acc_from_ok(a[j], xn, 0, j) {
        Err(SolveError::NonFiniteResult)
    } else {
        let s2 = acc_from(a[j], xo, j + 1, n);
        if !acc_from_ok(a[j], xo, j + 1, n) {
            Err(SolveError::NonFiniteResult)
        } else if !crate::fixed::fits(b[j] - s1) {
            Err(SolveError::NonFiniteResult)
        } else if !crate::fixed::fits(b[j] - s1 - s2) {
            Err(SolveError::NonFiniteResult)
        } else if !crate::fixed::op_ok(FxOp::Div, b[j] - s1 - s2, a[j][j]) {
            Err(SolveError::NonFiniteResult)
        } else {
            Ok(crate::fixed::div_val(b[j] - s1 - s2, a[j][j]))
        }
    }
}

/// One whole Seidel sweep, rows `j` upward, extending the updated prefix `xn`.
pub open spec fn gs_sweep(
    a: Seq<Seq<int>>,
    b: Seq<int>,
    xn: Seq<int>,
    xo: Seq<int>,
    j: int,
) -> Result<Seq<int>, SolveError>
    decreases a.len() - j,
{
    if j < 0 || j >= a.len() {
        Ok(xn)
    } else {
        match gs_row(a, b, xn, xo, j) {
            Err(e) => Err(e),
            Ok(v) => gs_sweep(a, b, xn.push(v), xo, j + 1),
        }
    }
}

/// Seidel iteration with at most `k` more sweeps: the final iterate and the
/// number of sweeps taken.
pub open spec fn gs_rec(
    a: Seq<Seq<int>>,
    b: Seq<int>,
    x: Seq<int>,
    rtol: int,
    atol: int,
    k: int,
) -> Result<(Seq<int>, int), SolveError>
    decreases k,
{
    if k <= 0 {
        Ok((x, 0))
    } else {
        match gs_sweep(a, b, Seq::empty(), x, 0) {
            Err(e) => Err(e),
            Ok(xn) => if is_converged(xn, x, rtol, atol) {
                Ok((xn, 1))
            } else {
                add_iters(gs_rec(a, b, xn, rtol, atol, k - 1), 1)
            },
        }
    }
}

/// What the whole Gauss-Seidel solve returns.
pub open spec fn gauss_seidel_spec(
    a: Seq<Seq<int>>,
    b: Seq<int>,
    x0: Seq<int>,
    num_iter: int,
    atol: int,
    rtol: int,
) -> Result<(Seq<int>, int), SolveError> {
    if !iter_shape_ok(a, b, x0) {
        Err(SolveError::ShapeMismatch)
    } else {
        gs_rec(a, b, x0, rtol, atol, num_iter)
    }
}

/// Gauss-Seidel iteration: each sweep updates the components in place, row
/// by row, using the rows already updated this sweep below the diagonal and
/// the previous iterate above it.  Returns the final iterate and the number
/// of sweeps taken.
pub fn gauss_seidel_iterative_solve(
    coeffs: &Vec<Vec<Fixed>>,
    rhs: &Vec<Fixed>,
    init_guess: &Vec<Fixed>,
    num_iter: usize,
    abs_tol: Fixed,
    rel_tol: Fixed,
) -> (r: Result<(Vec<Fixed>, usize), SolveError>)
    ensures
        pair_res_matches(
            r,
            gauss_seidel_spec(
                mat_vals(coeffs@),
                vals(rhs@),
                vals(init_guess@),
                num_iter as int,
                abs_tol@,
                rel_tol@,
            ),
        ),
{
    let ghost av = mat_vals(coeffs@);
    let ghost bv = vals(rhs@);
    let ghost x0 = vals(init_guess@);
    let n = coeffs.len();
    for i in 0..n
        invariant
            coeffs@.len() == n,
            forall|t: int| 0 <= t < i ==> #[trigger] coeffs@[t]@.len() == n,
    {
        if coeffs[i].len() != n {
            assert(mat_vals(coeffs@)[i as int].len() != n);
            assert(!iter_shape_ok(mat_vals(coeffs@), vals(rhs@), vals(init_guess@)));
            return Err(SolveError::ShapeMismatch);
        }
    }
    if rhs.len() != n || init_guess.len() != n {
        assert(!iter_shape_ok(mat_vals(coeffs@), vals(rhs@), vals(init_guess@)));
        return Err(SolveError::ShapeMismatch);
    }
    let mut x = clone_row(init_guess);
    proof {
        lemma_add_iters_zero(gs_rec(av, bv, x0, rel_tol@, abs_tol@, num_iter as int));
    }
    let mut k: usize = 0;
    while k < num_iter
        invariant
            k <= num_iter,
            n == coeffs@.len(),
            av == mat_vals(coeffs@),
            bv == vals(rhs@),
            x0 == vals(init_guess@),
            iter_shape_ok(av, bv, x0),
            rhs@.len() == n,
            forall|t: int| 0 <= t < n ==> #[trigger] coeffs@[t]@.len() == n,
            x@.len() == n,
            gauss_seidel_spec(av, bv, x0, num_iter as int, abs_tol@, rel_tol@) == add_iters(
                gs_rec(av, bv, vals(x@), rel_tol@, abs_tol@, num_iter - k),
                k as int,
            ),
        decreases num_iter - k,
    {
        let mut x_curr: Vec<Fixed> = Vec::new();
        proof {
            assert(vals(x_curr@) =~= Seq::<int>::empty());
        }
        let mut j: usize = 0;
        while j < n
            invariant
                j <= n,
                k < num_iter,
                n == coeffs@.len(),
                av == mat_vals(coeffs@),
                bv == vals(rhs@),
                x0 == vals(init_guess@),
                iter_shape_ok(av, bv, x0),
                rhs@.len() == n,
                forall|t: int| 0 <= t < n ==> #[trigger] coeffs@[t]@.len() == n,
                x@.len() == n,
                x_curr@.len() == j,
                gauss_seidel_spec(av, bv, x0, num_iter as int, abs_tol@, rel_tol@) == add_iters(
                    gs_rec(av, bv, vals(x@), rel_tol@, abs_tol@, num_iter - k),
                    k as int,
                ),
                gs_sweep(av, bv, Seq::empty(), vals(x@), 0) == gs_sweep(
                    av,
                    bv,
                    vals(x_curr@),
                    vals(x@),
                    j as int,
                ),
            decreases n - j,
        {
            let ghost xnv = vals(x_curr@);
            proof {
                assert(av[j as int] == vals(coeffs@[j as int]@));
            }
            let s1 = match dot_range(&coeffs[j], &x_curr, 0, j) {
                Ok(v) => v,
                Err(_) => {
                    proof {
                        assert(gs_row(av, bv, xnv, vals(x@), j as int) == Err::<int, SolveError>(
                            SolveError::NonFiniteResult,
                        ));
                        assert(gs_sweep(av, bv, xnv, vals(x@), j as int) == Err::<
                            Seq<int>,
                            SolveError,
                        >(SolveError::NonFiniteResult));
                        assert(gs_rec(av, bv, vals(x@), rel_tol@, abs_tol@, num_iter - k) == Err::<
                            (Seq<int>, int),
                            SolveError,
                        >(SolveError::NonFiniteResult));
                    }
                    return Err(SolveError::NonFiniteResult);
                },
            };
            let s2 = match dot_range(&coeffs[j], &x, j + 1, n) {
                Ok(v) => v,
                Err(_) => {
                    proof {
                        assert(gs_row(av, bv, xnv, vals(x@), j as int) == Err::<int, SolveError>(
                            SolveError::NonFiniteResult,
                        ));
                        assert(gs_sweep(av, bv, xnv, vals(x@), j as int) == Err::<
                            Seq<int>,
                            SolveError,
                        >(SolveError::NonFiniteResult));
                        assert(gs_rec(av, bv, vals(x@), rel_tol@, abs_tol@, num_iter - k) == Err::<
                            (Seq<int>, int),
                            SolveError,
                        >(SolveError::NonFiniteResult));
                    }
                    return Err(SolveError::NonFiniteResult);
                },
            };
            let t1 = match crate::fixed::fx_sub(rhs[j], s1) {
                Ok(v) => v,
                Err(_) => {
                    proof {
                        assert(gs_row(av, bv, xnv, vals(x@), j as int) == Err::<int, SolveError>(
                            SolveError::NonFiniteResult,
                        ));
                        assert(gs_sweep(av, bv, xnv, vals(x@), j as int) == Err::<
                            Seq<int>,
                            SolveError,
                        >(SolveError::NonFiniteResult));
                        assert(gs_rec(av, bv, vals(x@), rel_tol@, abs_tol@, num_iter - k) == Err::<
                            (Seq<int>, int),
                            SolveError,
                        >(SolveError::NonFiniteResult));
                    }
                    return Err(SolveError::NonFiniteResult);
                },
            };
            let t2 = match crate::fixed::fx_sub(t1, s2) {
                Ok(v) => v,
                Err(_) => {
                    proof {
                        assert(gs_row(av, bv, xnv, vals(x@), j as int) == Err::<int, SolveError>(
                            SolveError::NonFiniteResult,
                        ));
                        assert(gs_sweep(av, bv, xnv, vals(x@), j as int) == Err::<
                            Seq<int>,
                            SolveError,
                        >(SolveError::NonFiniteResult));
                        assert(gs_rec(av, bv, vals(x@), rel_tol@, abs_tol@, num_iter - k) == Err::<
                            (Seq<int>, int),
                            SolveError,
                        >(SolveError::NonFiniteResult));
                    }
                    return Err(SolveError::NonFiniteResult);
                },
            };
            let v = match crate::fixed::fx_div(t2, coeffs[j][j]) {
                Ok(v) => v,
                Err(_) => {
                    proof {
                        assert(gs_row(av, bv, xnv, vals(x@), j as int) == Err::<int, SolveError>(
                            SolveError::NonFiniteResult,
                        ));
                        assert(gs_sweep(av, bv, xnv, vals(x@), j as int) == Err::<
                            Seq<int>,
                            SolveError,
                        >(SolveError::NonFiniteResult));
                        assert(gs_rec(av, bv, vals(x@), rel_tol@, abs_tol@, num_iter - k) == Err::<
                            (Seq<int>, int),
                            SolveError,
                        >(SolveError::NonFiniteResult));
                    }
                    return Err(SolveError::NonFiniteResult);
                },
            };
            x_curr.push(v);
            proof {
                assert(vals(x_curr@) =~= xnv.push(v@));
                assert(gs_row(av, bv, xnv, vals(x@), j as int) == Ok::<int, SolveError>(v@));
            }
            j += 1;
        }
        let conv = match is_diagonally_converged(&x_curr, &x, rel_tol, abs_tol) {
            Ok(b) => b,
            Err(_) => {
                assert(false);
                return Err(SolveError::ShapeMismatch);
            },
        };
        if conv {
            proof {
                assert(gs_rec(av, bv, vals(x@), rel_tol@, abs_tol@, num_iter - k)
                    == Ok::<(Seq<int>, int), SolveError>((vals(x_curr@), 1)));
            }
            return Ok((x_curr, k + 1));
        }
        proof {
            assert(gs_rec(av, bv, vals(x@), rel_tol@, abs_tol@, num_iter - k) == add_iters(
                gs_rec(av, bv, vals(x_curr@), rel_tol@, abs_tol@, num_iter - k - 1),
                1,
            ));
            lemma_add_iters_compose(
                gs_rec(av, bv, vals(x_curr@), rel_tol@, abs_tol@, num_iter - k - 1),
                1,
                k as int,
            );
        }
        x = x_curr;
        k += 1;
    }
    Ok((x, num_iter))
}

} // verus!

verus! {

/// The provable half of the round-trip law for Gauss-Jacobi: a solve that
/// stops before its cap returns exactly one Jacobi update of some iterate,
/// and agrees with that iterate under the tolerances.  (That the iterate
/// chain approaches the true solution of `A x = b` on diagonally dominant
/// systems is a numerical property, exercised by tests.)
pub proof fn lemma_gj_converged_result(
    m: Seq<Seq<int>>,
    d: Seq<int>,
    b: Seq<int>,
    x: Seq<int>,
    rtol: int,
    atol: int,
    k: int,
)
    ensures
        (match gj_rec(m, d, b, x, rtol, atol, k) {
            Ok(s) => s.1 < k ==> exists|xp: Seq<int>|
                gj_step(m, d, b, xp) == Ok::<Seq<int>, SolveError>(s.0) && #[trigger] is_converged(
                    s.0,
                    xp,
                    rtol,
                    atol,
                ),
            Err(_) => true,
        }),
    decreases k,
{
    if k > 0 {
        let res = gj_rec(m, d, b, x, rtol, atol, k);
        match gj_step(m, d, b, x) {
            Err(_) => {},
            Ok(xn) => {
                if is_converged(xn, x, rtol, atol) {
                    assert(res->Ok_0.0 == xn);
                    assert(gj_step(m, d, b, x) == Ok::<Seq<int>, SolveError>(res->Ok_0.0)
                        && is_converged(res->Ok_0.0, x, rtol, atol));
                } else {
                    lemma_gj_converged_result(m, d, b, xn, rtol, atol, k - 1);
                    match gj_rec(m, d, b, xn, rtol, atol, k - 1) {
                        Err(_) => {},
                        Ok(inner) => {
                            assert(res->Ok_0.0 == inner.0);
                            if inner.1 < k - 1 {
                                let xp0 = choose|xp: Seq<int>|
                                    gj_step(m, d, b, xp) == Ok::<Seq<int>, SolveError>(inner.0)
                                        && #[trigger] is_converged(inner.0, xp, rtol, atol);
                                assert(gj_step(m, d, b, xp0) == Ok::<Seq<int>, SolveError>(
                                    res->Ok_0.0,
                                ) && is_converged(res->Ok_0.0, xp0, rtol, atol));
                            }
                        },
                    }
                }
            },
        }
    }
}

/// The provable half of the round-trip law for Gauss-Seidel: a solve that
/// stops before its cap returns exactly one Seidel sweep of some iterate,
/// and agrees with that iterate under the tolerances.
pub proof fn lemma_gs_converged_result(
    a: Seq<Seq<int>>,
    b: Seq<int>,
    x: Seq<int>,
    rtol: int,
    atol: int,
    k: int,
)
    ensures
        (match gs_rec(a, b, x, rtol, atol, k) {
            Ok(s) => s.1 < k ==> exists|xp: Seq<int>|
                gs_sweep(a, b, Seq::empty(), xp, 0) == Ok::<Seq<int>, SolveError>(s.0)
                    && #[trigger] is_converged(s.0, xp, rtol, atol),
            Err(_) => true,
        }),
    decreases k,
{
    if k > 0 {
        let res = gs_rec(a, b, x, rtol, atol, k);
        match gs_sweep(a, b, Seq::empty(), x, 0) {
            Err(_) => {},
            Ok(xn) => {
                if is_converged(xn, x, rtol, atol) {
                    assert(res->Ok_0.0 == xn);
                    assert(gs_sweep(a, b, Seq::empty(), x, 0) == Ok::<Seq<int>, SolveError>(
                        res->Ok_0.0,
                    ) && is_converged(res->Ok_0.0, x, rtol, atol));
                } else {
                    lemma_gs_converged_result(a, b, xn, rtol, atol, k - 1);
                    match gs_rec(a, b, xn, rtol, atol, k - 1) {
                        Err(_) => {},
                        Ok(inner) => {
                            assert(res->Ok_0.0 == inner.0);
                            if inner.1 < k - 1 {
                                let xp0 = choose|xp: Seq<int>|
                                    gs_sweep(a, b, Seq::empty(), xp, 0) == Ok::<
                                        Seq<int>,
                                        SolveError,
                                    >(inner.0) && #[trigger] is_converged(inner.0, xp, rtol, atol);
                                assert(gs_sweep(a, b, Seq::empty(), xp0, 0) == Ok::<
                                    Seq<int>,
                                    SolveError,
                                >(res->Ok_0.0) && is_converged(res->Ok_0.0, xp0, rtol, atol));
                            }
                        },
                    }
                }
            },
        }
    }
}

} // verus!
