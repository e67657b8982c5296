//! The uniform entry point of the linear core: pick LU factorization,
//! Gauss-Jacobi or Gauss-Seidel under a single input contract.

use vstd::prelude::*;

use crate::fixed::{Fixed, SolveError};
use crate::iterative::{gauss_jacobi_iterative_solve, gauss_jacobi_spec, gauss_seidel_iterative_solve,
    gauss_seidel_spec};
use crate::kernel::{mat_vals, vals, vec_res_matches};
use crate::lu::{lu_shape_ok, lu_solve_spec, EliminatorSolver};
use crate::text::str_eq;

verus! {

/// Solver selection: direct factorization or one of the two stationary
/// iterations.
#[derive(Clone, Copy, Debug, PartialEq, Eq, Structural)]
pub enum LinearSystemSolve {
    /// LU factorization with partial pivoting plus substitution.
    LFactorize,
    /// Gauss-Jacobi iteration.
    GaussJacobi,
    /// Gauss-Seidel iteration.
    GaussSeidel,
}

/// Spellings that select LU factorization.
pub open spec fn lu_name(s: Seq<char>) -> bool {
    s == "lud"@ || s == "lu_factorize"@ || s == "lu_factorise"@
}

/// Spellings that select Gauss-Jacobi.
pub open spec fn jacobi_name(s: Seq<char>) -> bool {
    s == "gj"@ || s == "gauss-jacobi"@ || s == "gauss_jacobi"@ || s == "jacobi"@ || s == "j"@
}

/// Spellings that select Gauss-Seidel.
pub open spec fn seidel_name(s: Seq<char>) -> bool {
    s == "gs"@ || s == "gauss-seidel"@ || s == "gauss_seidel"@ || s == "seidel"@ || s == "s"@
}

/// Any accepted solver spelling.
pub open spec fn valid_solver_name(s: Seq<char>) -> bool {
    lu_name(s) || jacobi_name(s) || seidel_name(s)
}

/// Drop the iteration count from an iterative result.
pub open spec fn drop_iters(r: Result<(Seq<int>, int), SolveError>) -> Result<
    Seq<int>,
    SolveError,
> {
    match r {
        Ok(s) => Ok(s.0),
        Err(e) => Err(e),
    }
}

/// What `solve` returns for each method: LU checks the shapes and ignores
/// the iterative parameters; the iterative methods demand all four.
pub open spec fn solve_spec(
    method: LinearSystemSolve,
    a: Seq<Seq<int>>,
    b: Seq<int>,
    x0: Option<Seq<int>>,
    num_iter: Option<usize>,
    atol: Option<int>,
    rtol: Option<int>,
) -> Result<Seq<int>, SolveError> {
    match method {
        LinearSystemSolve::LFactorize => if !lu_shape_ok(a, b) {
            Err(SolveError::ShapeMismatch)
        } else {
            lu_solve_spec(a, b)
        },
        LinearSystemSolve::GaussJacobi => if x0 is None || num_iter is None || atol is None
            || rtol is None {
            Err(SolveError::MissingParameter)
        } else {
            drop_iters(
                gauss_jacobi_spec(
                    a,
                    b,
                    x0->Some_0,
                    num_iter->Some_0 as int,
                    atol->Some_0,
                    rtol->Some_0,
                ),
            )
        },
        LinearSystemSolve::GaussSeidel => if x0 is None || num_iter is None || atol is None
            || rtol is None {
            Err(SolveError::MissingParameter)
        } else {
            drop_iters(
                gauss_seidel_spec(
                    a,
                    b,
                    x0->Some_0,
                    num_iter->Some_0 as int,
                    atol->Some_0,
                    rtol->Some_0,
                ),
            )
        },
    }
}

/// The view of an optional vector of scalars.
pub open spec fn opt_vals(v: Option<&Vec<Fixed>>) -> Option<Seq<int>> {
    match v {
        Some(x) => Some(vals(x@)),
        None => None,
    }
}

/// The view of an optional scalar.
pub open spec fn opt_val(v: Option<Fixed>) -> Option<int> {
    match v {
        Some(x) => Some(x@),
        None => None,
    }
}

impl LinearSystemSolve {
    /// The solver a name selects, or `None` for an unknown name.
    pub fn try_from_str(s: &str) -> (r: Option<LinearSystemSolve>)
        ensures
            r == (if lu_name(s@) {
                Some(LinearSystemSolve::LFactorize)
            } else if jacobi_name(s@) {
                Some(LinearSystemSolve::GaussJacobi)
            } else if seidel_name(s@) {
                Some(LinearSystemSolve::GaussSeidel)
            } else {
                None
            }),
    {
        if str_eq(s, "lud") || str_eq(s, "lu_factorize") || str_eq(s, "lu_factorise") {
            Some(LinearSystemSolve::LFactorize)
        } else if str_eq(s, "gj") || str_eq(s, "gauss-jacobi") || str_eq(s, "gauss_jacobi")
            || str_eq(s, "jacobi") || str_eq(s, "j") {
            Some(LinearSystemSolve::GaussJacobi)
        } else if str_eq(s, "gs") || str_eq(s, "gauss-seidel") || str_eq(s, "gauss_seidel")
            || str_eq(s, "seidel") || str_eq(s, "s") {
            Some(LinearSystemSolve::GaussSeidel)
        } else {
            None
        }
    }

    /// The solver a known name selects; the caller guarantees the name is
    /// one of the accepted spellings.
    pub fn from_str(s: String) -> (r: LinearSystemSolve)
        requires
            valid_solver_name(s@),
        ensures
            r == (if lu_name(s@) {
                LinearSystemSolve::LFactorize
            } else if jacobi_name(s@) {
                LinearSystemSolve::GaussJacobi
            } else {
                LinearSystemSolve::GaussSeidel
            }),
    {
        match Self::try_from_str(s.as_str()) {
            Some(m) => m,
            None => {
                proof {
                    assert(false);
                }
                LinearSystemSolve::LFactorize
            },
        }
    }

    /// Solve `A x = b` with the selected method.  LU ignores the iterative
    /// parameters; the iterative methods report `MissingParameter` when any
    /// of guess, iteration cap or tolerances is absent.
    pub fn solve(
        &self,
        coeffs: &Vec<Vec<Fixed>>,
        rhs: &Vec<Fixed>,
        init_guess: Option<&Vec<Fixed>>,
        num_iter: Option<usize>,
        abs_tol: Option<Fixed>,
        rel_tol: Option<Fixed>,
    ) -> (r: Result<Vec<Fixed>, SolveError>)
        ensures
            vec_res_matches(
                r,
                solve_spec(
                    *self,
                    mat_vals(coeffs@),
                    vals(rhs@),
                    opt_vals(init_guess),
                    num_iter,
                    opt_val(abs_tol),
                    opt_val(rel_tol),
                ),
            ),
    {
        match self {
            LinearSystemSolve::LFactorize => {
                let mut solver = match EliminatorSolver::new(coeffs, rhs) {
                    Ok(s) => s,
                    Err(e) => {
                        return Err(e);
                    },
                };
                solver.factorize_eliminate_solve()
            },
            LinearSystemSolve::GaussJacobi => {
                let x0 = match init_guess {
                    Some(v) => v,
                    None => {
                        return Err(SolveError::MissingParameter);
                    },
                };
                let iters = match num_iter {
                    Some(v) => v,
                    None => {
                        return Err(SolveError::MissingParameter);
                    },
                };
                let atol = match abs_tol {
                    Some(v) => v,
                    None => {
                        return Err(SolveError::MissingParameter);
                    },
                };
                let rtol = match rel_tol {
                    Some(v) => v,
                    None => {
                        return Err(SolveError::MissingParameter);
                    },
                };
                match gauss_jacobi_iterative_solve(coeffs, rhs, x0, iters, atol, rtol) {
                    Ok(p) => Ok(p.0),
                    Err(e) => Err(e),
                }
            },
            LinearSystemSolve::GaussSeidel => {
                let x0 = match init_guess {
                    Some(v) => v,
                    None => {
                        return Err(SolveError::MissingParameter);
                    },
                };
                let iters = match num_iter {
                    Some(v) => v,
                    None => {
                        return Err(SolveError::MissingParameter);
                    },
                };
                let atol = match abs_tol {
                    Some(v) => v,
                    None => {
                        return Err(SolveError::MissingParameter);
                    },
                };
                let rtol = match rel_tol {
                    Some(v) => v,
                    None => {
                        return Err(SolveError::MissingParameter);
                    },
                };
                match gauss_seidel_iterative_solve(coeffs, rhs, x0, iters, atol, rtol) {
                    Ok(p) => Ok(p.0),
                    Err(e) => Err(e),
                }
            },
        }
    }
}

} // verus!
