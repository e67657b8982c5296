//! Laws of the factorization, proved over the spec model: the shape of the
//! factors, the identity behavior on already-triangular input, and the
//! one-by-one system.

use vstd::prelude::*;

use crate::fixed::{div_val, fits, int_abs, mul_val, op_ok, FxOp, SolveError, SCALE};
use crate::kernel::{acc_val, mat_row_acc_result, rows_match};
use crate::lu::{acc_from, acc_from_ok, bwd_full, bwd_rec, bwd_step, elim_col, elim_col_ok,
    elim_lvals, eye_val, fwd_rec, fwd_step, lu_factor, lu_rec, lu_solve_spec, pivot_row,
    row_after_elim, row_elim_ok, swap_rows_val, wf_mat, zeros};

verus! {

/// Multiplying any multiplier into a zero entry gives exactly zero.
proof fn lemma_mul_val_zero(f: int)
    ensures
        mul_val(f, 0) == 0,
{
    assert(int_abs(f) * 0 == 0) by (nonlinear_arith);
    assert(0int / (SCALE as int) == 0) by (nonlinear_arith)
        requires
            SCALE as int > 0,
    ;
}

/// Dividing a zero entry by any nonzero pivot gives exactly zero.
proof fn lemma_div_val_zero(piv: int)
    requires
        piv != 0,
    ensures
        div_val(0, piv) == 0,
{
    assert(0 * (SCALE as int) == 0) by (nonlinear_arith);
    assert(0int / int_abs(piv) == 0) by (nonlinear_arith)
        requires
            int_abs(piv) >= 1,
    ;
}

/// The strict lower triangle of `u` is zero in every column before `i`,
/// and `l` has a unit diagonal with zeros above it.
pub open spec fn tri_invariant(u: Seq<Seq<int>>, l: Seq<Seq<int>>, n: int, i: int) -> bool {
    &&& u.len() == n
    &&& forall|r: int| 0 <= r < n ==> #[trigger] u[r].len() == n
    &&& l.len() == n
    &&& forall|r: int| 0 <= r < n ==> #[trigger] l[r].len() == n
    &&& forall|r: int, c: int| 0 <= c < i && c < r < n ==> #[trigger] u[r][c] == 0
    &&& forall|r: int| 0 <= r < n ==> #[trigger] l[r][r] == SCALE
    &&& forall|r: int, c: int| 0 <= r < n && r < c < n ==> #[trigger] l[r][c] == 0
}

/// The factorization preserves and extends the triangular shape, one
/// column per step.
proof fn lemma_lu_rec_triangular(u0: Seq<Seq<int>>, l0: Seq<Seq<int>>, p0: Seq<Seq<int>>, n: int, i: int)
    requires
        0 <= i,
        tri_invariant(u0, l0, n, i),
    ensures
        (match lu_rec(u0, l0, p0, i) {
            Ok(s) => tri_invariant(s.0, s.1, n, n as int),
            Err(_) => true,
        }),
    decreases n - i,
{
    if i >= n {
        assert(tri_invariant(u0, l0, n, n));
    } else {
        let pr = pivot_row(u0, i, i);
        if pr >= 0 {
            crate::lu::lemma_pivot_row_props(u0, i, i);
            let u1 = swap_rows_val(u0, i, pr);
            let p1 = swap_rows_val(p0, i, pr);
            assert(u1.len() == n);
            assert forall|r: int| 0 <= r < n implies #[trigger] u1[r].len() == n by {}
            // A swap among rows at or below the pivot keeps the zero columns.
            assert forall|r: int, c: int| 0 <= c < i && c < r < n implies #[trigger] u1[r][c]
                == 0 by {
                assert(i <= pr < n);
            }
            if elim_col_ok(u1, i) {
                let u2 = elim_col(u1, i);
                let l2 = elim_lvals(u1, l0, i);
                assert(u2.len() == n);
                assert forall|r: int| 0 <= r < n implies #[trigger] u2[r].len() == n by {
                    if r > i {
                        assert(u2[r] == row_after_elim(
                            u1[r],
                            u1[i],
                            div_val(u1[r][i], u1[i][i]),
                            i,
                        ));
                    }
                }
                assert forall|r: int, c: int| 0 <= c < i + 1 && c < r < n implies #[trigger] u2[r][c]
                    == 0 by {
                    if r <= i {
                        assert(u2[r] == u1[r]);
                    } else {
                        let f = div_val(u1[r][i], u1[i][i]);
                        assert(u2[r] == row_after_elim(u1[r], u1[i], f, i));
                        if c == i {
                        } else {
                            assert(c < i);
                            assert(u1[r][c] == 0);
                            assert(u1[i][c] == 0);
                            lemma_mul_val_zero(f);
                            assert(u2[r][c] == u1[r][c] - mul_val(f, u1[i][c]));
                        }
                    }
                }
                assert(l2.len() == n);
                assert forall|r: int| 0 <= r < n implies #[trigger] l2[r].len() == n by {
                    if r > i {
                        assert(l2[r] == l0[r].update(i, div_val(u1[r][i], u1[i][i])));
                    }
                }
                assert forall|r: int| 0 <= r < n implies #[trigger] l2[r][r] == SCALE by {
                    if r > i {
                        assert(l2[r] == l0[r].update(i, div_val(u1[r][i], u1[i][i])));
                        assert(l2[r][r] == l0[r][r]);
                    }
                }
                assert forall|r: int, c: int| 0 <= r < n && r < c < n implies #[trigger] l2[r][c]
                    == 0 by {
                    if r > i {
                        assert(l2[r] == l0[r].update(i, div_val(u1[r][i], u1[i][i])));
                        assert(c != i);
                        assert(l2[r][c] == l0[r][c]);
                    }
                }
                assert(tri_invariant(u2, l2, n, i + 1));
                lemma_lu_rec_triangular(u2, l2, p1, n, i + 1);
            }
        }
    }
}

/// After a successful factorization the coefficient matrix is upper
/// triangular (exact zeros below the diagonal), and L is unit lower
/// triangular: ones on its diagonal and zeros above it.  The strict lower
/// entries of L are the recorded multipliers of the elimination, as
/// `elim_lvals` lays them in column by column.
pub proof fn lemma_lu_factor_triangular(a: Seq<Seq<int>>, u: Seq<Seq<int>>, l: Seq<Seq<int>>, p: Seq<Seq<int>>)
    requires
        forall|r: int| 0 <= r < a.len() ==> #[trigger] a[r].len() == a.len(),
        lu_factor(a) == Ok::<(Seq<Seq<int>>, Seq<Seq<int>>, Seq<Seq<int>>), SolveError>((u, l, p)),
    ensures
        u.len() == a.len(),
        l.len() == a.len(),
        forall|r: int, c: int| 0 <= c < r < a.len() ==> #[trigger] u[r][c] == 0,
        forall|r: int| 0 <= r < a.len() ==> #[trigger] l[r][r] == SCALE,
        forall|r: int, c: int| 0 <= r < a.len() && r < c < a.len() ==> #[trigger] l[r][c] == 0,
{
    let n = a.len() as int;
    let eye = eye_val(n, n);
    assert forall|r: int| 0 <= r < n implies #[trigger] eye[r].len() == n by {}
    assert forall|r: int| 0 <= r < n implies #[trigger] eye[r][r] == SCALE by {}
    assert forall|r: int, c: int| 0 <= r < n && r < c < n implies #[trigger] eye[r][c] == 0 by {}
    assert(tri_invariant(a, eye, n, 0));
    lemma_lu_rec_triangular(a, eye, eye, n, 0);
}

/// On an upper-triangular matrix with a nonzero diagonal the factorization
/// is the identity: U stays exactly the input and L and P stay the
/// identity.
pub proof fn lemma_lu_factor_of_triangular(a: Seq<Seq<int>>, i: int)
    requires
        0 <= i,
        wf_mat(a, a.len() as int),
        forall|r: int, c: int| 0 <= c < r < a.len() ==> #[trigger] a[r][c] == 0,
        forall|r: int| 0 <= r < a.len() ==> #[trigger] a[r][r] != 0,
    ensures
        lu_rec(a, eye_val(a.len() as int, a.len() as int), eye_val(a.len() as int, a.len() as int), i)
            == Ok::<(Seq<Seq<int>>, Seq<Seq<int>>, Seq<Seq<int>>), SolveError>(
            (a, eye_val(a.len() as int, a.len() as int), eye_val(a.len() as int, a.len() as int)),
        ),
    decreases a.len() - i,
{
    let n = a.len() as int;
    let eye = eye_val(n, n);
    if i >= n {
    } else {
        assert(pivot_row(a, i, i) == i);
        let u1 = swap_rows_val(a, i, i);
        let p1 = swap_rows_val(eye, i, i);
        assert(u1 =~= a);
        assert(p1 =~= eye);
        assert forall|j: int|
            i < j < n implies op_ok(FxOp::Div, #[trigger] a[j][i], a[i][i]) && row_elim_ok(
            a[j],
            a[i],
            div_val(a[j][i], a[i][i]),
            i,
        ) by {
            assert(a[j][i] == 0);
            lemma_div_val_zero(a[i][i]);
            let f = div_val(a[j][i], a[i][i]);
            assert(f == 0);
            assert forall|c: int|
                0 <= c < a[j].len() && c != i implies op_ok(FxOp::Mul, f, #[trigger] a[i][c])
                    && op_ok(FxOp::Sub, a[j][c], mul_val(f, a[i][c])) by {
                lemma_mul_val_zero(0);
                assert(mul_val(f, a[i][c]) == 0) by {
                    assert(int_abs(f) * int_abs(a[i][c]) == 0) by (nonlinear_arith)
                        requires
                            int_abs(f) == 0,
                    ;
                    assert(0int / (SCALE as int) == 0) by (nonlinear_arith)
                        requires
                            SCALE as int > 0,
                    ;
                }
                assert(fits(a[j][c]));
            }
        }
        assert(elim_col_ok(u1, i));
        assert(elim_col(u1, i) =~= a) by {
            assert forall|j: int| 0 <= j < n implies elim_col(u1, i)[j] =~= #[trigger] a[j] by {
                if j > i {
                    let f = div_val(a[j][i], a[i][i]);
                    lemma_div_val_zero(a[i][i]);
                    assert(f == 0);
                    assert forall|c: int| 0 <= c < n implies row_after_elim(a[j], a[i], f, i)[c]
                        == #[trigger] a[j][c] by {
                        if c == i {
                            assert(a[j][i] == 0);
                        } else {
                            assert(mul_val(f, a[i][c]) == 0) by {
                                assert(int_abs(f) * int_abs(a[i][c]) == 0) by (nonlinear_arith)
                                    requires
                                        int_abs(f) == 0,
                                ;
                                assert(0int / (SCALE as int) == 0) by (nonlinear_arith)
                                    requires
                                        SCALE as int > 0,
                                ;
                            }
                        }
                    }
                }
            }
        }
        assert(elim_lvals(u1, eye, i) =~= eye) by {
            assert forall|j: int| 0 <= j < n implies elim_lvals(u1, eye, i)[j] =~= #[trigger] eye[j] by {
                if j > i {
                    lemma_div_val_zero(a[i][i]);
                    assert(a[j][i] == 0);
                    assert(elim_lvals(u1, eye, i)[j] == eye[j].update(i, div_val(u1[j][i], u1[i][i])));
                    assert(eye[j][i] == 0);
                }
            }
        }
        lemma_lu_factor_of_triangular(a, i + 1);
    }
}

} // verus!

verus! {

/// The one-by-one system `[[a]] x = [y]`: the LU solve returns exactly
/// `[y / a]` for nonzero `a` (when the quotient is representable), and
/// `Singular` for `a == 0`.
pub proof fn lemma_lu_solve_one_by_one(am: int, bm: int)
    requires
        fits(am),
        fits(bm),
    ensures
        am == 0 ==> lu_solve_spec(seq![seq![am]], seq![bm]) == Err::<Seq<int>, SolveError>(
            SolveError::Singular,
        ),
        am != 0 && fits(div_val(bm, am)) ==> lu_solve_spec(seq![seq![am]], seq![bm]) == Ok::<
            Seq<int>,
            SolveError,
        >(seq![div_val(bm, am)]),
{
    let a = seq![seq![am]];
    let b = seq![bm];
    let eye = eye_val(1, 1);
    assert(a.len() == 1);
    assert(a[0].len() == 1);
    assert(a[0][0] == am);
    assert(b[0] == bm);
    assert(eye[0][0] == SCALE);
    let s = SCALE as int;
    if am == 0 {
        assert(pivot_row(a, 0, 1) == -1);
        assert(pivot_row(a, 0, 0) == -1);
        assert(lu_rec(a, eye, eye, 0) == Err::<
            (Seq<Seq<int>>, Seq<Seq<int>>, Seq<Seq<int>>),
            SolveError,
        >(SolveError::Singular));
    } else if fits(div_val(bm, am)) {
        // Factorization: the pivot is the single entry, nothing to eliminate.
        assert(pivot_row(a, 0, 0) == 0);
        let u1 = swap_rows_val(a, 0, 0);
        let p1 = swap_rows_val(eye, 0, 0);
        assert(u1 =~= a);
        assert(u1[0] =~= a[0]);
        assert(u1 =~~= a);
        assert(p1 =~~= eye);
        assert(elim_col_ok(u1, 0));
        assert(elim_col(u1, 0) =~~= a);
        assert(elim_lvals(u1, eye, 0) =~~= eye);
        assert(lu_rec(a, eye, eye, 0) == lu_rec(elim_col(u1, 0), elim_lvals(u1, eye, 0), p1, 1));
        assert(lu_rec(a, eye, eye, 0) == Ok::<
            (Seq<Seq<int>>, Seq<Seq<int>>, Seq<Seq<int>>),
            SolveError,
        >((a, eye, eye)));
        // Permuted right-hand side: the identity row reproduces b exactly.
        assert(mul_val(s, bm) == bm) by {
            assert((s * int_abs(bm)) / s == int_abs(bm)) by (nonlinear_arith)
                requires
                    s >= 1,
                    int_abs(bm) >= 0,
            ;
        }
        assert(rows_match(eye, b));
        assert(acc_val(FxOp::Mul, eye[0], b, 0) == 0);
        assert(crate::kernel::acc_ok(FxOp::Mul, eye[0], b, 0));
        assert(acc_val(FxOp::Mul, eye[0], b, 1) == bm);
        assert(crate::kernel::acc_ok(FxOp::Mul, eye[0], b, 1));
        let pbr = mat_row_acc_result(FxOp::Mul, eye, b);
        assert(pbr == Ok::<Seq<int>, SolveError>(crate::kernel::mat_row_acc_val(FxOp::Mul, eye, b)));
        let pb = pbr->Ok_0;
        assert(pb =~= b);
        // Forward substitution against the unit L.
        assert(fwd_rec(eye, b, 0) == Ok::<Seq<int>, SolveError>(Seq::empty()));
        assert(acc_from(eye[0], Seq::<int>::empty(), 0, 0) == 0);
        assert(div_val(bm, s) == bm) by {
            assert((int_abs(bm) * s) / s == int_abs(bm)) by (nonlinear_arith)
                requires
                    s >= 1,
                    int_abs(bm) >= 0,
            ;
        }
        assert(fwd_step(eye, b, Seq::empty(), 0) == Ok::<int, SolveError>(bm));
        assert(fwd_rec(eye, b, 1) == Ok::<Seq<int>, SolveError>(Seq::<int>::empty().push(bm)));
        let y = Seq::<int>::empty().push(bm);
        assert(y =~= b);
        // Back substitution against the single coefficient.
        let z = zeros(1);
        assert(z[0] == 0);
        lemma_mul_val_zero(am);
        assert(acc_from(a[0], z, 0, 1) == acc_from(a[0], z, 0, 0) + mul_val(am, 0));
        assert(acc_from(a[0], z, 0, 1) == 0);
        assert(acc_from_ok(a[0], z, 0, 0));
        assert(acc_from_ok(a[0], z, 0, 1));
        let d = div_val(bm, am);
        assert(bwd_step(a, y, z, 0) == Ok::<Seq<int>, SolveError>(z.update(0, d)));
        assert(bwd_rec(a, y, z.update(0, d), -1) == Ok::<Seq<int>, SolveError>(z.update(0, d)));
        assert(bwd_full(a, y) == Ok::<Seq<int>, SolveError>(z.update(0, d)));
        assert(z.update(0, d) =~= seq![d]);
        assert(lu_solve_spec(a, b) == Ok::<Seq<int>, SolveError>(seq![d]));
    }
}

} // verus!
