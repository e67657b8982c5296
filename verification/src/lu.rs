//! LU factorization with partial row pivoting, plus forward and back
//! substitution.
//!
//! The factorization works in place on the coefficient matrix: after column
//! `i` is processed, every entry of column `i` below the diagonal is zero, the
//! elimination multiplier is recorded in the L matrix, and the permutation
//! matrix records the row swap.  `lu_rec` is the spec-level recursion over
//! pivot columns that the executable code is proved to follow exactly,
//! including which error is reported on which inputs.

use vstd::prelude::*;

use crate::fixed::{div_val, fits, fx_div, fx_mul, fx_sub, mul_val, op_ok, op_val, Fixed, FxOp,
    SolveError, SCALE};
use crate::kernel::{mat_vals, vals, vec_res_matches};

verus! {

/// A square matrix of mantissas: `n` rows of `n` entries, all in range.
pub open spec fn wf_mat(m: Seq<Seq<int>>, n: int) -> bool {
    &&& m.len() == n
    &&& forall|i: int| 0 <= i < n ==> #[trigger] m[i].len() == n
    &&& forall|i: int, j: int| 0 <= i < n && 0 <= j < n ==> fits(#[trigger] m[i][j])
}

/// A vector of mantissas of length `n`, all in range.
pub open spec fn wf_vec(v: Seq<int>, n: int) -> bool {
    v.len() == n && forall|i: int| 0 <= i < n ==> fits(#[trigger] v[i])
}

/// The `n` x `m` identity (ones on the main diagonal).
pub open spec fn eye_val(n: int, m: int) -> Seq<Seq<int>> {
    Seq::new(n as nat, |i: int| Seq::new(m as nat, |j: int| if i == j {
        SCALE as int
    } else {
        0
    }))
}

/// Mantissa views of a `Vec` matrix are always in the `i64` range.
pub proof fn lemma_mat_vals_wf(m: Seq<Vec<Fixed>>, n: int)
    requires
        m.len() == n,
        forall|i: int| 0 <= i < n ==> #[trigger] m[i]@.len() == n,
    ensures
        wf_mat(mat_vals(m), n),
{
}

/// Mantissa views of a `Vec` of scalars are always in the `i64` range.
pub proof fn lemma_vec_vals_wf(v: Seq<Fixed>, n: int)
    requires
        v.len() == n,
    ensures
        wf_vec(vals(v), n),
{
}

// ---------------------------------------------------------------------------
// Spec model of the factorization.
// ---------------------------------------------------------------------------

/// The first row at or below `k` whose entry in column `col` is nonzero,
/// or -1 when the rest of the column is all zeros.
pub open spec fn pivot_row(u: Seq<Seq<int>>, col: int, k: int) -> int
    decreases u.len() - k,
{
    if k < 0 || k >= u.len() {
        -1
    } else if u[k][col] != 0 {
        k
    } else {
        pivot_row(u, col, k + 1)
    }
}

/// Rows `i` and `k` exchanged.
pub open spec fn swap_rows_val(m: Seq<Seq<int>>, i: int, k: int) -> Seq<Seq<int>> {
    Seq::new(m.len(), |j: int| if j == i {
        m[k]
    } else if j == k {
        m[i]
    } else {
        m[j]
    })
}

/// Row `j` after eliminating column `col` against pivot row `ai` with
/// multiplier `f`: the column entry becomes exactly zero, every other entry
/// becomes `aj[c] - f * ai[c]`.
pub open spec fn row_after_elim(aj: Seq<int>, ai: Seq<int>, f: int, col: int) -> Seq<int> {
    Seq::new(aj.len(), |c: int| if c == col {
        0
    } else {
        aj[c] - mul_val(f, ai[c])
    })
}

/// Every arithmetic step of `row_after_elim` fits the scalar.
pub open spec fn row_elim_ok(aj: Seq<int>, ai: Seq<int>, f: int, col: int) -> bool {
    forall|c: int|
        0 <= c < aj.len() && c != col ==> op_ok(FxOp::Mul, f, #[trigger] ai[c]) && op_ok(
            FxOp::Sub,
            aj[c],
            mul_val(f, ai[c]),
        )
}

/// Every row below the pivot can be eliminated without leaving the range:
/// the multiplier divisions and all row updates fit.
pub open spec fn elim_col_ok(u: Seq<Seq<int>>, i: int) -> bool {
    forall|j: int|
        i < j < u.len() ==> op_ok(FxOp::Div, #[trigger] u[j][i], u[i][i]) && row_elim_ok(
            u[j],
            u[i],
            div_val(u[j][i], u[i][i]),
            i,
        )
}

/// The coefficient matrix after eliminating column `i`.
pub open spec fn elim_col(u: Seq<Seq<int>>, i: int) -> Seq<Seq<int>> {
    Seq::new(u.len(), |j: int| if j <= i {
        u[j]
    } else {
        row_after_elim(u[j], u[i], div_val(u[j][i], u[i][i]), i)
    })
}

/// The L matrix after recording the multipliers of column `i`.
pub open spec fn elim_lvals(u: Seq<Seq<int>>, l: Seq<Seq<int>>, i: int) -> Seq<Seq<int>> {
    Seq::new(l.len(), |j: int| if j <= i {
        l[j]
    } else {
        l[j].update(i, div_val(u[j][i], u[i][i]))
    })
}

/// The factorization from pivot column `i` onward: per column, pivot search
/// and swap, then elimination of the rows below.
pub open spec fn lu_rec(u: Seq<Seq<int>>, l: Seq<Seq<int>>, p: Seq<Seq<int>>, i: int) -> Result<
    (Seq<Seq<int>>, Seq<Seq<int>>, Seq<Seq<int>>),
    SolveError,
>
    decreases u.len() - i,
{
    if i < 0 || i >= u.len() {
        Ok((u, l, p))
    } else {
        let pr = pivot_row(u, i, i);
        if pr < 0 {
            Err(SolveError::Singular)
        } else {
            let u1 = swap_rows_val(u, i, pr);
            let p1 = swap_rows_val(p, i, pr);
            if elim_col_ok(u1, i) {
                lu_rec(elim_col(u1, i), elim_lvals(u1, l, i), p1, i + 1)
            } else {
                Err(SolveError::NonFiniteResult)
            }
        }
    }
}

/// The whole factorization of `a`, starting from identity L and P.
pub open spec fn lu_factor(a: Seq<Seq<int>>) -> Result<
    (Seq<Seq<int>>, Seq<Seq<int>>, Seq<Seq<int>>),
    SolveError,
> {
    lu_rec(a, eye_val(a.len() as int, a.len() as int), eye_val(a.len() as int, a.len() as int), 0)
}

// ---------------------------------------------------------------------------
// Spec model of the substitutions.
// ---------------------------------------------------------------------------

/// Left-to-right sum of `a[c] * b[c]` over `lo <= c < hi`.
pub open spec fn acc_from(a: Seq<int>, b: Seq<int>, lo: int, hi: int) -> int
    decreases hi - lo,
{
    if hi <= lo {
        0
    } else {
        acc_from(a, b, lo, hi - 1) + mul_val(a[hi - 1], b[hi - 1])
    }
}

/// Every product and every partial sum of `acc_from` fits.
pub open spec fn acc_from_ok(a: Seq<int>, b: Seq<int>, lo: int, hi: int) -> bool
    decreases hi - lo,
{
    if hi <= lo {
        true
    } else {
        acc_from_ok(a, b, lo, hi - 1) && op_ok(FxOp::Mul, a[hi - 1], b[hi - 1]) && fits(
            acc_from(a, b, lo, hi),
        )
    }
}

/// If all partial sums up to `hi` fit, so do those up to any earlier `mid`.
pub proof fn lemma_acc_from_prefix(a: Seq<int>, b: Seq<int>, lo: int, mid: int, hi: int)
    requires
        mid <= hi,
        acc_from_ok(a, b, lo, hi),
    ensures
        acc_from_ok(a, b, lo, mid),
    decreases hi - mid,
{
    if mid < hi {
        lemma_acc_from_prefix(a, b, lo, mid, hi - 1);
    }
}

/// One row of forward substitution:
/// `y[i] = (b[i] - sum_{c<i} l[i][c]*y[c]) / l[i][i]`, with `y` the rows
/// solved so far.
pub open spec fn fwd_step(l: Seq<Seq<int>>, b: Seq<int>, y: Seq<int>, i: int) -> Result<
    int,
    SolveError,
> {
    let s = acc_from(l[i], y, 0, i);
    if !acc_from_ok(l[i], y, 0, i) {
        Err(SolveError::NonFiniteResult)
    } else if !fits(b[i] - s) {
        Err(SolveError::NonFiniteResult)
    } else if l[i][i] == 0 {
        Err(SolveError::Singular)
    } else if !fits(div_val(b[i] - s, l[i][i])) {
        Err(SolveError::NonFiniteResult)
    } else {
        Ok(div_val(b[i] - s, l[i][i]))
    }
}

/// Forward substitution `L y = b` for the first `n` rows, top down.
pub open spec fn fwd_rec(l: Seq<Seq<int>>, b: Seq<int>, n: int) -> Result<Seq<int>, SolveError>
    decreases n,
{
    if n <= 0 {
        Ok(Seq::empty())
    } else {
        match fwd_rec(l, b, n - 1) {
            Ok(y) => match fwd_step(l, b, y, n - 1) {
                Ok(v) => Ok(y.push(v)),
                Err(e) => Err(e),
            },
            Err(e) => Err(e),
        }
    }
}

/// A successful forward substitution solves one entry per row.
pub proof fn lemma_fwd_len(l: Seq<Seq<int>>, b: Seq<int>, n: int)
    requires
        fwd_rec(l, b, n) is Ok,
    ensures
        fwd_rec(l, b, n)->Ok_0.len() == if n <= 0 {
            0
        } else {
            n
        },
    decreases n,
{
    if n > 0 {
        lemma_fwd_len(l, b, n - 1);
    }
}

/// An error of the forward recursion persists for all later rows.
pub proof fn lemma_fwd_err_mono(l: Seq<Seq<int>>, b: Seq<int>, m: int, n: int, e: SolveError)
    requires
        m <= n,
        fwd_rec(l, b, m) == Err::<Seq<int>, SolveError>(e),
    ensures
        fwd_rec(l, b, n) == Err::<Seq<int>, SolveError>(e),
    decreases n - m,
{
    if m < n {
        lemma_fwd_err_mono(l, b, m + 1, n, e);
    }
}

/// One row of back substitution over the in-place solution vector `x`:
/// `x[i] = (y[i] - sum_{c>i} u[i][c]*x[c]) / u[i][i]` (entries of `x` at and
/// below `i` are still zero, so including column `i` in the sum adds nothing).
pub open spec fn bwd_step(u: Seq<Seq<int>>, y: Seq<int>, x: Seq<int>, i: int) -> Result<
    Seq<int>,
    SolveError,
> {
    let s = acc_from(u[i], x, i, u.len() as int);
    if !acc_from_ok(u[i], x, i, u.len() as int) {
        Err(SolveError::NonFiniteResult)
    } else if !fits(y[i] - s) {
        Err(SolveError::NonFiniteResult)
    } else if u[i][i] == 0 {
        Err(SolveError::Singular)
    } else if !fits(div_val(y[i] - s, u[i][i])) {
        Err(SolveError::NonFiniteResult)
    } else {
        Ok(x.update(i, div_val(y[i] - s, u[i][i])))
    }
}

/// Back substitution rows `i` down to `0` over the in-place vector `x`.
pub open spec fn bwd_rec(u: Seq<Seq<int>>, y: Seq<int>, x: Seq<int>, i: int) -> Result<
    Seq<int>,
    SolveError,
>
    decreases i + 1,
{
    if i < 0 {
        Ok(x)
    } else {
        match bwd_step(u, y, x, i) {
            Ok(x2) => bwd_rec(u, y, x2, i - 1),
            Err(e) => Err(e),
        }
    }
}

/// All-zero mantissa vector.
pub open spec fn zeros(n: int) -> Seq<int> {
    Seq::new(n as nat, |i: int| 0)
}

/// Full back substitution `U x = y`.
pub open spec fn bwd_full(u: Seq<Seq<int>>, y: Seq<int>) -> Result<Seq<int>, SolveError> {
    bwd_rec(u, y, zeros(u.len() as int), u.len() as int - 1)
}

// ---------------------------------------------------------------------------
// Executable helpers.
// ---------------------------------------------------------------------------

/// An owned copy of a row of scalars.
pub(crate) fn clone_row(v: &Vec<Fixed>) -> (r: Vec<Fixed>)
    ensures
        r@ == v@,
{
    let n = v.len();
    let mut out: Vec<Fixed> = Vec::new();
    for i in 0..n
        invariant
            v@.len() == n,
            out@.len() == i,
            forall|j: int| 0 <= j < i ==> #[trigger] out@[j] == v@[j],
    {
        out.push(v[i]);
    }
    proof {
        assert(out@ =~= v@);
    }
    out
}

/// The identity laid into an `n` x `m` scalar matrix.
pub fn make_eye_matrix(n: usize, m: usize) -> (r: Vec<Vec<Fixed>>)
    ensures
        mat_vals(r@) == eye_val(n as int, m as int),
{
    let mut eye: Vec<Vec<Fixed>> = Vec::new();
    for i in 0..n
        invariant
            eye@.len() == i,
            forall|j: int|
                0 <= j < i ==> #[trigger] vals(eye@[j]@) == eye_val(n as int, m as int)[j],
    {
        let mut row: Vec<Fixed> = Vec::new();
        for j in 0..m
            invariant
                i < n,
                row@.len() == j,
                forall|k: int| 0 <= k < j ==> #[trigger] row@[k]@ == eye_val(n as int, m as int)[i as int][k],
        {
            if i == j {
                row.push(Fixed::one());
            } else {
                row.push(Fixed::zero());
            }
        }
        proof {
            assert(vals(row@) =~= eye_val(n as int, m as int)[i as int]);
        }
        eye.push(row);
    }
    proof {
        assert(mat_vals(eye@) =~= eye_val(n as int, m as int));
    }
    eye
}

/// The alternating worker tags of the column partition: `evens` at even
/// indices, `odds` at odd ones.
pub fn produce_list_of_intermittent_0s_and_1s(n: usize, odds: usize, evens: usize) -> (r: Vec<
    usize,
>)
    ensures
        r@.len() == n,
        forall|i: int| 0 <= i < n ==> #[trigger] r@[i] == if i % 2 == 0 {
            evens
        } else {
            odds
        },
{
    let mut out: Vec<usize> = Vec::new();
    for i in 0..n
        invariant
            out@.len() == i,
            forall|j: int| 0 <= j < i ==> #[trigger] out@[j] == if j % 2 == 0 {
                evens
            } else {
                odds
            },
    {
        if i % 2 == 0 {
            out.push(evens);
        } else {
            out.push(odds);
        }
    }
    out
}

/// Left-to-right dot product of `a[lo..hi]` with `b[lo..hi]`.
pub(crate) fn dot_range(a: &Vec<Fixed>, b: &Vec<Fixed>, lo: usize, hi: usize) -> (r: Result<
    Fixed,
    SolveError,
>)
    requires
        lo <= hi,
        hi <= a@.len(),
        hi <= b@.len(),
    ensures
        acc_from_ok(vals(a@), vals(b@), lo as int, hi as int) ==> (r matches Ok(f) && f@
            == acc_from(vals(a@), vals(b@), lo as int, hi as int)),
        !acc_from_ok(vals(a@), vals(b@), lo as int, hi as int) ==> r == Err::<Fixed, SolveError>(
            SolveError::NonFiniteResult,
        ),
{
    let ghost va = vals(a@);
    let ghost vb = vals(b@);
    let mut sum = Fixed::zero();
    for c in lo..hi
        invariant
            lo <= c <= hi,
            hi <= a@.len(),
            hi <= b@.len(),
            va == vals(a@),
            vb == vals(b@),
            acc_from_ok(va, vb, lo as int, c as int),
            sum@ == acc_from(va, vb, lo as int, c as int),
    {
        let term = match fx_mul(a[c], b[c]) {
            Ok(t) => t,
            Err(_) => {
                proof {
                    if acc_from_ok(va, vb, lo as int, hi as int) {
                        lemma_acc_from_prefix(va, vb, lo as int, c + 1, hi as int);
                    }
                }
                return Err(SolveError::NonFiniteResult);
            },
        };
        sum = match crate::fixed::fx_add(sum, term) {
            Ok(s) => s,
            Err(_) => {
                proof {
                    if acc_from_ok(va, vb, lo as int, hi as int) {
                        lemma_acc_from_prefix(va, vb, lo as int, c + 1, hi as int);
                    }
                }
                return Err(SolveError::NonFiniteResult);
            },
        };
    }
    Ok(sum)
}

// ---------------------------------------------------------------------------
// Substitutions.
// ---------------------------------------------------------------------------

/// Solve `L y = b` by forward substitution, top row first.
pub fn forward_substitute(lvals: &Vec<Vec<Fixed>>, rhs: &Vec<Fixed>, size: usize) -> (r: Result<
    Vec<Fixed>,
    SolveError,
>)
    requires
        wf_mat(mat_vals(lvals@), size as int),
        rhs@.len() == size,
    ensures
        vec_res_matches(r, fwd_rec(mat_vals(lvals@), vals(rhs@), size as int)),
{
    let ghost lm = mat_vals(lvals@);
    let ghost bm = vals(rhs@);
    let n = size;
    let mut y: Vec<Fixed> = Vec::new();
    proof {
        assert(vals(y@) =~= Seq::<int>::empty());
    }
    for i in 0..n
        invariant
            n == size,
            lvals@.len() == n,
            rhs@.len() == n,
            lm == mat_vals(lvals@),
            bm == vals(rhs@),
            wf_mat(lm, n as int),
            y@.len() == i,
            fwd_rec(lm, bm, i as int) == Ok::<Seq<int>, SolveError>(vals(y@)),
    {
        let ghost yv = vals(y@);
        proof {
            assert(lm[i as int].len() == n);
            assert(lm[i as int] == vals(lvals@[i as int]@));
        }
        let s = match dot_range(&lvals[i], &y, 0, i) {
            Ok(t) => t,
            Err(_) => {
                proof {
                    assert(fwd_rec(lm, bm, i + 1) == Err::<Seq<int>, SolveError>(
                        SolveError::NonFiniteResult,
                    ));
                    lemma_fwd_err_mono(lm, bm, i + 1, n as int, SolveError::NonFiniteResult);
                }
                return Err(SolveError::NonFiniteResult);
            },
        };
        let num = match fx_sub(rhs[i], s) {
            Ok(t) => t,
            Err(_) => {
                proof {
                    assert(fwd_rec(lm, bm, i + 1) == Err::<Seq<int>, SolveError>(
                        SolveError::NonFiniteResult,
                    ));
                    lemma_fwd_err_mono(lm, bm, i + 1, n as int, SolveError::NonFiniteResult);
                }
                return Err(SolveError::NonFiniteResult);
            },
        };
        let d = lvals[i][i];
        if d.is_zero() {
            proof {
                assert(fwd_rec(lm, bm, i + 1) == Err::<Seq<int>, SolveError>(SolveError::Singular));
                lemma_fwd_err_mono(lm, bm, i + 1, n as int, SolveError::Singular);
            }
            return Err(SolveError::Singular);
        }
        let q = match fx_div(num, d) {
            Ok(t) => t,
            Err(_) => {
                proof {
                    assert(fwd_rec(lm, bm, i + 1) == Err::<Seq<int>, SolveError>(
                        SolveError::NonFiniteResult,
                    ));
                    lemma_fwd_err_mono(lm, bm, i + 1, n as int, SolveError::NonFiniteResult);
                }
                return Err(SolveError::NonFiniteResult);
            },
        };
        y.push(q);
        proof {
            assert(vals(y@) =~= yv.push(q@));
            assert(fwd_step(lm, bm, yv, i as int) == Ok::<int, SolveError>(q@));
        }
    }
    Ok(y)
}

/// Solve `U x = y` by back substitution, bottom row first.
pub fn backward_substitution(coeffs: &Vec<Vec<Fixed>>, rhs_dot: &Vec<Fixed>, size: usize) -> (r:
    Result<Vec<Fixed>, SolveError>)
    requires
        wf_mat(mat_vals(coeffs@), size as int),
        rhs_dot@.len() == size,
    ensures
        vec_res_matches(r, bwd_full(mat_vals(coeffs@), vals(rhs_dot@))),
{
    let ghost um = mat_vals(coeffs@);
    let ghost ym = vals(rhs_dot@);
    let n = size;
    let mut x: Vec<Fixed> = Vec::new();
    for i in 0..n
        invariant
            x@.len() == i,
            forall|j: int| 0 <= j < i ==> #[trigger] x@[j]@ == 0,
    {
        x.push(Fixed::zero());
    }
    proof {
        assert(vals(x@) =~= zeros(n as int));
    }
    let mut i = n;
    while i > 0
        invariant
            n == size,
            0 <= i <= n,
            coeffs@.len() == n,
            rhs_dot@.len() == n,
            um == mat_vals(coeffs@),
            ym == vals(rhs_dot@),
            wf_mat(um, n as int),
            x@.len() == n,
            bwd_rec(um, ym, vals(x@), i as int - 1) == bwd_full(um, ym),
        decreases i,
    {
        let row = i - 1;
        let ghost xv = vals(x@);
        proof {
            assert(um[row as int].len() == n);
            assert(um[row as int] == vals(coeffs@[row as int]@));
        }
        let s = match dot_range(&coeffs[row], &x, row, n) {
            Ok(t) => t,
            Err(_) => {
                assert(bwd_step(um, ym, xv, row as int) == Err::<Seq<int>, SolveError>(
                    SolveError::NonFiniteResult,
                ));
                return Err(SolveError::NonFiniteResult);
            },
        };
        let num = match fx_sub(rhs_dot[row], s) {
            Ok(t) => t,
            Err(_) => {
                assert(bwd_step(um, ym, xv, row as int) == Err::<Seq<int>, SolveError>(
                    SolveError::NonFiniteResult,
                ));
                return Err(SolveError::NonFiniteResult);
            },
        };
        let d = coeffs[row][row];
        if d.is_zero() {
            assert(bwd_step(um, ym, xv, row as int) == Err::<Seq<int>, SolveError>(
                SolveError::Singular,
            ));
            return Err(SolveError::Singular);
        }
        let q = match fx_div(num, d) {
            Ok(t) => t,
            Err(_) => {
                assert(bwd_step(um, ym, xv, row as int) == Err::<Seq<int>, SolveError>(
                    SolveError::NonFiniteResult,
                ));
                return Err(SolveError::NonFiniteResult);
            },
        };
        x.set(row, q);
        proof {
            assert(vals(x@) =~= xv.update(row as int, q@));
            assert(bwd_step(um, ym, xv, row as int) == Ok::<Seq<int>, SolveError>(vals(x@)));
        }
        i = row;
    }
    Ok(x)
}

} // verus!

verus! {

/// One pivot column of the factorization: pivot search and swap, then
/// elimination, as a value-level function of the three matrices.
pub open spec fn lu_step(u: Seq<Seq<int>>, l: Seq<Seq<int>>, p: Seq<Seq<int>>, i: int) -> Result<
    (Seq<Seq<int>>, Seq<Seq<int>>, Seq<Seq<int>>),
    SolveError,
> {
    let pr = pivot_row(u, i, i);
    if pr < 0 {
        Err(SolveError::Singular)
    } else {
        let u1 = swap_rows_val(u, i, pr);
        let p1 = swap_rows_val(p, i, pr);
        if elim_col_ok(u1, i) {
            Ok((elim_col(u1, i), elim_lvals(u1, l, i), p1))
        } else {
            Err(SolveError::NonFiniteResult)
        }
    }
}

/// `lu_rec` advances by exactly one `lu_step` per column.
pub proof fn lemma_lu_rec_unfold(u: Seq<Seq<int>>, l: Seq<Seq<int>>, p: Seq<Seq<int>>, i: int)
    requires
        0 <= i < u.len(),
    ensures
        lu_rec(u, l, p, i) == (match lu_step(u, l, p, i) {
            Ok((u2, l2, p2)) => lu_rec(u2, l2, p2, i + 1),
            Err(e) => Err(e),
        }),
{
}

/// A nonnegative pivot result lies in the searched range and is nonzero.
pub proof fn lemma_pivot_row_props(m: Seq<Seq<int>>, col: int, k: int)
    requires
        0 <= k,
    ensures
        ({
            let pr = pivot_row(m, col, k);
            pr == -1 || (k <= pr < m.len() && m[pr][col] != 0)
        }),
    decreases m.len() - k,
{
    if k < m.len() && m[k][col] == 0 {
        lemma_pivot_row_props(m, col, k + 1);
    }
}

/// The first row at or below `col` with a nonzero entry in column `col`,
/// or `n` when the rest of the column is zero.
fn find_pivot(m: &Vec<Vec<Fixed>>, col: usize, n: usize) -> (r: usize)
    requires
        col < n,
        m@.len() == n,
        forall|t: int| 0 <= t < n ==> #[trigger] m@[t]@.len() == n,
    ensures
        ({
            let pr = pivot_row(mat_vals(m@), col as int, col as int);
            if pr < 0 {
                r == n
            } else {
                r as int == pr
            }
        }),
{
    let ghost mm = mat_vals(m@);
    let mut k = col;
    while k < n
        invariant
            col < n,
            col <= k <= n,
            m@.len() == n,
            forall|t: int| 0 <= t < n ==> #[trigger] m@[t]@.len() == n,
            mm == mat_vals(m@),
            pivot_row(mm, col as int, col as int) == pivot_row(mm, col as int, k as int),
        decreases n - k,
    {
        if !m[k][col].is_zero() {
            proof {
                assert(mm[k as int][col as int] != 0);
            }
            return k;
        }
        proof {
            assert(mm[k as int][col as int] == 0);
        }
        k += 1;
    }
    proof {
        assert(pivot_row(mm, col as int, n as int) == -1);
    }
    n
}

/// Exchange two rows of a scalar matrix.
fn swap_vec_rows(m: &mut Vec<Vec<Fixed>>, i: usize, k: usize)
    requires
        i < old(m)@.len(),
        k < old(m)@.len(),
    ensures
        final(m)@.len() == old(m)@.len(),
        mat_vals(final(m)@) == swap_rows_val(mat_vals(old(m)@), i as int, k as int),
        forall|t: int|
            0 <= t < old(m)@.len() && t != i && t != k ==> final(m)@[t]@ == #[trigger] old(m)@[t]@,
        final(m)@[i as int]@ == old(m)@[k as int]@,
        final(m)@[k as int]@ == old(m)@[i as int]@,
{
    let ri = clone_row(&m[i]);
    let rk = clone_row(&m[k]);
    m.set(i, rk);
    m.set(k, ri);
    proof {
        assert(mat_vals(m@) =~= swap_rows_val(mat_vals(old(m)@), i as int, k as int));
    }
}

} // verus!

verus! {

/// All rows of a scalar matrix present and `n` long.
pub open spec fn rows_n(m: Seq<Vec<Fixed>>, n: int) -> bool {
    m.len() == n && forall|t: int| 0 <= t < n ==> #[trigger] m[t]@.len() == n
}

/// Process pivot column `i` in place: search and swap the pivot row in the
/// coefficient and permutation matrices, record the multipliers in L, and
/// eliminate the rows below the pivot.
#[verifier::rlimit(50)]
fn eliminate_column(
    coeffs: &mut Vec<Vec<Fixed>>,
    lvals: &mut Vec<Vec<Fixed>>,
    permutation: &mut Vec<Vec<Fixed>>,
    i: usize,
    n: usize,
) -> (r: Result<(), SolveError>)
    requires
        i < n,
        rows_n(old(coeffs)@, n as int),
        rows_n(old(lvals)@, n as int),
        rows_n(old(permutation)@, n as int),
    ensures
        rows_n(final(coeffs)@, n as int),
        rows_n(final(lvals)@, n as int),
        rows_n(final(permutation)@, n as int),
        (match lu_step(
            mat_vals(old(coeffs)@),
            mat_vals(old(lvals)@),
            mat_vals(old(permutation)@),
            i as int,
        ) {
            Ok(s) => r matches Ok(()) && mat_vals(final(coeffs)@) == s.0 && mat_vals(
                final(lvals)@,
            ) == s.1 && mat_vals(final(permutation)@) == s.2,
            Err(e) => r == Err::<(), SolveError>(e),
        }),
{
    let ghost u0 = mat_vals(coeffs@);
    let ghost l0 = mat_vals(lvals@);
    let ghost p0 = mat_vals(permutation@);
    let piv = find_pivot(coeffs, i, n);
    proof {
        lemma_pivot_row_props(u0, i as int, i as int);
    }
    if piv == n {
        proof {
            assert(pivot_row(u0, i as int, i as int) == -1);
        }
        return Err(SolveError::Singular);
    }
    swap_vec_rows(coeffs, i, piv);
    swap_vec_rows(permutation, i, piv);
    let ghost u1 = mat_vals(coeffs@);
    let ghost p1 = mat_vals(permutation@);
    proof {
        assert(u1 =~= swap_rows_val(u0, i as int, piv as int));
        assert(p1 =~= swap_rows_val(p0, i as int, piv as int));
        assert(u1[i as int] == u0[piv as int]);
        assert(u1[i as int][i as int] != 0);
        assert forall|t: int| 0 <= t < n implies #[trigger] coeffs@[t]@.len() == n by {
            assert(u1[t].len() == swap_rows_val(u0, i as int, piv as int)[t].len());
            assert(vals(coeffs@[t]@).len() == u1[t].len());
        }
        assert forall|t: int| 0 <= t < n implies #[trigger] permutation@[t]@.len() == n by {
            assert(p1[t].len() == swap_rows_val(p0, i as int, piv as int)[t].len());
            assert(vals(permutation@[t]@).len() == p1[t].len());
        }
    }
    let pivot_val = coeffs[i][i];
    let row_i = clone_row(&coeffs[i]);
    let mut j = i + 1;
    while j < n
        invariant
            i < j <= n,
            i < n,
            piv < n,
            rows_n(coeffs@, n as int),
            rows_n(lvals@, n as int),
            rows_n(permutation@, n as int),
            u0 == mat_vals(old(coeffs)@),
            l0 == mat_vals(old(lvals)@),
            p0 == mat_vals(old(permutation)@),
            pivot_row(u0, i as int, i as int) == piv as int,
            u1 == swap_rows_val(u0, i as int, piv as int),
            p1 == swap_rows_val(p0, i as int, piv as int),
            mat_vals(permutation@) == p1,
            u1.len() == n,
            forall|t: int| 0 <= t < n ==> #[trigger] u1[t].len() == n,
            l0.len() == n,
            forall|t: int| 0 <= t < n ==> #[trigger] l0[t].len() == n,
            u1[i as int][i as int] != 0,
            pivot_val@ == u1[i as int][i as int],
            row_i@.len() == n,
            vals(row_i@) == u1[i as int],
            forall|t: int| 0 <= t <= i ==> vals(#[trigger] coeffs@[t]@) == u1[t],
            forall|t: int| j <= t < n ==> vals(#[trigger] coeffs@[t]@) == u1[t],
            forall|t: int|
                i < t < j ==> vals(#[trigger] coeffs@[t]@) == row_after_elim(
                    u1[t],
                    u1[i as int],
                    div_val(u1[t][i as int], u1[i as int][i as int]),
                    i as int,
                ),
            forall|t: int|
                i < t < j ==> op_ok(FxOp::Div, #[trigger] u1[t][i as int], u1[i as int][i as int])
                    && row_elim_ok(
                    u1[t],
                    u1[i as int],
                    div_val(u1[t][i as int], u1[i as int][i as int]),
                    i as int,
                ),
            forall|t: int| 0 <= t <= i || j <= t < n ==> vals(#[trigger] lvals@[t]@) == l0[t],
            forall|t: int|
                i < t < j ==> vals(#[trigger] lvals@[t]@) == l0[t].update(
                    i as int,
                    div_val(u1[t][i as int], u1[i as int][i as int]),
                ),
        decreases n - j,
    {
        let f = match fx_div(coeffs[j][i], pivot_val) {
            Ok(t) => t,
            Err(_) => {
                proof {
                    assert(!op_ok(FxOp::Div, u1[j as int][i as int], u1[i as int][i as int]));
                    assert(!elim_col_ok(u1, i as int));
                }
                return Err(SolveError::NonFiniteResult);
            },
        };
        let mut lr = clone_row(&lvals[j]);
        lr.set(i, f);
        lvals.set(j, lr);
        proof {
            assert(vals(lvals@[j as int]@) =~= l0[j as int].update(
                i as int,
                div_val(u1[j as int][i as int], u1[i as int][i as int]),
            ));
        }
        let mut nr: Vec<Fixed> = Vec::new();
        let mut c: usize = 0;
        while c < n
            invariant
                0 <= c <= n,
                i < j < n,
                piv < n,
                rows_n(coeffs@, n as int),
                rows_n(lvals@, n as int),
                rows_n(permutation@, n as int),
                u0 == mat_vals(old(coeffs)@),
                l0 == mat_vals(old(lvals)@),
                p0 == mat_vals(old(permutation)@),
                pivot_row(u0, i as int, i as int) == piv as int,
                u1 == swap_rows_val(u0, i as int, piv as int),
                u1.len() == n,
                forall|t: int| 0 <= t < n ==> #[trigger] u1[t].len() == n,
                vals(coeffs@[j as int]@) == u1[j as int],
                row_i@.len() == n,
                vals(row_i@) == u1[i as int],
                f@ == div_val(u1[j as int][i as int], u1[i as int][i as int]),
                nr@.len() == c,
                forall|t: int|
                    0 <= t < c ==> #[trigger] nr@[t]@ == row_after_elim(
                        u1[j as int],
                        u1[i as int],
                        f@,
                        i as int,
                    )[t],
                forall|t: int|
                    0 <= t < c && t != i ==> op_ok(FxOp::Mul, f@, #[trigger] u1[i as int][t])
                        && op_ok(FxOp::Sub, u1[j as int][t], mul_val(f@, u1[i as int][t])),
            decreases n - c,
        {
            if c == i {
                nr.push(Fixed::zero());
            } else {
                let t = match fx_mul(f, row_i[c]) {
                    Ok(v) => v,
                    Err(_) => {
                        proof {
                            assert(!op_ok(FxOp::Mul, f@, u1[i as int][c as int]));
                            assert(!row_elim_ok(u1[j as int], u1[i as int], f@, i as int));
                            assert(!elim_col_ok(u1, i as int));
                        }
                        return Err(SolveError::NonFiniteResult);
                    },
                };
                let v = match fx_sub(coeffs[j][c], t) {
                    Ok(v) => v,
                    Err(_) => {
                        proof {
                            assert(u1[j as int][c as int] == coeffs@[j as int]@[c as int]@);
                            assert(!op_ok(
                                FxOp::Sub,
                                u1[j as int][c as int],
                                mul_val(f@, u1[i as int][c as int]),
                            ));
                            assert(!row_elim_ok(u1[j as int], u1[i as int], f@, i as int));
                            assert(!elim_col_ok(u1, i as int));
                        }
                        return Err(SolveError::NonFiniteResult);
                    },
                };
                nr.push(v);
            }
            c += 1;
        }
        proof {
            assert(vals(nr@) =~= row_after_elim(u1[j as int], u1[i as int], f@, i as int));
            assert(row_elim_ok(u1[j as int], u1[i as int], f@, i as int));
        }
        coeffs.set(j, nr);
        j += 1;
    }
    proof {
        assert forall|t: int|
            i < t < u1.len() implies op_ok(
            FxOp::Div,
            #[trigger] u1[t][i as int],
            u1[i as int][i as int],
        ) && row_elim_ok(
            u1[t],
            u1[i as int],
            div_val(u1[t][i as int], u1[i as int][i as int]),
            i as int,
        ) by {}
        assert(elim_col_ok(u1, i as int));
        assert(mat_vals(coeffs@) =~= elim_col(u1, i as int));
        assert(mat_vals(lvals@) =~= elim_lvals(u1, l0, i as int));
    }
    Ok(())
}

} // verus!

verus! {

/// Valid input shapes for the eliminator: a nonempty square matrix and a
/// right-hand side of matching length.
pub open spec fn lu_shape_ok(a: Seq<Seq<int>>, b: Seq<int>) -> bool {
    &&& a.len() >= 1
    &&& forall|i: int| 0 <= i < a.len() ==> #[trigger] a[i].len() == a.len()
    &&& b.len() == a.len()
}

/// The permuted right-hand side, forward substitution, then back
/// substitution, applied to an already- or to-be-factored state.
pub open spec fn elim_solve_spec(
    u: Seq<Seq<int>>,
    l: Seq<Seq<int>>,
    p: Seq<Seq<int>>,
    b: Seq<int>,
) -> Result<Seq<int>, SolveError> {
    match lu_rec(u, l, p, 0) {
        Err(e) => Err(e),
        Ok(s) => match crate::kernel::mat_row_acc_result(FxOp::Mul, s.2, b) {
            Err(e) => Err(e),
            Ok(pb) => match fwd_rec(s.1, pb, s.1.len() as int) {
                Err(e) => Err(e),
                Ok(y) => bwd_full(s.0, y),
            },
        },
    }
}

/// What one whole LU solve returns for coefficient matrix `a` and
/// right-hand side `b`.
pub open spec fn lu_solve_spec(a: Seq<Seq<int>>, b: Seq<int>) -> Result<Seq<int>, SolveError> {
    elim_solve_spec(
        a,
        eye_val(a.len() as int, a.len() as int),
        eye_val(a.len() as int, a.len() as int),
        b,
    )
}

/// An owned copy of a scalar matrix.
fn clone_mat(v: &Vec<Vec<Fixed>>) -> (r: Vec<Vec<Fixed>>)
    ensures
        r@.len() == v@.len(),
        forall|t: int| 0 <= t < v@.len() ==> #[trigger] r@[t]@ == v@[t]@,
        mat_vals(r@) == mat_vals(v@),
{
    let n = v.len();
    let mut out: Vec<Vec<Fixed>> = Vec::new();
    for i in 0..n
        invariant
            v@.len() == n,
            out@.len() == i,
            forall|t: int| 0 <= t < i ==> #[trigger] out@[t]@ == v@[t]@,
    {
        let row = clone_row(&v[i]);
        out.push(row);
    }
    proof {
        assert(mat_vals(out@) =~= mat_vals(v@));
    }
    out
}

/// The in-place LU eliminator: the coefficient matrix, the L values, the
/// permutation record, the right-hand side and the dimension.
pub struct EliminatorSolver {
    /// Coefficient matrix; becomes U in place during factorization.
    pub coeffs: Vec<Vec<Fixed>>,
    /// Elimination multipliers with an explicit unit diagonal.
    pub lvals: Vec<Vec<Fixed>>,
    /// Permutation matrix, row-swapped alongside the coefficients.
    pub permutation: Vec<Vec<Fixed>>,
    /// Right-hand side of the system.
    pub rhs: Vec<Fixed>,
    /// Dimension of the (square) system.
    pub n: usize,
}

impl EliminatorSolver {
    /// The three matrices are square of dimension `n` and the right-hand
    /// side has length `n`.
    pub open spec fn wf(&self) -> bool {
        &&& rows_n(self.coeffs@, self.n as int)
        &&& rows_n(self.lvals@, self.n as int)
        &&& rows_n(self.permutation@, self.n as int)
        &&& self.rhs@.len() == self.n
    }

    /// Set up a solver: copy the coefficients and the right-hand side and
    /// lay identity matrices for L and the permutation record.
    pub fn new(coefficients: &Vec<Vec<Fixed>>, right_hand_side: &Vec<Fixed>) -> (r: Result<
        EliminatorSolver,
        SolveError,
    >)
        ensures
            lu_shape_ok(mat_vals(coefficients@), vals(right_hand_side@)) ==> (r matches Ok(s)
                && s.wf() && s.n == coefficients@.len() && mat_vals(s.coeffs@) == mat_vals(
                coefficients@,
            ) && mat_vals(s.lvals@) == eye_val(
                coefficients@.len() as int,
                coefficients@.len() as int,
            ) && mat_vals(s.permutation@) == eye_val(
                coefficients@.len() as int,
                coefficients@.len() as int,
            ) && vals(s.rhs@) == vals(right_hand_side@)),
            !lu_shape_ok(mat_vals(coefficients@), vals(right_hand_side@)) ==> r == Err::<
                EliminatorSolver,
                SolveError,
            >(SolveError::ShapeMismatch),
    {
        let n = coefficients.len();
        if n == 0 {
            return Err(SolveError::ShapeMismatch);
        }
        for i in 0..n
            invariant
                coefficients@.len() == n,
                forall|t: int| 0 <= t < i ==> #[trigger] coefficients@[t]@.len() == n,
        {
            if coefficients[i].len() != n {
                assert(mat_vals(coefficients@)[i as int].len() != n);
                return Err(SolveError::ShapeMismatch);
            }
        }
        if right_hand_side.len() != n {
            return Err(SolveError::ShapeMismatch);
        }
        let coeffs = clone_mat(coefficients);
        let rhs = clone_row(right_hand_side);
        let lvals = make_eye_matrix(n, n);
        let permutation = make_eye_matrix(n, n);
        proof {
            assert(mat_vals(lvals@).len() == n);
            assert(lvals@.len() == n);
            assert(mat_vals(permutation@).len() == n);
            assert(permutation@.len() == n);
            assert forall|t: int| 0 <= t < n implies #[trigger] lvals@[t]@.len() == n by {
                assert(mat_vals(lvals@)[t] == vals(lvals@[t]@));
                assert(mat_vals(lvals@)[t] == eye_val(n as int, n as int)[t]);
                assert(eye_val(n as int, n as int)[t].len() == n);
            }
            assert forall|t: int| 0 <= t < n implies #[trigger] permutation@[t]@.len() == n by {
                assert(mat_vals(permutation@)[t] == vals(permutation@[t]@));
                assert(mat_vals(permutation@)[t] == eye_val(n as int, n as int)[t]);
                assert(eye_val(n as int, n as int)[t].len() == n);
            }
        }
        Ok(EliminatorSolver { coeffs, lvals, permutation, rhs, n })
    }

    /// Factor the coefficient matrix in place, one pivot column after the
    /// other: pivot search and swap, then elimination of the rows below.
    /// (A parallel schedule that hands disjoint row sets of each column to
    /// workers between barriers has exactly this column-by-column effect,
    /// so this sequential elimination is what any such schedule computes.)
    fn pivot_factor_eliminate_parallel_col(&mut self) -> (r: Result<(), SolveError>)
        requires
            old(self).wf(),
        ensures
            final(self).wf(),
            final(self).n == old(self).n,
            final(self).rhs@ == old(self).rhs@,
            (match lu_rec(
                mat_vals(old(self).coeffs@),
                mat_vals(old(self).lvals@),
                mat_vals(old(self).permutation@),
                0,
            ) {
                Ok(s) => r matches Ok(()) && mat_vals(final(self).coeffs@) == s.0 && mat_vals(
                    final(self).lvals@,
                ) == s.1 && mat_vals(final(self).permutation@) == s.2,
                Err(e) => r == Err::<(), SolveError>(e),
            }),
    {
        let n = self.n;
        let mut i: usize = 0;
        while i < n
            invariant
                i <= n,
                n == old(self).n,
                self.n == n,
                self.rhs@ == old(self).rhs@,
                self.rhs@.len() == n,
                rows_n(self.coeffs@, n as int),
                rows_n(self.lvals@, n as int),
                rows_n(self.permutation@, n as int),
                lu_rec(
                    mat_vals(old(self).coeffs@),
                    mat_vals(old(self).lvals@),
                    mat_vals(old(self).permutation@),
                    0,
                ) == lu_rec(
                    mat_vals(self.coeffs@),
                    mat_vals(self.lvals@),
                    mat_vals(self.permutation@),
                    i as int,
                ),
            decreases n - i,
        {
            let ghost uc = mat_vals(self.coeffs@);
            let ghost lc = mat_vals(self.lvals@);
            let ghost pc = mat_vals(self.permutation@);
            match eliminate_column(
                &mut self.coeffs,
                &mut self.lvals,
                &mut self.permutation,
                i,
                n,
            ) {
                Ok(()) => {
                    proof {
                        lemma_lu_rec_unfold(uc, lc, pc, i as int);
                    }
                },
                Err(e) => {
                    proof {
                        lemma_lu_rec_unfold(uc, lc, pc, i as int);
                    }
                    return Err(e);
                },
            }
            i += 1;
        }
        Ok(())
    }

    /// Permute the right-hand side and run forward substitution on L.
    fn forward_sub_inner_prod_perm_rhs(&self) -> (r: Result<Vec<Fixed>, SolveError>)
        requires
            self.wf(),
        ensures
            vec_res_matches(
                r,
                match crate::kernel::mat_row_acc_result(
                    FxOp::Mul,
                    mat_vals(self.permutation@),
                    vals(self.rhs@),
                ) {
                    Err(e) => Err(e),
                    Ok(pb) => fwd_rec(mat_vals(self.lvals@), pb, self.n as int),
                },
            ),
    {
        let dot_prod = match crate::kernel::mat_row_acc(FxOp::Mul, &self.permutation, &self.rhs) {
            Ok(v) => v,
            Err(e) => {
                return Err(e);
            },
        };
        proof {
            assert(vals(dot_prod@).len() == mat_vals(self.permutation@).len());
            lemma_mat_vals_wf(self.lvals@, self.n as int);
            lemma_vec_vals_wf(dot_prod@, self.n as int);
        }
        forward_substitute(&self.lvals, &dot_prod, self.n)
    }

    /// Back substitution of the forward result against the (factored)
    /// coefficient matrix.
    fn backward_sub_coeffs_fws_res(&self, forward_sub_res: &Vec<Fixed>) -> (r: Result<
        Vec<Fixed>,
        SolveError,
    >)
        requires
            self.wf(),
            forward_sub_res@.len() == self.n,
        ensures
            vec_res_matches(r, bwd_full(mat_vals(self.coeffs@), vals(forward_sub_res@))),
    {
        backward_substitution(&self.coeffs, forward_sub_res, self.n)
    }

    /// Factor `A` in place and solve `A x = b`: elimination with partial
    /// pivoting, the permuted right-hand side, forward substitution, back
    /// substitution.  Whenever the factorization itself succeeds, the
    /// fields afterwards hold exactly its U, L and P (also when a later
    /// substitution step fails); dimension and right-hand side are kept.
    pub fn factorize_eliminate_solve(&mut self) -> (r: Result<Vec<Fixed>, SolveError>)
        requires
            old(self).wf(),
        ensures
            vec_res_matches(
                r,
                elim_solve_spec(
                    mat_vals(old(self).coeffs@),
                    mat_vals(old(self).lvals@),
                    mat_vals(old(self).permutation@),
                    vals(old(self).rhs@),
                ),
            ),
            final(self).n == old(self).n,
            final(self).rhs@ == old(self).rhs@,
            (match lu_rec(
                mat_vals(old(self).coeffs@),
                mat_vals(old(self).lvals@),
                mat_vals(old(self).permutation@),
                0,
            ) {
                Ok(s) => final(self).wf() && mat_vals(final(self).coeffs@) == s.0 && mat_vals(
                    final(self).lvals@,
                ) == s.1 && mat_vals(final(self).permutation@) == s.2,
                Err(_) => true,
            }),
    {
        match self.pivot_factor_eliminate_parallel_col() {
            Ok(()) => {},
            Err(e) => {
                return Err(e);
            },
        }
        let fws_res = match self.forward_sub_inner_prod_perm_rhs() {
            Ok(v) => v,
            Err(e) => {
                return Err(e);
            },
        };
        proof {
            if self.n > 0 {
                let pbr = crate::kernel::mat_row_acc_result(
                    FxOp::Mul,
                    mat_vals(self.permutation@),
                    vals(self.rhs@),
                );
                lemma_fwd_len(mat_vals(self.lvals@), pbr->Ok_0, self.n as int);
            }
            assert(vals(fws_res@).len() == fws_res@.len());
        }
        self.backward_sub_coeffs_fws_res(&fws_res)
    }
}

} // verus!
