//! Vector kernel: elementwise and reduction arithmetic over dense vectors and
//! row-major matrices of `Fixed` scalars, plus the diagonal utilities and the
//! elementwise convergence test.
//!
//! Every executable function is pinned to a spec-level result function over
//! mantissa sequences: the spec says exactly which value comes back and
//! exactly which error is reported on which inputs.

use vstd::prelude::*;

use crate::fixed::{fits, fx_add, fx_op, int_abs, mul_val, op_ok, op_val, Fixed, FxOp, SolveError, SCALE};

verus! {

/// Mantissas of a vector of scalars.
pub open spec fn vals(s: Seq<Fixed>) -> Seq<int> {
    Seq::new(s.len(), |i: int| s[i]@)
}

/// Mantissas of a row-major matrix.
pub open spec fn mat_vals(m: Seq<Vec<Fixed>>) -> Seq<Seq<int>> {
    Seq::new(m.len(), |i: int| vals(m[i]@))
}

/// Every row as long as the matrix is tall.
pub open spec fn is_square(m: Seq<Seq<int>>) -> bool {
    forall|i: int| 0 <= i < m.len() ==> #[trigger] m[i].len() == m.len()
}

/// Does a result over scalars match a spec-level result over mantissas?
pub open spec fn sc_res_matches(r: Result<Fixed, SolveError>, s: Result<int, SolveError>) -> bool {
    match (r, s) {
        (Ok(f), Ok(v)) => f@ == v,
        (Err(e1), Err(e2)) => e1 == e2,
        _ => false,
    }
}

/// Does a result over vectors match a spec-level result over mantissa sequences?
pub open spec fn vec_res_matches(
    r: Result<Vec<Fixed>, SolveError>,
    s: Result<Seq<int>, SolveError>,
) -> bool {
    match (r, s) {
        (Ok(v), Ok(sq)) => vals(v@) == sq,
        (Err(e1), Err(e2)) => e1 == e2,
        _ => false,
    }
}

/// Does a result over matrices match a spec-level result over mantissa rows?
pub open spec fn mat_res_matches(
    r: Result<Vec<Vec<Fixed>>, SolveError>,
    s: Result<Seq<Seq<int>>, SolveError>,
) -> bool {
    match (r, s) {
        (Ok(m), Ok(sq)) => mat_vals(m@) == sq,
        (Err(e1), Err(e2)) => e1 == e2,
        _ => false,
    }
}

// ---------------------------------------------------------------------------
// Elementwise vector-vector operations.
// ---------------------------------------------------------------------------

/// Every elementwise step of `op` is defined and fits.
pub open spec fn zip_ok(op: FxOp, a: Seq<int>, b: Seq<int>) -> bool {
    forall|i: int| 0 <= i < a.len() ==> op_ok(op, a[i], #[trigger] b[i])
}

/// The elementwise results of `op`.
pub open spec fn zip_val(op: FxOp, a: Seq<int>, b: Seq<int>) -> Seq<int> {
    Seq::new(a.len(), |i: int| op_val(op, a[i], b[i]))
}

/// What an elementwise vector-vector operation returns.
pub open spec fn zip_result(op: FxOp, a: Seq<int>, b: Seq<int>) -> Result<Seq<int>, SolveError> {
    if a.len() != b.len() {
        Err(SolveError::ShapeMismatch)
    } else if !zip_ok(op, a, b) {
        Err(SolveError::NonFiniteResult)
    } else {
        Ok(zip_val(op, a, b))
    }
}

/// Elementwise vector-vector operation.
pub fn vec_zip(op: FxOp, a: &Vec<Fixed>, b: &Vec<Fixed>) -> (r: Result<Vec<Fixed>, SolveError>)
    ensures
        vec_res_matches(r, zip_result(op, vals(a@), vals(b@))),
{
    let n = a.len();
    if n != b.len() {
        return Err(SolveError::ShapeMismatch);
    }
    let mut out: Vec<Fixed> = Vec::new();
    for i in 0..n
        invariant
            a@.len() == n,
            b@.len() == n,
            out@.len() == i,
            forall|j: int| 0 <= j < i ==> op_ok(op, a@[j]@, #[trigger] b@[j]@),
            forall|j: int| 0 <= j < i ==> #[trigger] out@[j]@ == op_val(op, a@[j]@, b@[j]@),
    {
        match fx_op(op, a[i], b[i]) {
            Ok(f) => out.push(f),
            Err(_) => {
                assert(!op_ok(op, vals(a@)[i as int], vals(b@)[i as int]));
                assert(!zip_ok(op, vals(a@), vals(b@)));
                return Err(SolveError::NonFiniteResult);
            },
        }
    }
    assert(vals(out@) =~= zip_val(op, vals(a@), vals(b@)));
    Ok(out)
}

// ---------------------------------------------------------------------------
// Vector-scalar operations.
// ---------------------------------------------------------------------------

/// Every step of `op` against the scalar is defined and fits.
pub open spec fn scl_ok(op: FxOp, a: Seq<int>, s: int) -> bool {
    forall|i: int| 0 <= i < a.len() ==> op_ok(op, #[trigger] a[i], s)
}

/// The elementwise results of `op` against the scalar.
pub open spec fn scl_val(op: FxOp, a: Seq<int>, s: int) -> Seq<int> {
    Seq::new(a.len(), |i: int| op_val(op, a[i], s))
}

/// What a vector-scalar operation returns.
pub open spec fn scl_result(op: FxOp, a: Seq<int>, s: int) -> Result<Seq<int>, SolveError> {
    if !scl_ok(op, a, s) {
        Err(SolveError::NonFiniteResult)
    } else {
        Ok(scl_val(op, a, s))
    }
}

/// Elementwise vector-scalar operation.
pub fn vec_scl(op: FxOp, a: &Vec<Fixed>, s: Fixed) -> (r: Result<Vec<Fixed>, SolveError>)
    ensures
        vec_res_matches(r, scl_result(op, vals(a@), s@)),
{
    let n = a.len();
    let mut out: Vec<Fixed> = Vec::new();
    for i in 0..n
        invariant
            a@.len() == n,
            out@.len() == i,
            forall|j: int| 0 <= j < i ==> op_ok(op, #[trigger] a@[j]@, s@),
            forall|j: int| 0 <= j < i ==> #[trigger] out@[j]@ == op_val(op, a@[j]@, s@),
    {
        match fx_op(op, a[i], s) {
            Ok(f) => out.push(f),
            Err(_) => {
                assert(!op_ok(op, vals(a@)[i as int], s@));
                assert(!scl_ok(op, vals(a@), s@));
                return Err(SolveError::NonFiniteResult);
            },
        }
    }
    assert(vals(out@) =~= scl_val(op, vals(a@), s@));
    Ok(out)
}

// ---------------------------------------------------------------------------
// Accumulating (reduction) operations; `Mul` accumulation is the dot product.
// ---------------------------------------------------------------------------

/// Left-to-right partial sum of the first `n` elementwise results.
pub open spec fn acc_val(op: FxOp, a: Seq<int>, b: Seq<int>, n: int) -> int
    decreases n,
{
    if n <= 0 {
        0
    } else {
        acc_val(op, a, b, n - 1) + op_val(op, a[n - 1], b[n - 1])
    }
}

/// Every elementwise step and every partial sum of the first `n` fits.
pub open spec fn acc_ok(op: FxOp, a: Seq<int>, b: Seq<int>, n: int) -> bool
    decreases n,
{
    if n <= 0 {
        true
    } else {
        acc_ok(op, a, b, n - 1) && op_ok(op, a[n - 1], b[n - 1]) && fits(acc_val(op, a, b, n))
    }
}

/// A left-to-right dot product of mantissa sequences.
pub open spec fn dot_val(a: Seq<int>, b: Seq<int>) -> int {
    acc_val(FxOp::Mul, a, b, a.len() as int)
}

/// What an accumulating vector-vector operation returns.
pub open spec fn acc_result(op: FxOp, a: Seq<int>, b: Seq<int>) -> Result<int, SolveError> {
    if a.len() != b.len() {
        Err(SolveError::ShapeMismatch)
    } else if !acc_ok(op, a, b, a.len() as int) {
        Err(SolveError::NonFiniteResult)
    } else {
        Ok(acc_val(op, a, b, a.len() as int))
    }
}

/// If all partial sums up to `n` fit, so do those up to any earlier `m`.
pub proof fn lemma_acc_ok_prefix(op: FxOp, a: Seq<int>, b: Seq<int>, m: int, n: int)
    requires
        m <= n,
        acc_ok(op, a, b, n),
    ensures
        acc_ok(op, a, b, m),
    decreases n - m,
{
    if m < n {
        lemma_acc_ok_prefix(op, a, b, m, n - 1);
    }
}

/// Accumulating vector-vector operation (the reduction of the kernel).
pub fn vec_acc(op: FxOp, a: &Vec<Fixed>, b: &Vec<Fixed>) -> (r: Result<Fixed, SolveError>)
    ensures
        sc_res_matches(r, acc_result(op, vals(a@), vals(b@))),
{
    let n = a.len();
    if n != b.len() {
        return Err(SolveError::ShapeMismatch);
    }
    let ghost va = vals(a@);
    let ghost vb = vals(b@);
    let mut sum = Fixed::zero();
    for i in 0..n
        invariant
            a@.len() == n,
            b@.len() == n,
            va == vals(a@),
            vb == vals(b@),
            acc_ok(op, va, vb, i as int),
            sum@ == acc_val(op, va, vb, i as int),
    {
        let term = match fx_op(op, a[i], b[i]) {
            Ok(t) => t,
            Err(_) => {
                proof {
                    if acc_ok(op, va, vb, n as int) {
                        lemma_acc_ok_prefix(op, va, vb, i + 1, n as int);
                    }
                }
                return Err(SolveError::NonFiniteResult);
            },
        };
        sum = match fx_add(sum, term) {
            Ok(s) => s,
            Err(_) => {
                proof {
                    if acc_ok(op, va, vb, n as int) {
                        lemma_acc_ok_prefix(op, va, vb, i + 1, n as int);
                    }
                }
                return Err(SolveError::NonFiniteResult);
            },
        };
    }
    Ok(sum)
}

/// The dot product `sum a[i]*b[i]`, left to right.
pub fn vec_dot(a: &Vec<Fixed>, b: &Vec<Fixed>) -> (r: Result<Fixed, SolveError>)
    ensures
        sc_res_matches(r, acc_result(FxOp::Mul, vals(a@), vals(b@))),
{
    vec_acc(FxOp::Mul, a, b)
}

// ---------------------------------------------------------------------------
// Matrix operations.
// ---------------------------------------------------------------------------

/// Every row as long as the vector.
pub open spec fn rows_match(m: Seq<Seq<int>>, x: Seq<int>) -> bool {
    forall|i: int| 0 <= i < m.len() ==> #[trigger] m[i].len() == x.len()
}

/// Row-wise accumulation of `op` against a vector; `Mul` is matrix-vector product.
pub open spec fn mat_row_acc_val(op: FxOp, m: Seq<Seq<int>>, x: Seq<int>) -> Seq<int> {
    Seq::new(m.len(), |i: int| acc_val(op, m[i], x, x.len() as int))
}

/// What the row-wise accumulation returns.
pub open spec fn mat_row_acc_result(op: FxOp, m: Seq<Seq<int>>, x: Seq<int>) -> Result<
    Seq<int>,
    SolveError,
> {
    if !rows_match(m, x) {
        Err(SolveError::ShapeMismatch)
    } else if !(forall|i: int|
        0 <= i < m.len() ==> acc_ok(op, #[trigger] m[i], x, x.len() as int)) {
        Err(SolveError::NonFiniteResult)
    } else {
        Ok(mat_row_acc_val(op, m, x))
    }
}

/// Row-wise accumulating matrix-vector operation.
pub fn mat_row_acc(op: FxOp, m: &Vec<Vec<Fixed>>, x: &Vec<Fixed>) -> (r: Result<
    Vec<Fixed>,
    SolveError,
>)
    ensures
        vec_res_matches(r, mat_row_acc_result(op, mat_vals(m@), vals(x@))),
{
    let rows = m.len();
    for i in 0..rows
        invariant
            m@.len() == rows,
            forall|j: int| 0 <= j < i ==> #[trigger] m@[j]@.len() == x@.len(),
    {
        if m[i].len() != x.len() {
            assert(mat_vals(m@)[i as int].len() != vals(x@).len());
            assert(!rows_match(mat_vals(m@), vals(x@)));
            return Err(SolveError::ShapeMismatch);
        }
    }
    let mut out: Vec<Fixed> = Vec::new();
    for i in 0..rows
        invariant
            m@.len() == rows,
            rows_match(mat_vals(m@), vals(x@)),
            out@.len() == i,
            forall|j: int|
                0 <= j < i ==> acc_ok(op, #[trigger] mat_vals(m@)[j], vals(x@), x@.len() as int),
            forall|j: int|
                0 <= j < i ==> #[trigger] out@[j]@ == acc_val(
                    op,
                    mat_vals(m@)[j],
                    vals(x@),
                    x@.len() as int,
                ),
    {
        proof {
            assert(mat_vals(m@)[i as int].len() == vals(x@).len());
            assert(mat_vals(m@)[i as int] == vals(m@[i as int]@));
        }
        match vec_acc(op, &m[i], x) {
            Ok(f) => out.push(f),
            Err(_) => {
                assert(!acc_ok(op, mat_vals(m@)[i as int], vals(x@), x@.len() as int));
                return Err(SolveError::NonFiniteResult);
            },
        }
    }
    assert(vals(out@) =~= mat_row_acc_val(op, mat_vals(m@), vals(x@)));
    Ok(out)
}

/// Shapes agree: same number of rows, rows pairwise equally long.
pub open spec fn mat_shapes_match(a: Seq<Seq<int>>, b: Seq<Seq<int>>) -> bool {
    a.len() == b.len() && forall|i: int|
        0 <= i < a.len() ==> #[trigger] a[i].len() == b[i].len()
}

/// Elementwise results over a matrix pair.
pub open spec fn mat_zip_val(op: FxOp, a: Seq<Seq<int>>, b: Seq<Seq<int>>) -> Seq<Seq<int>> {
    Seq::new(a.len(), |i: int| zip_val(op, a[i], b[i]))
}

/// What an elementwise matrix-matrix operation returns.
pub open spec fn mat_zip_result(op: FxOp, a: Seq<Seq<int>>, b: Seq<Seq<int>>) -> Result<
    Seq<Seq<int>>,
    SolveError,
> {
    if !mat_shapes_match(a, b) {
        Err(SolveError::ShapeMismatch)
    } else if !(forall|i: int| 0 <= i < a.len() ==> zip_ok(op, #[trigger] a[i], b[i])) {
        Err(SolveError::NonFiniteResult)
    } else {
        Ok(mat_zip_val(op, a, b))
    }
}

/// Elementwise matrix-matrix operation.
pub fn mat_zip(op: FxOp, a: &Vec<Vec<Fixed>>, b: &Vec<Vec<Fixed>>) -> (r: Result<
    Vec<Vec<Fixed>>,
    SolveError,
>)
    ensures
        mat_res_matches(r, mat_zip_result(op, mat_vals(a@), mat_vals(b@))),
{
    let rows = a.len();
    if rows != b.len() {
        assert(!mat_shapes_match(mat_vals(a@), mat_vals(b@)));
        return Err(SolveError::ShapeMismatch);
    }
    for i in 0..rows
        invariant
            a@.len() == rows,
            b@.len() == rows,
            forall|j: int| 0 <= j < i ==> #[trigger] a@[j]@.len() == b@[j]@.len(),
    {
        if a[i].len() != b[i].len() {
            assert(mat_vals(a@)[i as int].len() != mat_vals(b@)[i as int].len());
            assert(!mat_shapes_match(mat_vals(a@), mat_vals(b@)));
            return Err(SolveError::ShapeMismatch);
        }
    }
    let mut out: Vec<Vec<Fixed>> = Vec::new();
    for i in 0..rows
        invariant
            a@.len() == rows,
            b@.len() == rows,
            mat_shapes_match(mat_vals(a@), mat_vals(b@)),
            out@.len() == i,
            forall|j: int|
                0 <= j < i ==> zip_ok(op, #[trigger] mat_vals(a@)[j], mat_vals(b@)[j]),
            forall|j: int|
                0 <= j < i ==> #[trigger] vals(out@[j]@) == zip_val(
                    op,
                    mat_vals(a@)[j],
                    mat_vals(b@)[j],
                ),
    {
        proof {
            assert(mat_vals(a@)[i as int].len() == mat_vals(b@)[i as int].len());
            assert(mat_vals(a@)[i as int] == vals(a@[i as int]@));
            assert(mat_vals(b@)[i as int] == vals(b@[i as int]@));
        }
        match vec_zip(op, &a[i], &b[i]) {
            Ok(row) => out.push(row),
            Err(_) => {
                assert(!zip_ok(op, mat_vals(a@)[i as int], mat_vals(b@)[i as int]));
                return Err(SolveError::NonFiniteResult);
            },
        }
    }
    assert(mat_vals(out@) =~= mat_zip_val(op, mat_vals(a@), mat_vals(b@)));
    Ok(out)
}

// ---------------------------------------------------------------------------
// Diagonal utilities.
// ---------------------------------------------------------------------------

/// The main diagonal of a square matrix.
pub open spec fn diag_val(m: Seq<Seq<int>>) -> Seq<int> {
    Seq::new(m.len(), |i: int| m[i][i])
}

/// What diagonal extraction returns.
pub open spec fn diag_result(m: Seq<Seq<int>>) -> Result<Seq<int>, SolveError> {
    if !is_square(m) {
        Err(SolveError::ShapeMismatch)
    } else {
        Ok(diag_val(m))
    }
}

/// Extract the main diagonal; the matrix must be square.
pub fn mat_diag(m: &Vec<Vec<Fixed>>) -> (r: Result<Vec<Fixed>, SolveError>)
    ensures
        vec_res_matches(r, diag_result(mat_vals(m@))),
{
    let n = m.len();
    for i in 0..n
        invariant
            m@.len() == n,
            forall|j: int| 0 <= j < i ==> #[trigger] m@[j]@.len() == n,
    {
        if m[i].len() != n {
            assert(mat_vals(m@)[i as int].len() != mat_vals(m@).len());
            assert(!is_square(mat_vals(m@)));
            return Err(SolveError::ShapeMismatch);
        }
    }
    let mut out: Vec<Fixed> = Vec::new();
    for i in 0..n
        invariant
            m@.len() == n,
            is_square(mat_vals(m@)),
            out@.len() == i,
            forall|j: int| 0 <= j < i ==> #[trigger] out@[j]@ == mat_vals(m@)[j][j],
    {
        proof {
            assert(mat_vals(m@)[i as int].len() == n);
            assert(mat_vals(m@)[i as int] == vals(m@[i as int]@));
        }
        out.push(m[i][i]);
    }
    assert(vals(out@) =~= diag_val(mat_vals(m@)));
    Ok(out)
}

/// A square matrix holding the diagonal of `m` and zeros elsewhere.
pub open spec fn diag_flat_val(m: Seq<Seq<int>>) -> Seq<Seq<int>> {
    Seq::new(m.len(), |i: int| Seq::new(m.len(), |j: int| if i == j {
        m[i][i]
    } else {
        0
    }))
}

/// What the diagonal-flattening returns.
pub open spec fn diag_flat_result(m: Seq<Seq<int>>) -> Result<Seq<Seq<int>>, SolveError> {
    if !is_square(m) {
        Err(SolveError::ShapeMismatch)
    } else {
        Ok(diag_flat_val(m))
    }
}

/// Build the matrix with `m`'s diagonal on its main diagonal, zeros elsewhere.
pub fn mat_diag_flat(m: &Vec<Vec<Fixed>>) -> (r: Result<Vec<Vec<Fixed>>, SolveError>)
    ensures
        mat_res_matches(r, diag_flat_result(mat_vals(m@))),
{
    let n = m.len();
    for i in 0..n
        invariant
            m@.len() == n,
            forall|j: int| 0 <= j < i ==> #[trigger] m@[j]@.len() == n,
    {
        if m[i].len() != n {
            assert(mat_vals(m@)[i as int].len() != mat_vals(m@).len());
            assert(!is_square(mat_vals(m@)));
            return Err(SolveError::ShapeMismatch);
        }
    }
    let mut out: Vec<Vec<Fixed>> = Vec::new();
    for i in 0..n
        invariant
            m@.len() == n,
            is_square(mat_vals(m@)),
            out@.len() == i,
            forall|j: int| 0 <= j < i ==> #[trigger] vals(out@[j]@) == diag_flat_val(mat_vals(m@))[j],
    {
        let mut row: Vec<Fixed> = Vec::new();
        for j in 0..n
            invariant
                m@.len() == n,
                is_square(mat_vals(m@)),
                i < n,
                row@.len() == j,
                forall|k: int|
                    0 <= k < j ==> #[trigger] row@[k]@ == if i as int == k {
                        mat_vals(m@)[i as int][i as int]
                    } else {
                        0
                    },
        {
            proof {
                assert(mat_vals(m@)[i as int].len() == n);
                assert(mat_vals(m@)[i as int] == vals(m@[i as int]@));
            }
            if i == j {
                row.push(m[i][i]);
            } else {
                row.push(Fixed::zero());
            }
        }
        proof {
            assert(vals(row@) =~= diag_flat_val(mat_vals(m@))[i as int]);
        }
        out.push(row);
    }
    assert(mat_vals(out@) =~= diag_flat_val(mat_vals(m@)));
    Ok(out)
}

// ---------------------------------------------------------------------------
// Convergence test.
// ---------------------------------------------------------------------------

/// One component of the elementwise convergence test:
/// `|x - y| <= atol + rtol * |y|`.
pub open spec fn converged_at(x: int, y: int, rtol: int, atol: int) -> bool {
    int_abs(x - y) <= atol + mul_val(rtol, int_abs(y))
}

/// The elementwise convergence test of the kernel, `forall i` over components.
pub open spec fn is_converged(x: Seq<int>, y: Seq<int>, rtol: int, atol: int) -> bool {
    forall|i: int| 0 <= i < x.len() ==> converged_at(#[trigger] x[i], y[i], rtol, atol)
}

/// One component, executed exactly (no overflow is possible here).
fn converged_at_exec(x: Fixed, y: Fixed, rtol: Fixed, atol: Fixed) -> (b: bool)
    ensures
        b == converged_at(x@, y@, rtol@, atol@),
{
    let xm = x.mantissa();
    let ym = y.mantissa();
    let rm = rtol.mantissa();
    let am = atol.mantissa();
    let diff: i128 = xm as i128 - ym as i128;
    let dmag: i128 = if diff >= 0 {
        diff
    } else {
        -diff
    };
    let ymag: u64 = if ym >= 0 {
        ym as u64
    } else {
        let t: i128 = -(ym as i128);
        t as u64
    };
    let rmag: u64 = if rm >= 0 {
        rm as u64
    } else {
        let t: i128 = -(rm as i128);
        t as u64
    };
    proof {
        crate::fixed::lemma_u64_mul_in_u128(rmag as int, ymag as int);
    }
    let prod: u128 = (rmag as u128) * (ymag as u128) / (SCALE as u128);
    proof {
        assert((rmag as int) * (ymag as int) / (SCALE as int) <= (rmag as int) * (ymag as int)) by (nonlinear_arith)
            requires
                0 <= rmag as int,
                0 <= ymag as int,
        ;
    }
    let tol_term: i128 = if rm < 0 && prod > 0 {
        -(prod as i128)
    } else {
        prod as i128
    };
    let rhs: i128 = am as i128 + tol_term;
    dmag <= rhs
}

/// Does every component of `x` agree with `y` to `atol + rtol*|y|`?
///
/// This is the convergence test shared by the iterative solvers and the
/// Newton driver; the vectors must have equal length.
pub fn is_diagonally_converged(
    x: &Vec<Fixed>,
    y: &Vec<Fixed>,
    rtol: Fixed,
    atol: Fixed,
) -> (r: Result<bool, SolveError>)
    ensures
        x@.len() == y@.len() ==> r == Ok::<bool, SolveError>(
            is_converged(vals(x@), vals(y@), rtol@, atol@),
        ),
        x@.len() != y@.len() ==> r == Err::<bool, SolveError>(SolveError::ShapeMismatch),
{
    let n = x.len();
    if n != y.len() {
        return Err(SolveError::ShapeMismatch);
    }
    for i in 0..n
        invariant
            x@.len() == n,
            y@.len() == n,
            forall|j: int|
                0 <= j < i ==> converged_at(#[trigger] vals(x@)[j], vals(y@)[j], rtol@, atol@),
    {
        if !converged_at_exec(x[i], y[i], rtol, atol) {
            assert(!converged_at(vals(x@)[i as int], vals(y@)[i as int], rtol@, atol@));
            assert(!is_converged(vals(x@), vals(y@), rtol@, atol@));
            return Ok(false);
        }
    }
    Ok(true)
}

/// The convergence test is reflexive: any vector agrees with itself under
/// nonnegative tolerances.
pub proof fn lemma_converged_reflexive(v: Seq<int>, rtol: int, atol: int)
    requires
        rtol >= 0,
        atol >= 0,
    ensures
        is_converged(v, v, rtol, atol),
{
    assert forall|i: int| 0 <= i < v.len() implies converged_at(#[trigger] v[i], v[i], rtol, atol) by {
        assert(rtol * int_abs(v[i]) >= 0) by (nonlinear_arith)
            requires
                rtol >= 0,
                int_abs(v[i]) >= 0,
        ;
    }
}

} // verus!

verus! {

// ---------------------------------------------------------------------------
// Scalar-on-the-left broadcast and row-paired accumulation.
// ---------------------------------------------------------------------------

/// Every step of the scalar-first operation is defined and fits.
pub open spec fn scl_left_ok(op: FxOp, s: int, a: Seq<int>) -> bool {
    forall|i: int| 0 <= i < a.len() ==> op_ok(op, s, #[trigger] a[i])
}

/// The elementwise results of the scalar-first operation.
pub open spec fn scl_left_val(op: FxOp, s: int, a: Seq<int>) -> Seq<int> {
    Seq::new(a.len(), |i: int| op_val(op, s, a[i]))
}

/// What a scalar-first broadcast returns.
pub open spec fn scl_left_result(op: FxOp, s: int, a: Seq<int>) -> Result<Seq<int>, SolveError> {
    if !scl_left_ok(op, s, a) {
        Err(SolveError::NonFiniteResult)
    } else {
        Ok(scl_left_val(op, s, a))
    }
}

/// Broadcast a scalar over a vector with the scalar as the left operand.
pub fn vec_scl_left(op: FxOp, s: Fixed, a: &Vec<Fixed>) -> (r: Result<Vec<Fixed>, SolveError>)
    ensures
        vec_res_matches(r, scl_left_result(op, s@, vals(a@))),
{
    let n = a.len();
    let mut out: Vec<Fixed> = Vec::new();
    for i in 0..n
        invariant
            a@.len() == n,
            out@.len() == i,
            forall|j: int| 0 <= j < i ==> op_ok(op, s@, #[trigger] a@[j]@),
            forall|j: int| 0 <= j < i ==> #[trigger] out@[j]@ == op_val(op, s@, a@[j]@),
    {
        match fx_op(op, s, a[i]) {
            Ok(f) => out.push(f),
            Err(_) => {
                assert(!op_ok(op, s@, vals(a@)[i as int]));
                assert(!scl_left_ok(op, s@, vals(a@)));
                return Err(SolveError::NonFiniteResult);
            },
        }
    }
    assert(vals(out@) =~= scl_left_val(op, s@, vals(a@)));
    Ok(out)
}

/// The results of accumulating each row pair of two matrices.
pub open spec fn mat_pair_acc_val(op: FxOp, a: Seq<Seq<int>>, b: Seq<Seq<int>>) -> Seq<int> {
    Seq::new(a.len(), |i: int| acc_val(op, a[i], b[i], a[i].len() as int))
}

/// What row-paired accumulation of two matrices returns (`Mul` pairs each
/// row of `a` with the same row of `b` by dot product).
pub open spec fn mat_pair_acc_result(op: FxOp, a: Seq<Seq<int>>, b: Seq<Seq<int>>) -> Result<
    Seq<int>,
    SolveError,
> {
    if !mat_shapes_match(a, b) {
        Err(SolveError::ShapeMismatch)
    } else if !(forall|i: int|
        0 <= i < a.len() ==> acc_ok(op, #[trigger] a[i], b[i], a[i].len() as int)) {
        Err(SolveError::NonFiniteResult)
    } else {
        Ok(mat_pair_acc_val(op, a, b))
    }
}

/// Accumulate each row pair of two matrices into one scalar per row.
pub fn mat_pair_acc(op: FxOp, a: &Vec<Vec<Fixed>>, b: &Vec<Vec<Fixed>>) -> (r: Result<
    Vec<Fixed>,
    SolveError,
>)
    ensures
        vec_res_matches(r, mat_pair_acc_result(op, mat_vals(a@), mat_vals(b@))),
{
    let rows = a.len();
    if rows != b.len() {
        assert(!mat_shapes_match(mat_vals(a@), mat_vals(b@)));
        return Err(SolveError::ShapeMismatch);
    }
    for i in 0..rows
        invariant
            a@.len() == rows,
            b@.len() == rows,
            forall|j: int| 0 <= j < i ==> #[trigger] a@[j]@.len() == b@[j]@.len(),
    {
        if a[i].len() != b[i].len() {
            assert(mat_vals(a@)[i as int].len() != mat_vals(b@)[i as int].len());
            assert(!mat_shapes_match(mat_vals(a@), mat_vals(b@)));
            return Err(SolveError::ShapeMismatch);
        }
    }
    let mut out: Vec<Fixed> = Vec::new();
    for i in 0..rows
        invariant
            a@.len() == rows,
            b@.len() == rows,
            mat_shapes_match(mat_vals(a@), mat_vals(b@)),
            out@.len() == i,
            forall|j: int|
                0 <= j < i ==> acc_ok(
                    op,
                    #[trigger] mat_vals(a@)[j],
                    mat_vals(b@)[j],
                    mat_vals(a@)[j].len() as int,
                ),
            forall|j: int|
                0 <= j < i ==> #[trigger] out@[j]@ == acc_val(
                    op,
                    mat_vals(a@)[j],
                    mat_vals(b@)[j],
                    mat_vals(a@)[j].len() as int,
                ),
    {
        proof {
            assert(mat_vals(a@)[i as int].len() == mat_vals(b@)[i as int].len());
            assert(mat_vals(a@)[i as int] == vals(a@[i as int]@));
            assert(mat_vals(b@)[i as int] == vals(b@[i as int]@));
        }
        match vec_acc(op, &a[i], &b[i]) {
            Ok(f) => out.push(f),
            Err(_) => {
                assert(!acc_ok(
                    op,
                    mat_vals(a@)[i as int],
                    mat_vals(b@)[i as int],
                    mat_vals(a@)[i as int].len() as int,
                ));
                return Err(SolveError::NonFiniteResult);
            },
        }
    }
    assert(vals(out@) =~= mat_pair_acc_val(op, mat_vals(a@), mat_vals(b@)));
    Ok(out)
}

} // verus!
