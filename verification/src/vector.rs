//! The vector-facing trait surface: elementwise/reduction operations,
//! diagonal utilities, the convergence test and the damping, each with a
//! per-implementation relation that pins the returned value down.

use vstd::prelude::*;

use crate::damp::{dampen_fixed, dampen_spec, dampen_vec, dampen_vec_spec};
use crate::fixed::{Fixed, FxOp, SolveError};
use crate::kernel::{acc_result, diag_result, is_converged, is_diagonally_converged, mat_diag,
    mat_res_matches, mat_row_acc, mat_row_acc_result, mat_vals, mat_zip, mat_zip_result,
    sc_res_matches, scl_result, vals, vec_acc, vec_res_matches, vec_scl, vec_zip, zip_result};

verus! {

/// Push a value and swap-remove the displaced slot: an in-place update.
pub trait PushAndSwapRemove<T>: Sized {
    /// When the operation is allowed (the slot exists).
    spec fn psr_req(&self, i: int) -> bool;

    /// How the new container relates to the old one.
    spec fn psr_post(pre: &Self, post: &Self, i: int, val: &T) -> bool;

    /// Replace slot `i` with `val`.
    fn push_and_swap_remove(&mut self, i: usize, val: T)
        requires
            old(self).psr_req(i as int),
        ensures
            Self::psr_post(old(self), final(self), i as int, &val),
    ;
}

impl<T> PushAndSwapRemove<T> for Vec<T> {
    open spec fn psr_req(&self, i: int) -> bool {
        0 <= i < self@.len()
    }

    open spec fn psr_post(pre: &Vec<T>, post: &Vec<T>, i: int, val: &T) -> bool {
        post@ == pre@.update(i, *val)
    }

    fn push_and_swap_remove(&mut self, i: usize, val: T) {
        let ghost pre = self@;
        self.push(val);
        self.swap_remove(i);
        proof {
            assert(self@ =~= pre.update(i as int, pre.update(i as int, val).push(val).last()));
        }
    }
}

/// The elementwise and reduction arithmetic of the kernel, as methods.
/// Each implementation fixes, through its relation spec functions, exactly
/// what every method returns.
pub trait VectorOps<T, U> {
    /// What `dot` returns.
    spec fn dot_rel(&self, other: &T, r: &Result<U, SolveError>) -> bool;

    /// What `add` returns.
    spec fn add_rel(&self, other: &T, r: &Result<U, SolveError>) -> bool;

    /// What `sub` returns.
    spec fn sub_rel(&self, other: &T, r: &Result<U, SolveError>) -> bool;

    /// What `div` returns.
    spec fn div_rel(&self, other: &T, r: &Result<U, SolveError>) -> bool;

    /// What `rem` returns.
    spec fn rem_rel(&self, other: &T, r: &Result<U, SolveError>) -> bool;

    /// What `mul` returns.
    spec fn mul_rel(&self, other: &T, r: &Result<U, SolveError>) -> bool;

    /// Dot product (or reduction) against `other`.
    fn dot(&self, other: &T) -> (r: Result<U, SolveError>)
        ensures
            self.dot_rel(other, &r),
    ;

    /// Elementwise (or accumulated) addition.
    fn add(&self, other: &T) -> (r: Result<U, SolveError>)
        ensures
            self.add_rel(other, &r),
    ;

    /// Elementwise (or accumulated) subtraction.
    fn sub(&self, other: &T) -> (r: Result<U, SolveError>)
        ensures
            self.sub_rel(other, &r),
    ;

    /// Elementwise (or accumulated) division.
    fn div(&self, other: &T) -> (r: Result<U, SolveError>)
        ensures
            self.div_rel(other, &r),
    ;

    /// Elementwise (or accumulated) remainder.
    fn rem(&self, other: &T) -> (r: Result<U, SolveError>)
        ensures
            self.rem_rel(other, &r),
    ;

    /// Elementwise (or accumulated) multiplication.
    fn mul(&self, other: &T) -> (r: Result<U, SolveError>)
        ensures
            self.mul_rel(other, &r),
    ;
}

/// Vector x vector, accumulated to a scalar (left-to-right reduction).
impl VectorOps<Vec<Fixed>, Fixed> for Vec<Fixed> {
    open spec fn dot_rel(&self, other: &Vec<Fixed>, r: &Result<Fixed, SolveError>) -> bool {
        sc_res_matches(*r, acc_result(FxOp::Mul, vals(self@), vals(other@)))
    }

    open spec fn add_rel(&self, other: &Vec<Fixed>, r: &Result<Fixed, SolveError>) -> bool {
        sc_res_matches(*r, acc_result(FxOp::Add, vals(self@), vals(other@)))
    }

    open spec fn sub_rel(&self, other: &Vec<Fixed>, r: &Result<Fixed, SolveError>) -> bool {
        sc_res_matches(*r, acc_result(FxOp::Sub, vals(self@), vals(other@)))
    }

    open spec fn div_rel(&self, other: &Vec<Fixed>, r: &Result<Fixed, SolveError>) -> bool {
        sc_res_matches(*r, acc_result(FxOp::Div, vals(self@), vals(other@)))
    }

    open spec fn rem_rel(&self, other: &Vec<Fixed>, r: &Result<Fixed, SolveError>) -> bool {
        sc_res_matches(*r, acc_result(FxOp::Rem, vals(self@), vals(other@)))
    }

    open spec fn mul_rel(&self, other: &Vec<Fixed>, r: &Result<Fixed, SolveError>) -> bool {
        sc_res_matches(*r, acc_result(FxOp::Mul, vals(self@), vals(other@)))
    }

    fn dot(&self, other: &Vec<Fixed>) -> (r: Result<Fixed, SolveError>) {
        vec_acc(FxOp::Mul, self, other)
    }

    fn add(&self, other: &Vec<Fixed>) -> (r: Result<Fixed, SolveError>) {
        vec_acc(FxOp::Add, self, other)
    }

    fn sub(&self, other: &Vec<Fixed>) -> (r: Result<Fixed, SolveError>) {
        vec_acc(FxOp::Sub, self, other)
    }

    fn div(&self, other: &Vec<Fixed>) -> (r: Result<Fixed, SolveError>) {
        vec_acc(FxOp::Div, self, other)
    }

    fn rem(&self, other: &Vec<Fixed>) -> (r: Result<Fixed, SolveError>) {
        vec_acc(FxOp::Rem, self, other)
    }

    fn mul(&self, other: &Vec<Fixed>) -> (r: Result<Fixed, SolveError>) {
        vec_acc(FxOp::Mul, self, other)
    }
}

/// Vector x scalar, elementwise; a dot product against a scalar is not an
/// operation, and reports `ShapeMismatch`.
impl VectorOps<Fixed, Vec<Fixed>> for Vec<Fixed> {
    open spec fn dot_rel(&self, other: &Fixed, r: &Result<Vec<Fixed>, SolveError>) -> bool {
        *r == Err::<Vec<Fixed>, SolveError>(SolveError::ShapeMismatch)
    }

    open spec fn add_rel(&self, other: &Fixed, r: &Result<Vec<Fixed>, SolveError>) -> bool {
        vec_res_matches(*r, scl_result(FxOp::Add, vals(self@), other@))
    }

    open spec fn sub_rel(&self, other: &Fixed, r: &Result<Vec<Fixed>, SolveError>) -> bool {
        vec_res_matches(*r, scl_result(FxOp::Sub, vals(self@), other@))
    }

    open spec fn div_rel(&self, other: &Fixed, r: &Result<Vec<Fixed>, SolveError>) -> bool {
        vec_res_matches(*r, scl_result(FxOp::Div, vals(self@), other@))
    }

    open spec fn rem_rel(&self, other: &Fixed, r: &Result<Vec<Fixed>, SolveError>) -> bool {
        vec_res_matches(*r, scl_result(FxOp::Rem, vals(self@), other@))
    }

    open spec fn mul_rel(&self, other: &Fixed, r: &Result<Vec<Fixed>, SolveError>) -> bool {
        vec_res_matches(*r, scl_result(FxOp::Mul, vals(self@), other@))
    }

    fn dot(&self, other: &Fixed) -> (r: Result<Vec<Fixed>, SolveError>) {
        Err(SolveError::ShapeMismatch)
    }

    fn add(&self, other: &Fixed) -> (r: Result<Vec<Fixed>, SolveError>) {
        vec_scl(FxOp::Add, self, *other)
    }

    fn sub(&self, other: &Fixed) -> (r: Result<Vec<Fixed>, SolveError>) {
        vec_scl(FxOp::Sub, self, *other)
    }

    fn div(&self, other: &Fixed) -> (r: Result<Vec<Fixed>, SolveError>) {
        vec_scl(FxOp::Div, self, *other)
    }

    fn rem(&self, other: &Fixed) -> (r: Result<Vec<Fixed>, SolveError>) {
        vec_scl(FxOp::Rem, self, *other)
    }

    fn mul(&self, other: &Fixed) -> (r: Result<Vec<Fixed>, SolveError>) {
        vec_scl(FxOp::Mul, self, *other)
    }
}

/// Vector x vector, elementwise; an elementwise dot product is not an
/// operation, and reports `ShapeMismatch`.
impl VectorOps<Vec<Fixed>, Vec<Fixed>> for Vec<Fixed> {
    open spec fn dot_rel(&self, other: &Vec<Fixed>, r: &Result<Vec<Fixed>, SolveError>) -> bool {
        *r == Err::<Vec<Fixed>, SolveError>(SolveError::ShapeMismatch)
    }

    open spec fn add_rel(&self, other: &Vec<Fixed>, r: &Result<Vec<Fixed>, SolveError>) -> bool {
        vec_res_matches(*r, zip_result(FxOp::Add, vals(self@), vals(other@)))
    }

    open spec fn sub_rel(&self, other: &Vec<Fixed>, r: &Result<Vec<Fixed>, SolveError>) -> bool {
        vec_res_matches(*r, zip_result(FxOp::Sub, vals(self@), vals(other@)))
    }

    open spec fn div_rel(&self, other: &Vec<Fixed>, r: &Result<Vec<Fixed>, SolveError>) -> bool {
        vec_res_matches(*r, zip_result(FxOp::Div, vals(self@), vals(other@)))
    }

    open spec fn rem_rel(&self, other: &Vec<Fixed>, r: &Result<Vec<Fixed>, SolveError>) -> bool {
        vec_res_matches(*r, zip_result(FxOp::Rem, vals(self@), vals(other@)))
    }

    open spec fn mul_rel(&self, other: &Vec<Fixed>, r: &Result<Vec<Fixed>, SolveError>) -> bool {
        vec_res_matches(*r, zip_result(FxOp::Mul, vals(self@), vals(other@)))
    }

    fn dot(&self, other: &Vec<Fixed>) -> (r: Result<Vec<Fixed>, SolveError>) {
        Err(SolveError::ShapeMismatch)
    }

    fn add(&self, other: &Vec<Fixed>) -> (r: Result<Vec<Fixed>, SolveError>) {
        vec_zip(FxOp::Add, self, other)
    }

    fn sub(&self, other: &Vec<Fixed>) -> (r: Result<Vec<Fixed>, SolveError>) {
        vec_zip(FxOp::Sub, self, other)
    }

    fn div(&self, other: &Vec<Fixed>) -> (r: Result<Vec<Fixed>, SolveError>) {
        vec_zip(FxOp::Div, self, other)
    }

    fn rem(&self, other: &Vec<Fixed>) -> (r: Result<Vec<Fixed>, SolveError>) {
        vec_zip(FxOp::Rem, self, other)
    }

    fn mul(&self, other: &Vec<Fixed>) -> (r: Result<Vec<Fixed>, SolveError>) {
        vec_zip(FxOp::Mul, self, other)
    }
}

/// Matrix x vector, row-wise accumulation; `dot` is the matrix-vector
/// product.
impl VectorOps<Vec<Fixed>, Vec<Fixed>> for Vec<Vec<Fixed>> {
    open spec fn dot_rel(&self, other: &Vec<Fixed>, r: &Result<Vec<Fixed>, SolveError>) -> bool {
        vec_res_matches(*r, mat_row_acc_result(FxOp::Mul, mat_vals(self@), vals(other@)))
    }

    open spec fn add_rel(&self, other: &Vec<Fixed>, r: &Result<Vec<Fixed>, SolveError>) -> bool {
        vec_res_matches(*r, mat_row_acc_result(FxOp::Add, mat_vals(self@), vals(other@)))
    }

    open spec fn sub_rel(&self, other: &Vec<Fixed>, r: &Result<Vec<Fixed>, SolveError>) -> bool {
        vec_res_matches(*r, mat_row_acc_result(FxOp::Sub, mat_vals(self@), vals(other@)))
    }

    open spec fn div_rel(&self, other: &Vec<Fixed>, r: &Result<Vec<Fixed>, SolveError>) -> bool {
        vec_res_matches(*r, mat_row_acc_result(FxOp::Div, mat_vals(self@), vals(other@)))
    }

    open spec fn rem_rel(&self, other: &Vec<Fixed>, r: &Result<Vec<Fixed>, SolveError>) -> bool {
        vec_res_matches(*r, mat_row_acc_result(FxOp::Rem, mat_vals(self@), vals(other@)))
    }

    open spec fn mul_rel(&self, other: &Vec<Fixed>, r: &Result<Vec<Fixed>, SolveError>) -> bool {
        vec_res_matches(*r, mat_row_acc_result(FxOp::Mul, mat_vals(self@), vals(other@)))
    }

    fn dot(&self, other: &Vec<Fixed>) -> (r: Result<Vec<Fixed>, SolveError>) {
        mat_row_acc(FxOp::Mul, self, other)
    }

    fn add(&self, other: &Vec<Fixed>) -> (r: Result<Vec<Fixed>, SolveError>) {
        mat_row_acc(FxOp::Add, self, other)
    }

    fn sub(&self, other: &Vec<Fixed>) -> (r: Result<Vec<Fixed>, SolveError>) {
        mat_row_acc(FxOp::Sub, self, other)
    }

    fn div(&self, other: &Vec<Fixed>) -> (r: Result<Vec<Fixed>, SolveError>) {
        mat_row_acc(FxOp::Div, self, other)
    }

    fn rem(&self, other: &Vec<Fixed>) -> (r: Result<Vec<Fixed>, SolveError>) {
        mat_row_acc(FxOp::Rem, self, other)
    }

    fn mul(&self, other: &Vec<Fixed>) -> (r: Result<Vec<Fixed>, SolveError>) {
        mat_row_acc(FxOp::Mul, self, other)
    }
}

/// Matrix x matrix, elementwise; a matrix dot product is not provided and
/// reports `ShapeMismatch`.
impl VectorOps<Vec<Vec<Fixed>>, Vec<Vec<Fixed>>> for Vec<Vec<Fixed>> {
    open spec fn dot_rel(&self, other: &Vec<Vec<Fixed>>, r: &Result<Vec<Vec<Fixed>>, SolveError>) -> bool {
        *r == Err::<Vec<Vec<Fixed>>, SolveError>(SolveError::ShapeMismatch)
    }

    open spec fn add_rel(&self, other: &Vec<Vec<Fixed>>, r: &Result<Vec<Vec<Fixed>>, SolveError>) -> bool {
        mat_res_matches(*r, mat_zip_result(FxOp::Add, mat_vals(self@), mat_vals(other@)))
    }

    open spec fn sub_rel(&self, other: &Vec<Vec<Fixed>>, r: &Result<Vec<Vec<Fixed>>, SolveError>) -> bool {
        mat_res_matches(*r, mat_zip_result(FxOp::Sub, mat_vals(self@), mat_vals(other@)))
    }

    open spec fn div_rel(&self, other: &Vec<Vec<Fixed>>, r: &Result<Vec<Vec<Fixed>>, SolveError>) -> bool {
        mat_res_matches(*r, mat_zip_result(FxOp::Div, mat_vals(self@), mat_vals(other@)))
    }

    open spec fn rem_rel(&self, other: &Vec<Vec<Fixed>>, r: &Result<Vec<Vec<Fixed>>, SolveError>) -> bool {
        mat_res_matches(*r, mat_zip_result(FxOp::Rem, mat_vals(self@), mat_vals(other@)))
    }

    open spec fn mul_rel(&self, other: &Vec<Vec<Fixed>>, r: &Result<Vec<Vec<Fixed>>, SolveError>) -> bool {
        mat_res_matches(*r, mat_zip_result(FxOp::Mul, mat_vals(self@), mat_vals(other@)))
    }

    fn dot(&self, other: &Vec<Vec<Fixed>>) -> (r: Result<Vec<Vec<Fixed>>, SolveError>) {
        Err(SolveError::ShapeMismatch)
    }

    fn add(&self, other: &Vec<Vec<Fixed>>) -> (r: Result<Vec<Vec<Fixed>>, SolveError>) {
        mat_zip(FxOp::Add, self, other)
    }

    fn sub(&self, other: &Vec<Vec<Fixed>>) -> (r: Result<Vec<Vec<Fixed>>, SolveError>) {
        mat_zip(FxOp::Sub, self, other)
    }

    fn div(&self, other: &Vec<Vec<Fixed>>) -> (r: Result<Vec<Vec<Fixed>>, SolveError>) {
        mat_zip(FxOp::Div, self, other)
    }

    fn rem(&self, other: &Vec<Vec<Fixed>>) -> (r: Result<Vec<Vec<Fixed>>, SolveError>) {
        mat_zip(FxOp::Rem, self, other)
    }

    fn mul(&self, other: &Vec<Vec<Fixed>>) -> (r: Result<Vec<Vec<Fixed>>, SolveError>) {
        mat_zip(FxOp::Mul, self, other)
    }
}

/// Diagonal utilities of a square matrix.
pub trait DiagFlat: Sized {
    /// What `diag` returns.
    spec fn diag_rel(&self, r: &Result<Vec<Fixed>, SolveError>) -> bool;

    /// What `diag_flat` returns.
    spec fn diag_flat_rel(&self, r: &Result<Vec<Vec<Fixed>>, SolveError>) -> bool;

    /// What `is_diagonal` returns.
    spec fn is_diagonal_rel(&self, epsilon: Fixed, r: &Result<bool, SolveError>) -> bool;

    /// The main diagonal as a vector.
    fn diag(&self) -> (r: Result<Vec<Fixed>, SolveError>)
        ensures
            self.diag_rel(&r),
    ;

    /// A square matrix with this matrix's diagonal and zeros elsewhere.
    fn diag_flat(&self) -> (r: Result<Vec<Vec<Fixed>>, SolveError>)
        ensures
            self.diag_flat_rel(&r),
    ;

    /// Is every diagonal entry within `(-epsilon, epsilon)`?
    fn is_diagonal(&self, epsilon: Fixed) -> (r: Result<bool, SolveError>)
        ensures
            self.is_diagonal_rel(epsilon, &r),
    ;
}

/// Every diagonal entry strictly within `(-eps, eps)`.
pub open spec fn diag_within(m: Seq<Seq<int>>, eps: int) -> bool {
    forall|i: int| 0 <= i < m.len() ==> -eps < #[trigger] m[i][i] < eps
}

impl DiagFlat for Vec<Vec<Fixed>> {
    open spec fn diag_rel(&self, r: &Result<Vec<Fixed>, SolveError>) -> bool {
        vec_res_matches(*r, diag_result(mat_vals(self@)))
    }

    open spec fn diag_flat_rel(&self, r: &Result<Vec<Vec<Fixed>>, SolveError>) -> bool {
        mat_res_matches(*r, crate::kernel::diag_flat_result(mat_vals(self@)))
    }

    open spec fn is_diagonal_rel(&self, epsilon: Fixed, r: &Result<bool, SolveError>) -> bool {
        match diag_result(mat_vals(self@)) {
            Ok(_) => *r == Ok::<bool, SolveError>(diag_within(mat_vals(self@), epsilon@)),
            Err(e) => *r == Err::<bool, SolveError>(e),
        }
    }

    fn diag(&self) -> (r: Result<Vec<Fixed>, SolveError>) {
        mat_diag(self)
    }

    fn diag_flat(&self) -> (r: Result<Vec<Vec<Fixed>>, SolveError>) {
        crate::kernel::mat_diag_flat(self)
    }

    fn is_diagonal(&self, epsilon: Fixed) -> (r: Result<bool, SolveError>) {
        let d = match mat_diag(self) {
            Ok(v) => v,
            Err(e) => {
                return Err(e);
            },
        };
        let n = d.len();
        let em = epsilon.mantissa();
        proof {
            assert(vals(d@).len() == n);
            assert(crate::kernel::diag_val(mat_vals(self@)).len() == mat_vals(self@).len());
        }
        for i in 0..n
            invariant
                d@.len() == n,
                em as int == epsilon@,
                crate::kernel::is_square(mat_vals(self@)),
                vals(d@) == crate::kernel::diag_val(mat_vals(self@)),
                mat_vals(self@).len() == n,
                forall|j: int| 0 <= j < i ==> -epsilon@ < #[trigger] mat_vals(self@)[j][j] < epsilon@,
        {
            proof {
                assert(vals(d@)[i as int] == mat_vals(self@)[i as int][i as int]);
            }
            let v = d[i].mantissa();
            let vl: i128 = v as i128;
            let el: i128 = em as i128;
            if !(-el < vl && vl < el) {
                assert(!(-epsilon@ < mat_vals(self@)[i as int][i as int] < epsilon@));
                assert(!diag_within(mat_vals(self@), epsilon@));
                return Ok(false);
            }
        }
        Ok(true)
    }
}

/// The elementwise convergence test as a method on vectors.
pub trait Convergent: Sized {
    /// What `is_convergent` returns.
    spec fn convergent_rel(
        &self,
        other: &Self,
        rtol: Fixed,
        atol: Fixed,
        r: &Result<bool, SolveError>,
    ) -> bool;

    /// Does this vector agree with `other` to `atol + rtol*|other|`,
    /// componentwise?
    fn is_convergent(
        &self,
        other: &Self,
        relative_tolerance: Fixed,
        absolute_tolerance: Fixed,
    ) -> (r: Result<bool, SolveError>)
        ensures
            self.convergent_rel(other, relative_tolerance, absolute_tolerance, &r),
    ;
}

impl Convergent for Vec<Fixed> {
    open spec fn convergent_rel(
        &self,
        other: &Vec<Fixed>,
        rtol: Fixed,
        atol: Fixed,
        r: &Result<bool, SolveError>,
    ) -> bool {
        if self@.len() == other@.len() {
            *r == Ok::<bool, SolveError>(is_converged(vals(self@), vals(other@), rtol@, atol@))
        } else {
            *r == Err::<bool, SolveError>(SolveError::ShapeMismatch)
        }
    }

    fn is_convergent(
        &self,
        other: &Vec<Fixed>,
        relative_tolerance: Fixed,
        absolute_tolerance: Fixed,
    ) -> (r: Result<bool, SolveError>) {
        is_diagonally_converged(self, other, relative_tolerance, absolute_tolerance)
    }
}

/// The logarithmic Newton damping as a method.
pub trait Dampen<U>: Sized {
    /// What `dampen_ln` returns.
    spec fn dampen_rel(&self, alpha: Fixed, k: usize, r: &Result<U, SolveError>) -> bool;

    /// `sign(x) * (alpha/k) * ln(1 + k*|x|)`, elementwise on vectors.
    fn dampen_ln(&self, alpha: Fixed, k: usize) -> (r: Result<U, SolveError>)
        ensures
            self.dampen_rel(alpha, k, &r),
    ;
}

impl Dampen<Fixed> for Fixed {
    open spec fn dampen_rel(&self, alpha: Fixed, k: usize, r: &Result<Fixed, SolveError>) -> bool {
        sc_res_matches(*r, dampen_spec(self@, alpha@, k as int))
    }

    fn dampen_ln(&self, alpha: Fixed, k: usize) -> (r: Result<Fixed, SolveError>) {
        dampen_fixed(*self, alpha, k)
    }
}

impl Dampen<Vec<Fixed>> for Vec<Fixed> {
    open spec fn dampen_rel(&self, alpha: Fixed, k: usize, r: &Result<Vec<Fixed>, SolveError>) -> bool {
        vec_res_matches(*r, dampen_vec_spec(vals(self@), alpha@, k as int))
    }

    fn dampen_ln(&self, alpha: Fixed, k: usize) -> (r: Result<Vec<Fixed>, SolveError>) {
        dampen_vec(self, alpha, k)
    }
}

} // verus!

verus! {

/// Matrix x matrix, each row pair accumulated to one scalar; `dot` pairs
/// the rows by dot product.
impl VectorOps<Vec<Vec<Fixed>>, Vec<Fixed>> for Vec<Vec<Fixed>> {
    open spec fn dot_rel(&self, other: &Vec<Vec<Fixed>>, r: &Result<Vec<Fixed>, SolveError>) -> bool {
        vec_res_matches(*r, crate::kernel::mat_pair_acc_result(FxOp::Mul, mat_vals(self@), mat_vals(other@)))
    }

    open spec fn add_rel(&self, other: &Vec<Vec<Fixed>>, r: &Result<Vec<Fixed>, SolveError>) -> bool {
        vec_res_matches(*r, crate::kernel::mat_pair_acc_result(FxOp::Add, mat_vals(self@), mat_vals(other@)))
    }

    open spec fn sub_rel(&self, other: &Vec<Vec<Fixed>>, r: &Result<Vec<Fixed>, SolveError>) -> bool {
        vec_res_matches(*r, crate::kernel::mat_pair_acc_result(FxOp::Sub, mat_vals(self@), mat_vals(other@)))
    }

    open spec fn div_rel(&self, other: &Vec<Vec<Fixed>>, r: &Result<Vec<Fixed>, SolveError>) -> bool {
        vec_res_matches(*r, crate::kernel::mat_pair_acc_result(FxOp::Div, mat_vals(self@), mat_vals(other@)))
    }

    open spec fn rem_rel(&self, other: &Vec<Vec<Fixed>>, r: &Result<Vec<Fixed>, SolveError>) -> bool {
        vec_res_matches(*r, crate::kernel::mat_pair_acc_result(FxOp::Rem, mat_vals(self@), mat_vals(other@)))
    }

    open spec fn mul_rel(&self, other: &Vec<Vec<Fixed>>, r: &Result<Vec<Fixed>, SolveError>) -> bool {
        vec_res_matches(*r, crate::kernel::mat_pair_acc_result(FxOp::Mul, mat_vals(self@), mat_vals(other@)))
    }

    fn dot(&self, other: &Vec<Vec<Fixed>>) -> (r: Result<Vec<Fixed>, SolveError>) {
        crate::kernel::mat_pair_acc(FxOp::Mul, self, other)
    }

    fn add(&self, other: &Vec<Vec<Fixed>>) -> (r: Result<Vec<Fixed>, SolveError>) {
        crate::kernel::mat_pair_acc(FxOp::Add, self, other)
    }

    fn sub(&self, other: &Vec<Vec<Fixed>>) -> (r: Result<Vec<Fixed>, SolveError>) {
        crate::kernel::mat_pair_acc(FxOp::Sub, self, other)
    }

    fn div(&self, other: &Vec<Vec<Fixed>>) -> (r: Result<Vec<Fixed>, SolveError>) {
        crate::kernel::mat_pair_acc(FxOp::Div, self, other)
    }

    fn rem(&self, other: &Vec<Vec<Fixed>>) -> (r: Result<Vec<Fixed>, SolveError>) {
        crate::kernel::mat_pair_acc(FxOp::Rem, self, other)
    }

    fn mul(&self, other: &Vec<Vec<Fixed>>) -> (r: Result<Vec<Fixed>, SolveError>) {
        crate::kernel::mat_pair_acc(FxOp::Mul, self, other)
    }
}

/// Scalar x vector, broadcast with the scalar as the left operand; a dot
/// product of a scalar against a vector is not an operation.
impl VectorOps<Vec<Fixed>, Vec<Fixed>> for Fixed {
    open spec fn dot_rel(&self, other: &Vec<Fixed>, r: &Result<Vec<Fixed>, SolveError>) -> bool {
        *r == Err::<Vec<Fixed>, SolveError>(SolveError::ShapeMismatch)
    }

    open spec fn add_rel(&self, other: &Vec<Fixed>, r: &Result<Vec<Fixed>, SolveError>) -> bool {
        vec_res_matches(*r, crate::kernel::scl_left_result(FxOp::Add, self@, vals(other@)))
    }

    open spec fn sub_rel(&self, other: &Vec<Fixed>, r: &Result<Vec<Fixed>, SolveError>) -> bool {
        vec_res_matches(*r, crate::kernel::scl_left_result(FxOp::Sub, self@, vals(other@)))
    }

    open spec fn div_rel(&self, other: &Vec<Fixed>, r: &Result<Vec<Fixed>, SolveError>) -> bool {
        vec_res_matches(*r, crate::kernel::scl_left_result(FxOp::Div, self@, vals(other@)))
    }

    open spec fn rem_rel(&self, other: &Vec<Fixed>, r: &Result<Vec<Fixed>, SolveError>) -> bool {
        vec_res_matches(*r, crate::kernel::scl_left_result(FxOp::Rem, self@, vals(other@)))
    }

    open spec fn mul_rel(&self, other: &Vec<Fixed>, r: &Result<Vec<Fixed>, SolveError>) -> bool {
        vec_res_matches(*r, crate::kernel::scl_left_result(FxOp::Mul, self@, vals(other@)))
    }

    fn dot(&self, other: &Vec<Fixed>) -> (r: Result<Vec<Fixed>, SolveError>) {
        Err(SolveError::ShapeMismatch)
    }

    fn add(&self, other: &Vec<Fixed>) -> (r: Result<Vec<Fixed>, SolveError>) {
        crate::kernel::vec_scl_left(FxOp::Add, *self, other)
    }

    fn sub(&self, other: &Vec<Fixed>) -> (r: Result<Vec<Fixed>, SolveError>) {
        crate::kernel::vec_scl_left(FxOp::Sub, *self, other)
    }

    fn div(&self, other: &Vec<Fixed>) -> (r: Result<Vec<Fixed>, SolveError>) {
        crate::kernel::vec_scl_left(FxOp::Div, *self, other)
    }

    fn rem(&self, other: &Vec<Fixed>) -> (r: Result<Vec<Fixed>, SolveError>) {
        crate::kernel::vec_scl_left(FxOp::Rem, *self, other)
    }

    fn mul(&self, other: &Vec<Fixed>) -> (r: Result<Vec<Fixed>, SolveError>) {
        crate::kernel::vec_scl_left(FxOp::Mul, *self, other)
    }
}

} // verus!
