//! The scalar of the solve kernel: a signed fixed-point number with 32
//! fractional bits, held as an `i64` mantissa.  Every operation is checked;
//! a result that does not fit the mantissa range is reported as
//! `SolveError::NonFiniteResult` instead of wrapping or panicking.

use vstd::prelude::*;

verus! {

/// Mantissa units per 1.0 (2^32).
pub const SCALE: i64 = 4294967296;

/// Errors of the solve kernel, all recoverable by the caller.
#[derive(Clone, Copy, Debug, PartialEq, Eq, Structural)]
pub enum SolveError {
    /// Matrix non-square where required, or vector/matrix dimensions disagree.
    ShapeMismatch,
    /// Pivot search exhausted without a nonzero pivot, or a zero on the U diagonal.
    Singular,
    /// Iterative method invoked without its guess/iteration/tolerance parameters.
    MissingParameter,
    /// An arithmetic step left the representable range (or divided by zero).
    NonFiniteResult,
}

/// Fixed-point scalar: the represented value is `m / SCALE`.
#[derive(Clone, Copy, Debug, PartialEq, Eq, Structural)]
pub struct Fixed {
    /// The raw mantissa.
    pub m: i64,
}

impl View for Fixed {
    type V = int;

    open spec fn view(&self) -> int {
        self.m as int
    }
}

pub open spec fn int_abs(a: int) -> int {
    if a >= 0 {
        a
    } else {
        -a
    }
}

pub open spec fn same_sign(a: int, b: int) -> bool {
    (a >= 0) == (b >= 0)
}

/// Does a mantissa value fit the scalar's range?
pub open spec fn fits(a: int) -> bool {
    i64::MIN <= a <= i64::MAX
}

/// Elementwise operations of the vector kernel.
#[derive(Clone, Copy, Debug, PartialEq, Eq, Structural)]
pub enum FxOp {
    Add,
    Sub,
    Mul,
    Div,
    Rem,
}

/// Mantissa of the product of two scalars, truncated toward zero.
pub open spec fn mul_val(a: int, b: int) -> int {
    let mag = (int_abs(a) * int_abs(b)) / (SCALE as int);
    if same_sign(a, b) {
        mag
    } else {
        -mag
    }
}

/// Mantissa of the quotient of two scalars, truncated toward zero.
pub open spec fn div_val(a: int, b: int) -> int {
    let mag = (int_abs(a) * (SCALE as int)) / int_abs(b);
    if same_sign(a, b) {
        mag
    } else {
        -mag
    }
}

/// Mantissa of the remainder, with the dividend's sign.
pub open spec fn rem_val(a: int, b: int) -> int {
    let mag = int_abs(a) % int_abs(b);
    if a >= 0 {
        mag
    } else {
        -mag
    }
}

/// Is the operation defined at all (no division by zero)?
pub open spec fn op_defined(op: FxOp, a: int, b: int) -> bool {
    match op {
        FxOp::Div | FxOp::Rem => b != 0,
        _ => true,
    }
}

/// Exact mantissa value of each elementwise operation.
pub open spec fn op_val(op: FxOp, a: int, b: int) -> int {
    match op {
        FxOp::Add => a + b,
        FxOp::Sub => a - b,
        FxOp::Mul => mul_val(a, b),
        FxOp::Div => div_val(a, b),
        FxOp::Rem => rem_val(a, b),
    }
}

/// The operation is defined and its result fits the scalar.
pub open spec fn op_ok(op: FxOp, a: int, b: int) -> bool {
    op_defined(op, a, b) && fits(op_val(op, a, b))
}

impl Fixed {
    /// Build a scalar directly from its mantissa.
    pub fn from_mantissa(m: i64) -> (r: Fixed)
        ensures
            r@ == m as int,
    {
        Fixed { m }
    }

    /// The raw mantissa.
    pub fn mantissa(self) -> (r: i64)
        ensures
            r as int == self@,
    {
        self.m
    }

    /// The scalar 0.
    pub fn zero() -> (r: Fixed)
        ensures
            r@ == 0,
    {
        Fixed { m: 0 }
    }

    /// The scalar 1.
    pub fn one() -> (r: Fixed)
        ensures
            r@ == SCALE as int,
    {
        Fixed { m: SCALE }
    }

    /// Is this exactly zero?
    pub fn is_zero(self) -> (r: bool)
        ensures
            r == (self@ == 0),
    {
        self.m == 0
    }
}

/// Magnitude of a mantissa as an unsigned value (total, also at `i64::MIN`).
fn mag_of(x: i64) -> (m: u64)
    ensures
        m as int == int_abs(x as int),
{
    if x >= 0 {
        x as u64
    } else {
        let n: i128 = -(x as i128);
        n as u64
    }
}

/// Rebuild a scalar from sign and magnitude, checking the range.
fn from_sign_mag(neg: bool, mag: u128) -> (r: Result<Fixed, SolveError>)
    ensures
        ({
            let v = if neg {
                -(mag as int)
            } else {
                mag as int
            };
            if fits(v) {
                r == Ok::<Fixed, SolveError>(Fixed { m: v as i64 })
            } else {
                r == Err::<Fixed, SolveError>(SolveError::NonFiniteResult)
            }
        }),
{
    if neg {
        if mag > 9223372036854775808u128 {
            Err(SolveError::NonFiniteResult)
        } else {
            let v: i128 = -(mag as i128);
            Ok(Fixed { m: v as i64 })
        }
    } else {
        if mag > 9223372036854775807u128 {
            Err(SolveError::NonFiniteResult)
        } else {
            Ok(Fixed { m: mag as i64 })
        }
    }
}

/// The product of two values below `u64::MAX` stays below `u128::MAX`.
pub proof fn lemma_u64_mul_in_u128(a: int, b: int)
    requires
        0 <= a <= u64::MAX,
        0 <= b <= u64::MAX,
    ensures
        0 <= a * b <= u128::MAX,
{
    assert(0 <= a * b <= u128::MAX) by (nonlinear_arith)
        requires
            0 <= a <= u64::MAX,
            0 <= b <= u64::MAX,
    ;
}

/// Checked addition.
pub fn fx_add(a: Fixed, b: Fixed) -> (r: Result<Fixed, SolveError>)
    ensures
        op_ok(FxOp::Add, a@, b@) ==> (r matches Ok(f) && f@ == a@ + b@),
        !op_ok(FxOp::Add, a@, b@) ==> r == Err::<Fixed, SolveError>(SolveError::NonFiniteResult),
{
    let s: i128 = a.m as i128 + b.m as i128;
    if s > i64::MAX as i128 || s < i64::MIN as i128 {
        Err(SolveError::NonFiniteResult)
    } else {
        Ok(Fixed { m: s as i64 })
    }
}

/// Checked subtraction.
pub fn fx_sub(a: Fixed, b: Fixed) -> (r: Result<Fixed, SolveError>)
    ensures
        op_ok(FxOp::Sub, a@, b@) ==> (r matches Ok(f) && f@ == a@ - b@),
        !op_ok(FxOp::Sub, a@, b@) ==> r == Err::<Fixed, SolveError>(SolveError::NonFiniteResult),
{
    let s: i128 = a.m as i128 - b.m as i128;
    if s > i64::MAX as i128 || s < i64::MIN as i128 {
        Err(SolveError::NonFiniteResult)
    } else {
        Ok(Fixed { m: s as i64 })
    }
}

/// Checked fixed-point multiplication, truncating toward zero.
pub fn fx_mul(a: Fixed, b: Fixed) -> (r: Result<Fixed, SolveError>)
    ensures
        op_ok(FxOp::Mul, a@, b@) ==> (r matches Ok(f) && f@ == mul_val(a@, b@)),
        !op_ok(FxOp::Mul, a@, b@) ==> r == Err::<Fixed, SolveError>(SolveError::NonFiniteResult),
{
    let am = mag_of(a.m);
    let bm = mag_of(b.m);
    proof {
        lemma_u64_mul_in_u128(am as int, bm as int);
    }
    let prod: u128 = (am as u128) * (bm as u128);
    let mag: u128 = prod / (SCALE as u128);
    let neg = (a.m < 0) != (b.m < 0);
    proof {
        assert(mag as int == (int_abs(a@) * int_abs(b@)) / (SCALE as int));
        assert(neg == !same_sign(a@, b@)) by {
            assert(int_abs(a@) * int_abs(b@) >= 0) by (nonlinear_arith)
                requires
                    int_abs(a@) >= 0 && int_abs(b@) >= 0,
            ;
        }
    }
    if neg && mag > 0 {
        from_sign_mag(true, mag)
    } else {
        from_sign_mag(false, mag)
    }
}

/// Checked fixed-point division, truncating toward zero.
pub fn fx_div(a: Fixed, b: Fixed) -> (r: Result<Fixed, SolveError>)
    ensures
        op_ok(FxOp::Div, a@, b@) ==> (r matches Ok(f) && f@ == div_val(a@, b@)),
        !op_ok(FxOp::Div, a@, b@) ==> r == Err::<Fixed, SolveError>(SolveError::NonFiniteResult),
{
    if b.m == 0 {
        return Err(SolveError::NonFiniteResult);
    }
    let am = mag_of(a.m);
    let bm = mag_of(b.m);
    proof {
        lemma_u64_mul_in_u128(am as int, SCALE as int);
    }
    let num: u128 = (am as u128) * (SCALE as u128);
    let mag: u128 = num / (bm as u128);
    let neg = (a.m < 0) != (b.m < 0);
    if neg && mag > 0 {
        from_sign_mag(true, mag)
    } else {
        from_sign_mag(false, mag)
    }
}

/// Checked fixed-point remainder (dividend's sign).
pub fn fx_rem(a: Fixed, b: Fixed) -> (r: Result<Fixed, SolveError>)
    ensures
        op_ok(FxOp::Rem, a@, b@) ==> (r matches Ok(f) && f@ == rem_val(a@, b@)),
        !op_ok(FxOp::Rem, a@, b@) ==> r == Err::<Fixed, SolveError>(SolveError::NonFiniteResult),
{
    if b.m == 0 {
        return Err(SolveError::NonFiniteResult);
    }
    let am = mag_of(a.m);
    let bm = mag_of(b.m);
    let mag: u128 = (am as u128) % (bm as u128);
    from_sign_mag(a.m < 0 && mag > 0, mag)
}

/// One entry point for all five elementwise operations.
pub fn fx_op(op: FxOp, a: Fixed, b: Fixed) -> (r: Result<Fixed, SolveError>)
    ensures
        op_ok(op, a@, b@) ==> (r matches Ok(f) && f@ == op_val(op, a@, b@)),
        !op_ok(op, a@, b@) ==> r == Err::<Fixed, SolveError>(SolveError::NonFiniteResult),
{
    match op {
        FxOp::Add => fx_add(a, b),
        FxOp::Sub => fx_sub(a, b),
        FxOp::Mul => fx_mul(a, b),
        FxOp::Div => fx_div(a, b),
        FxOp::Rem => fx_rem(a, b),
    }
}

} // verus!
