//! Logarithmic Newton damping: `dampen(x, alpha, k) = sign(x) * (alpha/k) *
//! ln(1 + k*|x|)`, the step limiter of the quasi-Newton driver.
//!
//! The natural log is computed by the binary-logarithm method: normalize into
//! `[1, 2)`, extract 32 fraction bits by repeated squaring, then scale by
//! `ln 2`.  `ln_spec` is the exact value-level recurrence of that method; the
//! final division rounds up, and the magnitude division by `k` rounds up too,
//! so a positive damped step never truncates to zero.

use vstd::prelude::*;

use vstd::arithmetic::div_mod::lemma_div_is_ordered;
use vstd::arithmetic::power2::pow2;

use crate::fixed::{fits, fx_mul, int_abs, lemma_u64_mul_in_u128, mul_val, op_ok, Fixed, FxOp,
    SolveError, SCALE};

verus! {

/// `ln 2` in 32-bit fixed point (rounded to the nearest mantissa unit).
pub const LN2: i64 = 2977044472;

/// How many halvings bring `v` below 2.0 (mantissa `2 * SCALE`).
pub open spec fn norm_e(v: int) -> nat
    decreases v,
{
    if v < 2 * SCALE {
        0
    } else {
        1 + norm_e(v / 2)
    }
}

/// The mantissa left in `[1, 2)` after those halvings.
pub open spec fn norm_v(v: int) -> int
    decreases v,
{
    if v < 2 * SCALE {
        v
    } else {
        norm_v(v / 2)
    }
}

/// `k` binary-logarithm fraction bits of a mantissa in `[1, 2)`, extracted
/// by repeated squaring: square, and when the square reaches 2, record the
/// bit and halve.
pub open spec fn frac_bits(v: int, k: nat) -> int
    decreases k,
{
    if k == 0 {
        0
    } else {
        let w = (v * v) / (SCALE as int);
        if w >= 2 * SCALE {
            pow2((k - 1) as nat) + frac_bits(w / 2, (k - 1) as nat)
        } else {
            frac_bits(w, (k - 1) as nat)
        }
    }
}

/// The natural log of a mantissa `x >= 1.0`: `log2(x)` in 32.32 fixed point,
/// scaled by `ln 2` with the final division rounded up.
pub open spec fn ln_spec(x: int) -> int {
    let l2 = norm_e(x) * SCALE + frac_bits(norm_v(x), 32);
    (l2 * LN2 + (SCALE - 1)) / (SCALE as int)
}

/// The fraction bits are never negative.
pub proof fn lemma_frac_bits_nonneg(v: int, k: nat)
    ensures
        frac_bits(v, k) >= 0,
    decreases k,
{
    if k > 0 {
        let w = (v * v) / (SCALE as int);
        if w >= 2 * SCALE {
            lemma_frac_bits_nonneg(w / 2, (k - 1) as nat);
        } else {
            lemma_frac_bits_nonneg(w, (k - 1) as nat);
        }
    }
}

/// `ln 1.0 == 0`: the normalized mantissa stays exactly 1.0 under squaring.
pub proof fn lemma_frac_bits_one(k: nat)
    ensures
        frac_bits(SCALE as int, k) == 0,
    decreases k,
{
    if k > 0 {
        assert((SCALE as int) * (SCALE as int) / (SCALE as int) == SCALE as int) by (nonlinear_arith);
        lemma_frac_bits_one((k - 1) as nat);
    }
}

/// The log of 1.0 is exactly zero.
pub proof fn lemma_ln_one()
    ensures
        ln_spec(SCALE as int) == 0,
{
    lemma_frac_bits_one(32);
    assert(norm_e(SCALE as int) == 0);
    assert(norm_v(SCALE as int) == SCALE as int);
    assert((0 * (LN2 as int) + (SCALE - 1)) / (SCALE as int) == 0);
}

/// A normalized mantissa strictly above 1.0 keeps doubling its excess under
/// squaring, so within the remaining bits one fraction bit must get set.
pub proof fn lemma_frac_pos(v: int, k: nat)
    requires
        1 <= k <= 32,
        SCALE <= v < 2 * SCALE,
        v >= SCALE + pow2((32 - k) as nat),
    ensures
        frac_bits(v, k) >= 1,
    decreases k,
{
    let s = SCALE as int;
    let d = v - s;
    let w = (v * v) / s;
    assert(v * v >= s * s + 2 * d * s) by (nonlinear_arith)
        requires
            v == s + d,
            d >= 0,
            s > 0,
    ;
    assert((s * s + 2 * d * s) / s == s + 2 * d) by (nonlinear_arith)
        requires
            s > 0,
    ;
    lemma_div_is_ordered(s * s + 2 * d * s, v * v, s);
    assert(w >= s + 2 * d);
    if w >= 2 * s {
        vstd::arithmetic::power2::lemma_pow2_pos((k - 1) as nat);
        lemma_frac_bits_nonneg(w / 2, (k - 1) as nat);
        assert(frac_bits(v, k) >= pow2((k - 1) as nat));
    } else {
        // The excess doubled but the square stayed below 2.0; on the last
        // bit that cannot happen, because the excess already reached 1/2.
        if k == 1 {
            assert(pow2(31) == 0x80000000) by {
                vstd::arithmetic::power2::lemma2_to64();
            }
            assert(false);
        } else {
            assert(pow2((32 - k + 1) as nat) == 2 * pow2((32 - k) as nat)) by {
                vstd::arithmetic::power2::lemma_pow2_unfold((32 - k + 1) as nat);
            }
            lemma_frac_pos(w, (k - 1) as nat);
        }
    }
}

/// The log of anything strictly above 1.0 is strictly positive.
pub proof fn lemma_ln_pos(x: int)
    requires
        SCALE < x,
        fits(x),
    ensures
        ln_spec(x) >= 1,
{
    let s = SCALE as int;
    let l2 = norm_e(x) * SCALE + frac_bits(norm_v(x), 32);
    lemma_frac_bits_nonneg(norm_v(x), 32);
    if x >= 2 * s {
        assert(norm_e(x) >= 1);
        assert(norm_e(x) * SCALE >= s) by (nonlinear_arith)
            requires
                s == SCALE as int,
                norm_e(x) >= 1,
                SCALE > 0,
        ;
        assert(l2 >= s);
    } else {
        assert(norm_e(x) == 0);
        assert(norm_v(x) == x);
        assert(pow2(0) == 1) by {
            vstd::arithmetic::power2::lemma2_to64();
        }
        lemma_frac_pos(x, 32);
        assert(l2 >= 1) by (nonlinear_arith)
            requires
                norm_e(x) >= 0,
                frac_bits(norm_v(x), 32) >= 1,
                SCALE > 0,
                l2 == norm_e(x) * SCALE + frac_bits(norm_v(x), 32),
        ;
    }
    assert(l2 * LN2 >= LN2) by (nonlinear_arith)
        requires
            l2 >= 1,
            LN2 > 0,
    ;
    lemma_div_is_ordered(s, l2 * LN2 + (s - 1), s);
    assert(s / s == 1) by (nonlinear_arith)
        requires
            s > 0,
    ;
}

/// What the scalar damping returns: exactly which value, or exactly which
/// error, for every input.
pub open spec fn dampen_spec(x: int, a: int, k: int) -> Result<int, SolveError> {
    if k < 1 {
        Err(SolveError::NonFiniteResult)
    } else if !fits(int_abs(x)) {
        Err(SolveError::NonFiniteResult)
    } else {
        let t = SCALE + k * int_abs(x);
        if !fits(t) {
            Err(SolveError::NonFiniteResult)
        } else {
            let l = ln_spec(t);
            if !op_ok(FxOp::Mul, a, l) {
                Err(SolveError::NonFiniteResult)
            } else {
                let p = mul_val(a, l);
                let mag = (int_abs(p) + k - 1) / k;
                let d = if (x < 0) != (a < 0) {
                    -mag
                } else {
                    mag
                };
                if !fits(d) {
                    Err(SolveError::NonFiniteResult)
                } else {
                    Ok(d)
                }
            }
        }
    }
}

/// Damping of zero is exactly zero, for every damping factor and every
/// iteration index at least 1.
pub proof fn lemma_dampen_zero(a: int, k: int)
    requires
        k >= 1,
    ensures
        dampen_spec(0, a, k) == Ok::<int, SolveError>(0),
{
    assert(k * int_abs(0) == 0) by (nonlinear_arith);
    lemma_ln_one();
    assert(mul_val(a, 0) == 0) by {
        assert(int_abs(a) * 0 == 0) by (nonlinear_arith);
    }
    assert((int_abs(0) + k - 1) / k == 0) by {
        assert((k - 1) / k == 0) by (nonlinear_arith)
            requires
                k >= 1,
        ;
    }
}

/// Damping keeps the sign of its argument: for `alpha >= 1` and `k >= 1`,
/// whenever a damped value is returned for a nonzero `x`, it is strictly
/// positive for positive `x` and strictly negative for negative `x`.
pub proof fn lemma_dampen_sign(x: int, a: int, k: int)
    requires
        k >= 1,
        a >= SCALE,
        x != 0,
        fits(x),
    ensures
        (match dampen_spec(x, a, k) {
            Ok(d) => (x > 0 ==> d > 0) && (x < 0 ==> d < 0),
            Err(_) => true,
        }),
{
    let s = SCALE as int;
    if fits(int_abs(x)) {
        assert(int_abs(x) >= 1);
        assert(k * int_abs(x) >= 1) by (nonlinear_arith)
            requires
                k >= 1,
                int_abs(x) >= 1,
        ;
        let t = SCALE + k * int_abs(x);
        if fits(t) {
            let l = ln_spec(t);
            lemma_ln_pos(t);
            if op_ok(FxOp::Mul, a, l) {
                let p = mul_val(a, l);
                assert(int_abs(a) * l >= s * l) by (nonlinear_arith)
                    requires
                        int_abs(a) >= s,
                        l >= 1,
                ;
                lemma_div_is_ordered(s * l, int_abs(a) * l, s);
                assert((s * l) / s == l) by (nonlinear_arith)
                    requires
                        s > 0,
                ;
                assert(p >= l >= 1);
                let mag = (int_abs(p) + k - 1) / k;
                assert(int_abs(p) + k - 1 >= k);
                lemma_div_is_ordered(k, int_abs(p) + k - 1, k);
                assert(k / k == 1) by (nonlinear_arith)
                    requires
                        k >= 1,
                ;
                assert(mag >= 1);
            }
        }
    }
}

/// Natural log of a scalar at least 1.0, by the binary-logarithm method.
pub fn ln_fixed(x: Fixed) -> (r: Fixed)
    requires
        x@ >= SCALE,
    ensures
        r@ == ln_spec(x@),
{
    let x0 = x.mantissa();
    let mut v: u64 = x0 as u64;
    let mut e: u32 = 0;
    proof {
        assert(pow2(0) == 1) by {
            vstd::arithmetic::power2::lemma2_to64();
        }
    }
    let two_scale: u64 = 8589934592;
    while v >= two_scale
        invariant
            two_scale == 2 * (SCALE as u64),
            v >= SCALE as u64,
            e <= 63,
            pow2(e as nat) * v <= x0 as int,
            norm_e(x0 as int) == e + norm_e(v as int),
            norm_v(x0 as int) == norm_v(v as int),
        decreases v,
    {
        proof {
            vstd::arithmetic::power2::lemma_pow2_pos(e as nat);
            vstd::arithmetic::power2::lemma_pow2_pos((e + 1) as nat);
            vstd::arithmetic::power2::lemma_pow2_unfold((e + 1) as nat);
            assert(pow2((e + 1) as nat) * (v as int / 2) <= pow2(e as nat) * v) by (nonlinear_arith)
                requires
                    pow2((e + 1) as nat) == 2 * pow2(e as nat),
                    pow2(e as nat) > 0,
                    2 * (v as int / 2) <= v,
            ;
            if e + 1 > 63 {
                vstd::arithmetic::power2::lemma_pow2_strictly_increases(63, (e + 1) as nat);
                assert(pow2(63) == 0x8000000000000000) by {
                    vstd::arithmetic::power2::lemma2_to64_rest();
                }
                lemma_div_is_ordered(SCALE as int, v as int, 2);
                assert(pow2((e + 1) as nat) * (v as int / 2) >= pow2((e + 1) as nat) * ((
                SCALE as int) / 2)) by (nonlinear_arith)
                    requires
                        pow2((e + 1) as nat) > 0,
                        v as int / 2 >= (SCALE as int) / 2,
                ;
                assert(pow2((e + 1) as nat) * ((SCALE as int) / 2) > i64::MAX as int)
                    by (nonlinear_arith)
                    requires
                        pow2((e + 1) as nat) > 0x8000000000000000,
                        (SCALE as int) / 2 == 0x80000000,
                ;
                assert(false);
            }
        }
        v = v / 2;
        e = e + 1;
    }
    // v is now the normalized mantissa in [1, 2); extract 32 fraction bits.
    let ghost v_norm = v as int;
    proof {
        assert(pow2(32) == 4294967296) by {
            vstd::arithmetic::power2::lemma2_to64();
        }
        assert(pow2(31) == 2147483648) by {
            vstd::arithmetic::power2::lemma2_to64();
        }
    }
    let mut frac: u64 = 0;
    let mut w: u64 = v;
    let mut bit: u64 = 2147483648;
    let mut k: u32 = 0;
    while k < 32
        invariant
            two_scale == 2 * (SCALE as u64),
            k <= 32,
            SCALE as u64 <= w,
            w < two_scale,
            k < 32 ==> bit as int == pow2((31 - k) as nat),
            frac < SCALE as u64,
            frac_bits(v_norm, 32) == frac + frac_bits(w as int, (32 - k) as nat),
            frac + pow2((32 - k) as nat) <= SCALE as u64,
        decreases 32 - k,
    {
        proof {
            lemma_u64_mul_in_u128(w as int, w as int);
            assert((w as int) * (w as int) >= (SCALE as int) * (SCALE as int)) by (nonlinear_arith)
                requires
                    w as int >= SCALE as int,
                    SCALE as int > 0,
            ;
            assert((w as int) * (w as int) < (2 * (SCALE as int)) * (2 * (SCALE as int)))
                by (nonlinear_arith)
                requires
                    0 <= w as int,
                    (w as int) < 2 * (SCALE as int),
            ;
            lemma_div_is_ordered((SCALE as int) * (SCALE as int), (w as int) * (w as int),
                SCALE as int);
            lemma_div_is_ordered((w as int) * (w as int), (2 * (SCALE as int)) * (2 * (
            SCALE as int)) - 1, SCALE as int);
            assert(((SCALE as int) * (SCALE as int)) / (SCALE as int) == SCALE as int)
                by (nonlinear_arith)
                requires
                    SCALE as int > 0,
            ;
            assert(((2 * (SCALE as int)) * (2 * (SCALE as int)) - 1) / (SCALE as int) == 4 * SCALE
                - 1) by (nonlinear_arith)
                requires
                    SCALE as int > 0,
            ;
        }
        let sq: u128 = (w as u128) * (w as u128) / (SCALE as u128);
        let w2: u64 = sq as u64;
        proof {
            vstd::arithmetic::power2::lemma_pow2_pos((31 - k) as nat);
            vstd::arithmetic::power2::lemma_pow2_unfold((32 - k) as nat);
            if k < 31 {
                vstd::arithmetic::power2::lemma_pow2_unfold((31 - k) as nat);
            } else {
                assert(pow2(1) == 2 && pow2(0) == 1) by {
                    vstd::arithmetic::power2::lemma2_to64();
                }
            }
        }
        if w2 >= two_scale {
            frac = frac + bit;
            w = w2 / 2;
        } else {
            w = w2;
        }
        bit = bit / 2;
        k = k + 1;
    }
    let l2: u64 = (e as u64) * 4294967296u64 + frac;
    proof {
        assert(norm_e(x0 as int) <= 63);
        assert(e as int * (SCALE as int) + frac as int == norm_e(x0 as int) * SCALE + frac_bits(
            norm_v(x0 as int),
            32,
        ));
    }
    let num: u128 = (l2 as u128) * (LN2 as u128) + 4294967295u128;
    let q: u128 = num / (SCALE as u128);
    proof {
        lemma_u64_mul_in_u128(l2 as int, LN2 as int);
        assert(q as int == ln_spec(x0 as int));
        assert(l2 as int <= 64 * (SCALE as int));
        assert((l2 as int) * (LN2 as int) <= 64 * (SCALE as int) * (LN2 as int))
            by (nonlinear_arith)
            requires
                0 <= l2 as int <= 64 * (SCALE as int),
                LN2 as int > 0,
        ;
        lemma_div_is_ordered(num as int, 64 * (SCALE as int) * (LN2 as int) + (SCALE as int),
            SCALE as int);
        assert((64 * (SCALE as int) * (LN2 as int) + (SCALE as int)) / (SCALE as int) == 64 * (
        LN2 as int) + 1) by (nonlinear_arith)
            requires
                SCALE as int > 0,
        ;
    }
    Fixed::from_mantissa(q as i64)
}

} // verus!

verus! {

/// Scalar damping, executed: `sign(x) * ceil((alpha * ln(1 + k*|x|)) / k)`
/// on magnitudes, with every arithmetic step checked.
pub fn dampen_fixed(x: Fixed, alpha: Fixed, k: usize) -> (r: Result<Fixed, SolveError>)
    ensures
        crate::kernel::sc_res_matches(r, dampen_spec(x@, alpha@, k as int)),
{
    if k == 0 {
        return Err(SolveError::NonFiniteResult);
    }
    let xm = x.mantissa();
    if xm == i64::MIN {
        return Err(SolveError::NonFiniteResult);
    }
    let xa: u64 = if xm >= 0 {
        xm as u64
    } else {
        let n: i128 = -(xm as i128);
        n as u64
    };
    proof {
        lemma_u64_mul_in_u128(k as int, xa as int);
        assert((k as int) * (xa as int) + (SCALE as int) < 0x100000000000000000000000000000000)
            by (nonlinear_arith)
            requires
                0 <= k as int <= u64::MAX,
                0 <= xa as int <= 0x7fffffffffffffff,
        ;
    }
    let tm: u128 = (k as u128) * (xa as u128) + (SCALE as u128);
    if tm > 9223372036854775807u128 {
        return Err(SolveError::NonFiniteResult);
    }
    let t = Fixed::from_mantissa(tm as i64);
    proof {
        assert((k as int) * (xa as int) >= 0) by (nonlinear_arith)
            requires
                k as int >= 0,
                xa as int >= 0,
        ;
    }
    let l = ln_fixed(t);
    let p = match fx_mul(alpha, l) {
        Ok(v) => v,
        Err(_) => {
            return Err(SolveError::NonFiniteResult);
        },
    };
    let pm: u64 = if p.mantissa() >= 0 {
        p.mantissa() as u64
    } else {
        let n: i128 = -(p.mantissa() as i128);
        n as u64
    };
    let mag: u128 = ((pm as u128) + (k as u128) - 1) / (k as u128);
    proof {
        if pm > 0 {
            assert((pm as int) + (k as int) - 1 <= (pm as int) * (k as int)) by (nonlinear_arith)
                requires
                    pm as int >= 1,
                    k as int >= 1,
            ;
            lemma_div_is_ordered((pm as int) + (k as int) - 1, (pm as int) * (k as int), k as int);
            assert(((pm as int) * (k as int)) / (k as int) == pm as int) by (nonlinear_arith)
                requires
                    k as int >= 1,
            ;
        } else {
            assert(((k as int) - 1) / (k as int) == 0) by (nonlinear_arith)
                requires
                    k as int >= 1,
            ;
        }
        assert(mag as int <= pm as int);
    }
    let neg = (xm < 0) != (alpha.mantissa() < 0);
    if neg && mag > 0 {
        let d: i128 = -(mag as i128);
        Ok(Fixed::from_mantissa(d as i64))
    } else {
        if mag > 9223372036854775807u128 {
            return Err(SolveError::NonFiniteResult);
        }
        Ok(Fixed::from_mantissa(mag as i64))
    }
}

/// Elementwise damping succeeds only where every component does.
pub open spec fn dampen_all_ok(x: Seq<int>, a: int, k: int) -> bool {
    forall|i: int| 0 <= i < x.len() ==> dampen_spec(#[trigger] x[i], a, k) is Ok
}

/// The elementwise damped values.
pub open spec fn dampen_vec_val(x: Seq<int>, a: int, k: int) -> Seq<int> {
    Seq::new(x.len(), |i: int| dampen_spec(x[i], a, k)->Ok_0)
}

/// What elementwise damping returns: the damped vector, or the error of a
/// failing component (all damping errors are `NonFiniteResult`).
pub open spec fn dampen_vec_spec(x: Seq<int>, a: int, k: int) -> Result<Seq<int>, SolveError> {
    if dampen_all_ok(x, a, k) {
        Ok(dampen_vec_val(x, a, k))
    } else {
        Err(SolveError::NonFiniteResult)
    }
}

/// Elementwise damping of a vector of scalars.
pub fn dampen_vec(x: &Vec<Fixed>, alpha: Fixed, k: usize) -> (r: Result<Vec<Fixed>, SolveError>)
    ensures
        crate::kernel::vec_res_matches(r, dampen_vec_spec(crate::kernel::vals(x@), alpha@, k as int)),
{
    let n = x.len();
    let mut out: Vec<Fixed> = Vec::new();
    for i in 0..n
        invariant
            x@.len() == n,
            out@.len() == i,
            forall|j: int|
                0 <= j < i ==> dampen_spec(#[trigger] crate::kernel::vals(x@)[j], alpha@, k as int)
                    is Ok,
            forall|j: int|
                0 <= j < i ==> #[trigger] out@[j]@ == dampen_spec(
                    crate::kernel::vals(x@)[j],
                    alpha@,
                    k as int,
                )->Ok_0,
    {
        match dampen_fixed(x[i], alpha, k) {
            Ok(v) => out.push(v),
            Err(_) => {
                assert(dampen_spec(crate::kernel::vals(x@)[i as int], alpha@, k as int) is Err);
                assert(!dampen_all_ok(crate::kernel::vals(x@), alpha@, k as int));
                return Err(SolveError::NonFiniteResult);
            },
        }
    }
    proof {
        assert(crate::kernel::vals(out@) =~= dampen_vec_val(crate::kernel::vals(x@), alpha@, k as int));
    }
    Ok(out)
}

} // verus!
