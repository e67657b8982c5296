//! The outer damped quasi-Newton loop and its data model: right-hand-side
//! entries that are constants or nonlinear functions of one cached argument,
//! and the typed (voltage | current) unknown vector.
//!
//! A nonlinear entry carries a caller-supplied pure scalar function; what
//! such a function returns is known only through its own contract
//! (`call_ensures`), so the driver's promises are stated relationally over
//! those results and exactly over everything the kernel computes from them.

use vstd::prelude::*;

use crate::damp::{dampen_spec, dampen_fixed};
use crate::fixed::{Fixed, SolveError};
use crate::kernel::{is_converged, is_diagonally_converged, mat_vals, vals};
use crate::solve::{opt_val, solve_spec, LinearSystemSolve};
use crate::text::str_eq_lower;

verus! {

/// A right-hand-side entry: a constant, or a pure scalar function with its
/// cached most-recent Newton argument.
pub enum RhsValueType<F> {
    /// A constant scalar.
    LinearValue(Fixed),
    /// A function of one argument, with the cached argument.
    LinearizerFunc(F, Fixed),
}

/// A possible outcome of evaluating one entry: a constant yields itself, a
/// nonlinear entry yields anything its function's contract allows at the
/// cached argument.
pub open spec fn rhs_eval_rel<F: Fn(Fixed) -> Fixed>(e: RhsValueType<F>, v: Fixed) -> bool {
    match e {
        RhsValueType::LinearValue(c) => v == c,
        RhsValueType::LinearizerFunc(f, a) => call_ensures(f, (a,), v),
    }
}

/// The entry's function may be called on any argument (constants always may).
pub open spec fn rhs_callable<F: Fn(Fixed) -> Fixed>(e: RhsValueType<F>) -> bool {
    match e {
        RhsValueType::LinearValue(_) => true,
        RhsValueType::LinearizerFunc(f, _) => forall|a: Fixed| call_requires(f, (a,)),
    }
}

/// Some evaluation of the entry damps exactly to `o`.
pub open spec fn damped_entry_ok<F: Fn(Fixed) -> Fixed>(
    e: RhsValueType<F>,
    alpha: Fixed,
    k: int,
    o: Fixed,
) -> bool {
    exists|v: Fixed|
        #[trigger] rhs_eval_rel(e, v) && dampen_spec(v@, alpha@, k) == Ok::<int, SolveError>(o@)
}

/// Some evaluation of the entry fails to damp (leaves the range).
pub open spec fn damped_entry_err<F: Fn(Fixed) -> Fixed>(
    e: RhsValueType<F>,
    alpha: Fixed,
    k: int,
) -> bool {
    exists|v: Fixed|
        #[trigger] rhs_eval_rel(e, v) && dampen_spec(v@, alpha@, k) is Err
}

/// The same entry with its cached argument replaced; only a nonlinear
/// entry has a cached argument, so a constant keeps its value.
pub open spec fn rhs_with_arg<F>(e: RhsValueType<F>, v: Fixed) -> RhsValueType<F> {
    match e {
        RhsValueType::LinearValue(c) => RhsValueType::LinearValue(c),
        RhsValueType::LinearizerFunc(f, _) => RhsValueType::LinearizerFunc(f, v),
    }
}

/// Entries with every cached argument replaced by the paired value
/// (constants have no argument and stay themselves).
pub open spec fn rhs_with_args<F>(
    entries: Seq<RhsValueType<F>>,
    args: Seq<Fixed>,
) -> Seq<RhsValueType<F>> {
    Seq::new(entries.len(), |i: int| rhs_with_arg(entries[i], args[i]))
}

/// Replacing the cached arguments twice keeps only the last replacement.
pub proof fn lemma_rhs_with_args_twice<F>(
    entries: Seq<RhsValueType<F>>,
    a: Seq<Fixed>,
    b: Seq<Fixed>,
)
    ensures
        rhs_with_args(rhs_with_args(entries, a), b) == rhs_with_args(entries, b),
{
    assert(rhs_with_args(rhs_with_args(entries, a), b) =~= rhs_with_args(entries, b));
}

/// The entry vector as the driver holds it before step `t + 1`: the input
/// entries, with the damped vector of the previous step cached as the
/// arguments from the second step on.
pub open spec fn entries_at<F>(
    entries: Seq<RhsValueType<F>>,
    bs: Seq<Seq<Fixed>>,
    t: int,
) -> Seq<RhsValueType<F>> {
    if t <= 0 {
        entries
    } else {
        rhs_with_args(entries, bs[t - 1])
    }
}

/// `b` damps the entries componentwise: each component damps a permitted
/// evaluation of its entry at the entry's cached argument.
pub open spec fn damped_rhs_rel<F: Fn(Fixed) -> Fixed>(
    entries: Seq<RhsValueType<F>>,
    alpha: Fixed,
    k: int,
    b: Seq<Fixed>,
) -> bool {
    b.len() == entries.len() && forall|i: int|
        0 <= i < entries.len() ==> damped_entry_ok(entries[i], alpha, k, #[trigger] b[i])
}

/// An entry vector the driver can hold: the input itself, or the input
/// with some vector cached as the arguments.
pub open spec fn reachable_entries<F>(
    entries: Seq<RhsValueType<F>>,
    ent: Seq<RhsValueType<F>>,
) -> bool {
    ent == entries || exists|args: Seq<Fixed>| ent == #[trigger] rhs_with_args(entries, args)
}

impl<F: Fn(Fixed) -> Fixed> RhsValueType<F> {
    /// A constant entry.
    pub fn new_linear(f: Fixed) -> (r: Self)
        ensures
            r == RhsValueType::<F>::LinearValue(f),
    {
        Self::LinearValue(f)
    }

    /// A nonlinear entry with its initial argument.
    pub fn new_linearizer(f: F, arg: Fixed) -> (r: Self)
        ensures
            r == RhsValueType::<F>::LinearizerFunc(f, arg),
    {
        Self::LinearizerFunc(f, arg)
    }

    /// Evaluate the entry: the constant itself, or the function at its
    /// cached argument.
    pub fn result(&self) -> (r: Fixed)
        requires
            rhs_callable(*self),
        ensures
            rhs_eval_rel(*self, r),
    {
        match self {
            RhsValueType::LinearValue(f) => *f,
            RhsValueType::LinearizerFunc(f, arg) => f(*arg),
        }
    }

    /// Replace the cached argument; a constant entry has none and is left
    /// unchanged.
    pub fn update_arg(&mut self, value: Fixed)
        ensures
            *final(self) == rhs_with_arg(*old(self), value),
    {
        let mut tmp = Self::LinearValue(value);
        core::mem::swap(self, &mut tmp);
        match tmp {
            RhsValueType::LinearValue(c) => {
                *self = Self::LinearValue(c);
            },
            RhsValueType::LinearizerFunc(f, _) => {
                *self = Self::LinearizerFunc(f, value);
            },
        }
    }
}

/// Evaluate-and-dampen over a whole right-hand side, and pairwise argument
/// update, as methods on the entry vector.
pub trait NonLinearCalculateKth: Sized {
    /// What `calculate_linearize_at_kth` may return.
    spec fn calc_rel(&self, alpha: Fixed, k: usize, r: &Result<Vec<Fixed>, SolveError>) -> bool;

    /// When the evaluation may be run at all.
    spec fn calc_req(&self) -> bool;

    /// How `update_all` changes the entries.
    spec fn update_rel(pre: &Self, post: &Self, v: &Vec<Fixed>) -> bool;

    /// Evaluate every entry at its cached argument and damp it with
    /// `sign(x) * (alpha/k) * ln(1 + k*|x|)`.
    fn calculate_linearize_at_kth(&self, alpha: Fixed, k: usize) -> (r: Result<
        Vec<Fixed>,
        SolveError,
    >)
        requires
            self.calc_req(),
        ensures
            self.calc_rel(alpha, k, &r),
    ;

    /// Replace the cached arguments pairwise (up to the shorter length).
    fn update_all(&mut self, v: Vec<Fixed>)
        ensures
            Self::update_rel(old(self), final(self), &v),
    ;
}

impl<F: Fn(Fixed) -> Fixed> NonLinearCalculateKth for Vec<RhsValueType<F>> {
    open spec fn calc_rel(&self, alpha: Fixed, k: usize, r: &Result<Vec<Fixed>, SolveError>) -> bool {
        match *r {
            Ok(out) => out@.len() == self@.len() && forall|i: int|
                0 <= i < self@.len() ==> damped_entry_ok(self@[i], alpha, k as int, #[trigger] out@[i]),
            Err(e) => e == SolveError::NonFiniteResult && (exists|i: int|
                0 <= i < self@.len() && damped_entry_err(#[trigger] self@[i], alpha, k as int)),
        }
    }

    open spec fn calc_req(&self) -> bool {
        forall|i: int| 0 <= i < self@.len() ==> rhs_callable(#[trigger] self@[i])
    }

    open spec fn update_rel(pre: &Self, post: &Self, v: &Vec<Fixed>) -> bool {
        &&& post@.len() == pre@.len()
        &&& forall|i: int|
            0 <= i < pre@.len() && i < v@.len() ==> #[trigger] post@[i] == rhs_with_arg(
                pre@[i],
                v@[i],
            )
        &&& forall|i: int| v@.len() <= i < pre@.len() ==> #[trigger] post@[i] == pre@[i]
    }

    fn calculate_linearize_at_kth(&self, alpha: Fixed, k: usize) -> (r: Result<
        Vec<Fixed>,
        SolveError,
    >) {
        let n = self.len();
        let mut out: Vec<Fixed> = Vec::new();
        let mut i: usize = 0;
        while i < n
            invariant
                i <= n,
                self@.len() == n,
                self.calc_req(),
                out@.len() == i,
                forall|j: int|
                    0 <= j < i ==> damped_entry_ok(self@[j], alpha, k as int, #[trigger] out@[j]),
            decreases n - i,
        {
            let raw = self[i].result();
            match dampen_fixed(raw, alpha, k) {
                Ok(d) => {
                    out.push(d);
                    proof {
                        assert(rhs_eval_rel(self@[i as int], raw) && dampen_spec(
                            raw@,
                            alpha@,
                            k as int,
                        ) == Ok::<int, SolveError>(d@));
                        assert(damped_entry_ok(self@[i as int], alpha, k as int, d));
                        assert(out@[i as int] == d);
                    }
                },
                Err(_) => {
                    proof {
                        assert(rhs_eval_rel(self@[i as int], raw) && dampen_spec(
                            raw@,
                            alpha@,
                            k as int,
                        ) is Err);
                        assert(damped_entry_err(self@[i as int], alpha, k as int));
                    }
                    return Err(SolveError::NonFiniteResult);
                },
            }
            i += 1;
        }
        Ok(out)
    }

    fn update_all(&mut self, v: Vec<Fixed>) {
        let n = self.len();
        let m = v.len();
        let mut i: usize = 0;
        while i < n && i < m
            invariant
                self@.len() == n,
                old(self)@.len() == n,
                v@.len() == m,
                i <= n,
                i <= m,
                forall|j: int|
                    0 <= j < i && j < m ==> #[trigger] self@[j] == rhs_with_arg(
                        old(self)@[j],
                        v@[j],
                    ),
                forall|j: int| i <= j < n ==> #[trigger] self@[j] == old(self)@[j],
            decreases n - i,
        {
            let val = v[i];
            let mut e = RhsValueType::LinearValue(val);
            self.set_and_swap(i, &mut e);
            e.update_arg(val);
            self.set(i, e);
            i += 1;
        }
    }
}

/// A typed unknown: a node voltage or a branch current.  The tag is fixed
/// at construction; only the value changes across Newton steps.
#[derive(Clone, Copy, Debug, PartialEq, Eq, Structural)]
pub enum UnknownFactor {
    /// A node voltage.
    Voltage(Fixed),
    /// A branch current.
    Current(Fixed),
}

/// The raw value of an unknown.
pub open spec fn uf_val(u: UnknownFactor) -> Fixed {
    match u {
        UnknownFactor::Voltage(f) => f,
        UnknownFactor::Current(f) => f,
    }
}

/// The same unknown with its value replaced, tag kept.
pub open spec fn uf_with_val(u: UnknownFactor, v: Fixed) -> UnknownFactor {
    match u {
        UnknownFactor::Voltage(_) => UnknownFactor::Voltage(v),
        UnknownFactor::Current(_) => UnknownFactor::Current(v),
    }
}

/// Two unknowns of the same kind (both voltages or both currents).
pub open spec fn uf_same_kind(a: UnknownFactor, b: UnknownFactor) -> bool {
    (a is Voltage) == (b is Voltage)
}

/// The raw mantissas of a typed unknown vector.
pub open spec fn uf_mants(s: Seq<UnknownFactor>) -> Seq<int> {
    Seq::new(s.len(), |i: int| uf_val(s[i])@)
}

/// Does a (lowercased) word name a voltage unknown?
pub open spec fn voltage_word(s: Seq<char>) -> bool {
    crate::text::lower_seq(s) == "v"@ || crate::text::lower_seq(s) == "voltage"@
        || crate::text::lower_seq(s) == "volt"@
}

/// Does a (lowercased) word name a current unknown?
pub open spec fn current_word(s: Seq<char>) -> bool {
    crate::text::lower_seq(s) == "i"@ || crate::text::lower_seq(s) == "amperage"@
        || crate::text::lower_seq(s) == "current"@ || crate::text::lower_seq(s) == "ampers"@
        || crate::text::lower_seq(s) == "ampere"@ || crate::text::lower_seq(s) == "amper"@
}

impl UnknownFactor {
    /// A zero unknown of the kind the word names, or `None` for an unknown
    /// word.
    pub fn zero_factor(s: &str) -> (r: Option<UnknownFactor>)
        ensures
            r == (if voltage_word(s@) {
                Some(UnknownFactor::Voltage(Fixed { m: 0 }))
            } else if current_word(s@) {
                Some(UnknownFactor::Current(Fixed { m: 0 }))
            } else {
                None
            }),
    {
        if str_eq_lower(s, "v") || str_eq_lower(s, "voltage") || str_eq_lower(s, "volt") {
            Some(UnknownFactor::Voltage(Fixed::zero()))
        } else if str_eq_lower(s, "i") || str_eq_lower(s, "amperage") || str_eq_lower(s, "current")
            || str_eq_lower(s, "ampers") || str_eq_lower(s, "ampere") || str_eq_lower(s, "amper") {
            Some(UnknownFactor::Current(Fixed::zero()))
        } else {
            None
        }
    }

    /// Replace the value, keeping the kind.
    pub fn set(&mut self, value: Fixed)
        ensures
            *final(self) == uf_with_val(*old(self), value),
    {
        match self {
            UnknownFactor::Voltage(_) => {
                *self = UnknownFactor::Voltage(value);
            },
            UnknownFactor::Current(_) => {
                *self = UnknownFactor::Current(value);
            },
        }
    }

    /// The raw value.
    pub fn get(&self) -> (r: Fixed)
        ensures
            r == uf_val(*self),
    {
        match self {
            UnknownFactor::Voltage(f) => *f,
            UnknownFactor::Current(f) => *f,
        }
    }
}

/// Bulk get/set of raw values against a typed vector.
pub trait GetSetAll: Sized {
    /// What `get_all` returns.
    spec fn get_all_rel(&self, r: &Vec<Fixed>) -> bool;

    /// How `set_all` changes the vector.
    spec fn set_all_rel(pre: &Self, post: &Self, rep: &Vec<Fixed>) -> bool;

    /// All raw values, in order.
    fn get_all(&self) -> (r: Vec<Fixed>)
        ensures
            self.get_all_rel(&r),
    ;

    /// Write raw values back pairwise (up to the shorter length),
    /// preserving each slot's kind.
    fn set_all(&mut self, rep: Vec<Fixed>)
        ensures
            Self::set_all_rel(old(self), final(self), &rep),
    ;
}

impl GetSetAll for Vec<UnknownFactor> {
    open spec fn get_all_rel(&self, r: &Vec<Fixed>) -> bool {
        r@.len() == self@.len() && forall|i: int|
            0 <= i < self@.len() ==> #[trigger] r@[i] == uf_val(self@[i])
    }

    open spec fn set_all_rel(pre: &Self, post: &Self, rep: &Vec<Fixed>) -> bool {
        &&& post@.len() == pre@.len()
        &&& forall|i: int|
            0 <= i < pre@.len() && i < rep@.len() ==> #[trigger] post@[i] == uf_with_val(
                pre@[i],
                rep@[i],
            )
        &&& forall|i: int| rep@.len() <= i < pre@.len() ==> #[trigger] post@[i] == pre@[i]
    }

    fn get_all(&self) -> (r: Vec<Fixed>) {
        let n = self.len();
        let mut out: Vec<Fixed> = Vec::new();
        for i in 0..n
            invariant
                self@.len() == n,
                out@.len() == i,
                forall|j: int| 0 <= j < i ==> #[trigger] out@[j] == uf_val(self@[j]),
        {
            out.push(self[i].get());
        }
        out
    }

    fn set_all(&mut self, rep: Vec<Fixed>) {
        let n = self.len();
        let m = rep.len();
        let mut i: usize = 0;
        while i < n && i < m
            invariant
                self@.len() == n,
                old(self)@.len() == n,
                rep@.len() == m,
                i <= n,
                i <= m,
                forall|j: int|
                    0 <= j < i && j < m ==> #[trigger] self@[j] == uf_with_val(
                        old(self)@[j],
                        rep@[j],
                    ),
                forall|j: int| i <= j < n ==> #[trigger] self@[j] == old(self)@[j],
            decreases n - i,
        {
            let val = rep[i];
            let mut e = self[i];
            e.set(val);
            self.set(i, e);
            i += 1;
        }
    }
}

impl GetSetAll for Vec<Fixed> {
    open spec fn get_all_rel(&self, r: &Vec<Fixed>) -> bool {
        r@ == self@
    }

    open spec fn set_all_rel(pre: &Self, post: &Self, rep: &Vec<Fixed>) -> bool {
        &&& post@.len() == pre@.len()
        &&& forall|i: int|
            0 <= i < pre@.len() && i < rep@.len() ==> #[trigger] post@[i] == rep@[i]
        &&& forall|i: int| rep@.len() <= i < pre@.len() ==> #[trigger] post@[i] == pre@[i]
    }

    fn get_all(&self) -> (r: Vec<Fixed>) {
        let n = self.len();
        let mut out: Vec<Fixed> = Vec::new();
        for i in 0..n
            invariant
                self@.len() == n,
                out@.len() == i,
                forall|j: int| 0 <= j < i ==> #[trigger] out@[j] == self@[j],
        {
            out.push(self[i]);
        }
        proof {
            assert(out@ =~= self@);
        }
        out
    }

    fn set_all(&mut self, rep: Vec<Fixed>) {
        let n = self.len();
        let m = rep.len();
        let mut i: usize = 0;
        while i < n && i < m
            invariant
                self@.len() == n,
                old(self)@.len() == n,
                rep@.len() == m,
                i <= n,
                i <= m,
                forall|j: int| 0 <= j < i && j < m ==> #[trigger] self@[j] == rep@[j],
                forall|j: int| i <= j < n ==> #[trigger] self@[j] == old(self)@[j],
            decreases n - i,
        {
            let val = rep[i];
            self.set(i, val);
            i += 1;
        }
    }
}

/// One way a driver step can fail on entry vector `ent` at step `k` with
/// previous iterate `xp`: the damping of a permitted evaluation fails; or
/// the inner solver reports exactly this error for some damped right-hand
/// side; or the solver's solution length disagrees with the iterate.
pub open spec fn newton_step_err<F: Fn(Fixed) -> Fixed>(
    ent: Seq<RhsValueType<F>>,
    a: Seq<Seq<int>>,
    alpha: Fixed,
    k: int,
    xp: Seq<int>,
    solver: LinearSystemSolve,
    num_iter_solver: Option<usize>,
    abs_tol_solver: Option<Fixed>,
    rel_tol_solver: Option<Fixed>,
    e: SolveError,
) -> bool {
    ||| (e == SolveError::NonFiniteResult && (exists|i: int|
        0 <= i < ent.len() && damped_entry_err(#[trigger] ent[i], alpha, k)))
    ||| (exists|b: Seq<Fixed>|
        #[trigger] damped_rhs_rel(ent, alpha, k, b) && solve_spec(
            solver,
            a,
            vals(b),
            Some(xp),
            num_iter_solver,
            opt_val(abs_tol_solver),
            opt_val(rel_tol_solver),
        ) == Err::<Seq<int>, SolveError>(e))
    ||| (e == SolveError::ShapeMismatch && (exists|b: Seq<Fixed>|
        #[trigger] damped_rhs_rel(ent, alpha, k, b) && ({
            let rr = solve_spec(
                solver,
                a,
                vals(b),
                Some(xp),
                num_iter_solver,
                opt_val(abs_tol_solver),
                opt_val(rel_tol_solver),
            );
            rr is Ok && rr->Ok_0.len() != xp.len()
        })))
}

/// Where a driver error comes from: at some step within the cap, on some
/// entry vector the driver can hold and some previous iterate of the
/// system's length, one of the step failures of `newton_step_err`.
pub open spec fn newton_err_rel<F: Fn(Fixed) -> Fixed>(
    entries: Seq<RhsValueType<F>>,
    a: Seq<Seq<int>>,
    alpha: Fixed,
    num_iter: usize,
    solver: LinearSystemSolve,
    num_iter_solver: Option<usize>,
    abs_tol_solver: Option<Fixed>,
    rel_tol_solver: Option<Fixed>,
    n0: int,
    e: SolveError,
) -> bool {
    exists|ent: Seq<RhsValueType<F>>, k: int, xp: Seq<int>|
        1 <= k <= num_iter && reachable_entries(entries, ent) && xp.len() == n0
            && #[trigger] newton_step_err(
            ent,
            a,
            alpha,
            k,
            xp,
            solver,
            num_iter_solver,
            abs_tol_solver,
            rel_tol_solver,
            e,
        )
}

/// The record of a completed run with trajectory `traj`: one damped
/// right-hand side per step in `bs`, and the last step's solution in
/// `last_solved` (the trajectory stores only pre-update iterates).  Per
/// step `k = 1..=steps` (`steps == traj.len() - 1`): the entries carry the
/// previous step's damped vector as their cached arguments, `bs[k-1]`
/// damps them, and the inner solver maps the iterate `traj[k]` exactly to
/// `traj[k+1]` (to `last_solved` for the last step).  No step before the
/// last converged, and a run that stopped before the iteration cap did so
/// because its last solution converged against its iterate.  For a
/// constant-only right-hand side every `bs[k-1]` is fixed by `dampen_spec`
/// and the whole run is determined.
pub open spec fn newton_trace_rel<F: Fn(Fixed) -> Fixed>(
    entries: Seq<RhsValueType<F>>,
    a: Seq<Seq<int>>,
    traj: Seq<Vec<UnknownFactor>>,
    alpha: Fixed,
    num_iter: usize,
    abs_tol: Fixed,
    rel_tol: Fixed,
    solver: LinearSystemSolve,
    num_iter_solver: Option<usize>,
    abs_tol_solver: Option<Fixed>,
    rel_tol_solver: Option<Fixed>,
    bs: Seq<Seq<Fixed>>,
    last_solved: Seq<int>,
) -> bool {
    let steps = traj.len() as int - 1;
    &&& bs.len() == steps
    &&& forall|t: int|
        0 <= t < steps ==> damped_rhs_rel(entries_at(entries, bs, t), alpha, t + 1, #[trigger] bs[t])
    &&& forall|t: int|
        1 <= t < steps ==> solve_spec(
            solver,
            a,
            vals(bs[t - 1]),
            Some(uf_mants(#[trigger] traj[t]@)),
            num_iter_solver,
            opt_val(abs_tol_solver),
            opt_val(rel_tol_solver),
        ) == Ok::<Seq<int>, SolveError>(uf_mants(traj[t + 1]@))
    &&& forall|t: int|
        1 <= t < steps ==> !is_converged(
            uf_mants(#[trigger] traj[t + 1]@),
            uf_mants(traj[t]@),
            rel_tol@,
            abs_tol@,
        )
    &&& steps >= 1 ==> solve_spec(
        solver,
        a,
        vals(bs[steps - 1]),
        Some(uf_mants(traj[steps]@)),
        num_iter_solver,
        opt_val(abs_tol_solver),
        opt_val(rel_tol_solver),
    ) == Ok::<Seq<int>, SolveError>(last_solved)
    &&& (steps >= 1 && traj.len() < num_iter + 1) ==> is_converged(
        last_solved,
        uf_mants(traj[steps]@),
        rel_tol@,
        abs_tol@,
    )
}

/// Everything a successful driver run promises: the trajectory starts
/// with the initial guess `init0` (twice, since the first step's
/// pre-update iterate is the guess itself), grows by one entry per
/// completed step up to the cap, keeps lengths and voltage/current kinds,
/// and the whole run is recorded by `newton_trace_rel`.
pub open spec fn newton_ok_rel<F: Fn(Fixed) -> Fixed>(
    entries: Seq<RhsValueType<F>>,
    a: Seq<Seq<int>>,
    init0: Seq<UnknownFactor>,
    traj: Seq<Vec<UnknownFactor>>,
    alpha: Fixed,
    num_iter: usize,
    abs_tol: Fixed,
    rel_tol: Fixed,
    solver: LinearSystemSolve,
    num_iter_solver: Option<usize>,
    abs_tol_solver: Option<Fixed>,
    rel_tol_solver: Option<Fixed>,
) -> bool {
    &&& 1 <= traj.len() <= num_iter + 1
    &&& traj[0]@ == init0
    &&& num_iter >= 1 ==> traj.len() >= 2
    &&& traj.len() >= 2 ==> traj[1]@ == init0
    &&& forall|t: int| 0 <= t < traj.len() ==> (#[trigger] traj[t]@).len() == init0.len()
    &&& forall|t: int, i: int|
        0 <= t < traj.len() && 0 <= i < init0.len() ==> uf_same_kind(
            #[trigger] traj[t]@[i],
            init0[i],
        )
    &&& exists|bs: Seq<Seq<Fixed>>, last_solved: Seq<int>|
        #[trigger] newton_trace_rel(
            entries,
            a,
            traj,
            alpha,
            num_iter,
            abs_tol,
            rel_tol,
            solver,
            num_iter_solver,
            abs_tol_solver,
            rel_tol_solver,
            bs,
            last_solved,
        )
}

/// An owned copy of a typed unknown vector.
fn clone_unknowns(v: &Vec<UnknownFactor>) -> (r: Vec<UnknownFactor>)
    ensures
        r@ == v@,
{
    let n = v.len();
    let mut out: Vec<UnknownFactor> = Vec::new();
    for i in 0..n
        invariant
            v@.len() == n,
            out@.len() == i,
            forall|j: int| 0 <= j < i ==> #[trigger] out@[j] == v@[j],
    {
        out.push(v[i]);
    }
    proof {
        assert(out@ =~= v@);
    }
    out
}

/// The damped quasi-Newton driver.  Per outer iteration `k = 1..=max_iter`:
/// evaluate and damp the right-hand side at the cached arguments, solve the
/// linear system with the chosen inner method, append the pre-update
/// unknowns to the trajectory, stop when the solution agrees with the
/// previous iterate to the tolerances, else write the solution back
/// (keeping each slot's kind) and cache the damped values as the next
/// arguments.
///
/// On success the trajectory starts with the initial guess, grows by one
/// entry per completed iteration (never beyond `num_iter + 1`), keeps every
/// entry's length and the voltage/current kind of every slot, and the whole
/// run is recorded by `newton_trace_rel`: each recorded iterate is the
/// inner solver's exact result for its predecessor under a damped
/// right-hand side, no step before the last converged, and an early stop
/// converged.  An error is pinned by `newton_err_rel` to a damping or
/// inner-solver failure at a state the driver can hold.  The initial guess
/// itself is left unchanged.
#[verifier::rlimit(100)]
pub fn quasi_newton_iter_linear_until_converge<F: Fn(Fixed) -> Fixed>(
    coeffs_linear: &Vec<Vec<Fixed>>,
    rhs: Vec<RhsValueType<F>>,
    init_guess: &mut Vec<UnknownFactor>,
    alpha: Fixed,
    num_iter: usize,
    abs_tol: Fixed,
    rel_tol: Fixed,
    solver: LinearSystemSolve,
    num_iter_solver: Option<usize>,
    abs_tol_solver: Option<Fixed>,
    rel_tol_solver: Option<Fixed>,
) -> (r: Result<Vec<Vec<UnknownFactor>>, SolveError>)
    requires
        forall|i: int| 0 <= i < rhs@.len() ==> rhs_callable(#[trigger] rhs@[i]),
        num_iter < usize::MAX,
    ensures
        final(init_guess)@ == old(init_guess)@,
        (match r {
            Ok(traj) => newton_ok_rel(
                rhs@,
                mat_vals(coeffs_linear@),
                old(init_guess)@,
                traj@,
                alpha,
                num_iter,
                abs_tol,
                rel_tol,
                solver,
                num_iter_solver,
                abs_tol_solver,
                rel_tol_solver,
            ),
            Err(e) => newton_err_rel(
                rhs@,
                mat_vals(coeffs_linear@),
                alpha,
                num_iter,
                solver,
                num_iter_solver,
                abs_tol_solver,
                rel_tol_solver,
                old(init_guess)@.len() as int,
                e,
            ),
        }),
{
    let ghost rhs0 = rhs@;
    let ghost av = mat_vals(coeffs_linear@);
    let n0 = init_guess.len();
    let mut return_factors: Vec<Vec<UnknownFactor>> = Vec::new();
    return_factors.push(clone_unknowns(init_guess));
    let mut last_unknowns = clone_unknowns(init_guess);
    let mut last_rhs = rhs;
    let ghost mut bs: Seq<Seq<Fixed>> = Seq::empty();
    let mut k: usize = 1;
    while k <= num_iter
        invariant
            1 <= k <= num_iter + 1,
            num_iter < usize::MAX,
            init_guess@ == old(init_guess)@,
            init_guess@.len() == n0,
            rhs0 == rhs@,
            av == mat_vals(coeffs_linear@),
            forall|i: int| 0 <= i < last_rhs@.len() ==> rhs_callable(#[trigger] last_rhs@[i]),
            last_unknowns@.len() == n0,
            forall|i: int|
                0 <= i < n0 ==> uf_same_kind(#[trigger] last_unknowns@[i], init_guess@[i]),
            return_factors@.len() == k,
            return_factors@[0]@ == init_guess@,
            k == 1 ==> last_unknowns@ == init_guess@,
            k >= 2 ==> return_factors@[1]@ == init_guess@,
            forall|t: int|
                0 <= t < return_factors@.len() ==> (#[trigger] return_factors@[t]@).len() == n0,
            forall|t: int, i: int|
                0 <= t < return_factors@.len() && 0 <= i < n0 ==> uf_same_kind(
                    #[trigger] return_factors@[t]@[i],
                    init_guess@[i],
                ),
            bs.len() == k - 1,
            last_rhs@.len() == rhs0.len(),
            last_rhs@ == entries_at(rhs0, bs, k - 1),
            forall|t: int|
                0 <= t < k - 1 ==> damped_rhs_rel(
                    entries_at(rhs0, bs, t),
                    alpha,
                    t + 1,
                    #[trigger] bs[t],
                ),
            forall|t: int|
                1 <= t < k - 1 ==> solve_spec(
                    solver,
                    av,
                    vals(bs[t - 1]),
                    Some(uf_mants(#[trigger] return_factors@[t]@)),
                    num_iter_solver,
                    opt_val(abs_tol_solver),
                    opt_val(rel_tol_solver),
                ) == Ok::<Seq<int>, SolveError>(uf_mants(return_factors@[t + 1]@)),
            forall|t: int|
                1 <= t < k - 1 ==> !is_converged(
                    uf_mants(#[trigger] return_factors@[t + 1]@),
                    uf_mants(return_factors@[t]@),
                    rel_tol@,
                    abs_tol@,
                ),
            k >= 2 ==> solve_spec(
                solver,
                av,
                vals(bs[k - 2]),
                Some(uf_mants(return_factors@[k - 1]@)),
                num_iter_solver,
                opt_val(abs_tol_solver),
                opt_val(rel_tol_solver),
            ) == Ok::<Seq<int>, SolveError>(uf_mants(last_unknowns@)),
            k >= 2 ==> !is_converged(
                uf_mants(last_unknowns@),
                uf_mants(return_factors@[k - 1]@),
                rel_tol@,
                abs_tol@,
            ),
        decreases num_iter + 1 - k,
    {
        let ghost pre_bs = bs;
        let last_unknowns_values = last_unknowns.get_all();
        proof {
            assert(vals(last_unknowns_values@) =~= uf_mants(last_unknowns@));
            assert(reachable_entries(rhs0, last_rhs@)) by {
                if k >= 2 {
                    assert(last_rhs@ == rhs_with_args(rhs0, bs[k - 2]));
                }
            }
        }
        let rhs_at_k = match last_rhs.calculate_linearize_at_kth(alpha, k) {
            Ok(v) => v,
            Err(e) => {
                proof {
                    assert(newton_step_err(
                        last_rhs@,
                        av,
                        alpha,
                        k as int,
                        uf_mants(last_unknowns@),
                        solver,
                        num_iter_solver,
                        abs_tol_solver,
                        rel_tol_solver,
                        e,
                    ));
                    assert(newton_err_rel(
                        rhs0,
                        av,
                        alpha,
                        num_iter,
                        solver,
                        num_iter_solver,
                        abs_tol_solver,
                        rel_tol_solver,
                        n0 as int,
                        e,
                    ));
                }
                return Err(e);
            },
        };
        proof {
            assert(damped_rhs_rel(last_rhs@, alpha, k as int, rhs_at_k@));
            bs = bs.push(rhs_at_k@);
            assert forall|t: int|
                0 <= t < k implies damped_rhs_rel(
                entries_at(rhs0, bs, t),
                alpha,
                t + 1,
                #[trigger] bs[t],
            ) by {
                if t < k - 1 {
                    assert(bs[t] == pre_bs[t]);
                    if t >= 1 {
                        assert(bs[t - 1] == pre_bs[t - 1]);
                    }
                    assert(entries_at(rhs0, bs, t) == entries_at(rhs0, pre_bs, t));
                } else {
                    assert(bs[t] == rhs_at_k@);
                    if t >= 1 {
                        assert(bs[t - 1] == pre_bs[t - 1]);
                    }
                    assert(entries_at(rhs0, bs, t) == last_rhs@);
                }
            }
            assert forall|t: int|
                1 <= t < k - 1 implies solve_spec(
                solver,
                av,
                vals(bs[t - 1]),
                Some(uf_mants(#[trigger] return_factors@[t]@)),
                num_iter_solver,
                opt_val(abs_tol_solver),
                opt_val(rel_tol_solver),
            ) == Ok::<Seq<int>, SolveError>(uf_mants(return_factors@[t + 1]@)) by {
                assert(bs[t - 1] == pre_bs[t - 1]);
            }
            if k >= 2 {
                assert(bs[k - 2] == pre_bs[k - 2]);
            }
        }
        let solved_at_k = match solver.solve(
            coeffs_linear,
            &rhs_at_k,
            Some(&last_unknowns_values),
            num_iter_solver,
            abs_tol_solver,
            rel_tol_solver,
        ) {
            Ok(v) => v,
            Err(e) => {
                proof {
                    assert(solve_spec(
                        solver,
                        av,
                        vals(rhs_at_k@),
                        Some(uf_mants(last_unknowns@)),
                        num_iter_solver,
                        opt_val(abs_tol_solver),
                        opt_val(rel_tol_solver),
                    ) == Err::<Seq<int>, SolveError>(e));
                    assert(newton_step_err(
                        last_rhs@,
                        av,
                        alpha,
                        k as int,
                        uf_mants(last_unknowns@),
                        solver,
                        num_iter_solver,
                        abs_tol_solver,
                        rel_tol_solver,
                        e,
                    ));
                    assert(newton_err_rel(
                        rhs0,
                        av,
                        alpha,
                        num_iter,
                        solver,
                        num_iter_solver,
                        abs_tol_solver,
                        rel_tol_solver,
                        n0 as int,
                        e,
                    ));
                }
                return Err(e);
            },
        };
        proof {
            assert(solve_spec(
                solver,
                av,
                vals(rhs_at_k@),
                Some(uf_mants(last_unknowns@)),
                num_iter_solver,
                opt_val(abs_tol_solver),
                opt_val(rel_tol_solver),
            ) == Ok::<Seq<int>, SolveError>(vals(solved_at_k@)));
        }
        return_factors.push(clone_unknowns(&last_unknowns));
        proof {
            assert(return_factors@[k as int]@ == last_unknowns@);
            assert forall|t: int|
                1 <= t < k implies solve_spec(
                solver,
                av,
                vals(bs[t - 1]),
                Some(uf_mants(#[trigger] return_factors@[t]@)),
                num_iter_solver,
                opt_val(abs_tol_solver),
                opt_val(rel_tol_solver),
            ) == Ok::<Seq<int>, SolveError>(uf_mants(return_factors@[t + 1]@)) by {
            }
            assert forall|t: int|
                1 <= t < k implies !is_converged(
                uf_mants(#[trigger] return_factors@[t + 1]@),
                uf_mants(return_factors@[t]@),
                rel_tol@,
                abs_tol@,
            ) by {
            }
        }
        let conv = if solved_at_k.len() == last_unknowns_values.len() {
            match is_diagonally_converged(&solved_at_k, &last_unknowns_values, rel_tol, abs_tol) {
                Ok(b) => b,
                Err(_) => {
                    assert(false);
                    return Err(SolveError::ShapeMismatch);
                },
            }
        } else {
            proof {
                assert(newton_step_err(
                    last_rhs@,
                    av,
                    alpha,
                    k as int,
                    uf_mants(last_unknowns@),
                    solver,
                    num_iter_solver,
                    abs_tol_solver,
                    rel_tol_solver,
                    SolveError::ShapeMismatch,
                ));
                assert(newton_err_rel(
                    rhs0,
                    av,
                    alpha,
                    num_iter,
                    solver,
                    num_iter_solver,
                    abs_tol_solver,
                    rel_tol_solver,
                    n0 as int,
                    SolveError::ShapeMismatch,
                ));
            }
            return Err(SolveError::ShapeMismatch);
        };
        if conv {
            proof {
                assert(newton_trace_rel(
                    rhs0,
                    av,
                    return_factors@,
                    alpha,
                    num_iter,
                    abs_tol,
                    rel_tol,
                    solver,
                    num_iter_solver,
                    abs_tol_solver,
                    rel_tol_solver,
                    bs,
                    vals(solved_at_k@),
                ));
                assert(newton_ok_rel(
                    rhs0,
                    av,
                    init_guess@,
                    return_factors@,
                    alpha,
                    num_iter,
                    abs_tol,
                    rel_tol,
                    solver,
                    num_iter_solver,
                    abs_tol_solver,
                    rel_tol_solver,
                ));
            }
            return Ok(return_factors);
        }
        last_unknowns.set_all(solved_at_k);
        proof {
            assert(uf_mants(last_unknowns@) =~= vals(solved_at_k@));
        }
        let ghost pre_entries = last_rhs@;
        last_rhs.update_all(rhs_at_k);
        proof {
            assert(last_rhs@ =~= rhs_with_args(pre_entries, rhs_at_k@));
            lemma_rhs_with_args_twice(rhs0, if k == 1 {
                rhs_at_k@
            } else {
                pre_bs[k - 2]
            }, rhs_at_k@);
            if k == 1 {
                assert(rhs_with_args(pre_entries, rhs_at_k@) =~= rhs_with_args(rhs0, rhs_at_k@));
            }
            assert(last_rhs@ == entries_at(rhs0, bs, k as int));
            assert forall|i: int| 0 <= i < last_rhs@.len() implies rhs_callable(
                #[trigger] last_rhs@[i],
            ) by {
            }
        }
        k += 1;
    }
    proof {
        assert(newton_trace_rel(
            rhs0,
            av,
            return_factors@,
            alpha,
            num_iter,
            abs_tol,
            rel_tol,
            solver,
            num_iter_solver,
            abs_tol_solver,
            rel_tol_solver,
            bs,
            uf_mants(last_unknowns@),
        ));
        assert(newton_ok_rel(
            rhs0,
            av,
            init_guess@,
            return_factors@,
            alpha,
            num_iter,
            abs_tol,
            rel_tol,
            solver,
            num_iter_solver,
            abs_tol_solver,
            rel_tol_solver,
        ));
    }
    Ok(return_factors)
}

} // verus!
