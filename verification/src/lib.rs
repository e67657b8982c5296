//! Dense-linear-algebra and nonlinear-iteration engine for a modified nodal
//! analysis circuit simulator.
//!
//! The kernel works on an exact fixed-point scalar (`fixed::Fixed`), so every
//! arithmetic step has a precise integer-level meaning that the contracts pin
//! down: LU factorization with partial pivoting, forward/back substitution,
//! Gauss-Jacobi and Gauss-Seidel iteration, and a damped quasi-Newton driver.

pub mod damp;
pub mod emit;
pub mod fixed;
pub mod iterative;
pub mod kernel;
pub mod laws;
pub mod lu;
pub mod netlist;
pub mod newton;
pub mod solve;
pub mod text;
pub mod vector;
