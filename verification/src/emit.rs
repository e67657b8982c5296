//! Emission of the elementwise-operation code snippets: each helper builds
//! the text of an iterator chain around an operand, an operator and a
//! right-hand side, and the contract pins the built text down to the exact
//! concatenation.

use vstd::prelude::*;

verus! {

/// The scalar form: map the operand's items against the scalar right-hand
/// side.
pub fn replace_scalar(operand: &str, rhs: &str, operator: &str) -> (r: String)
    ensures
        r@ == operand@ + ".iter().cloned().map(|it| it "@ + operator@ + " "@ + rhs@
            + ").collect::<Vec<_>>()"@,
{
    let mut out = String::new();
    out.append(operand);
    out.append(".iter().cloned().map(|it| it ");
    out.append(operator);
    out.append(" ");
    out.append(rhs);
    out.append(").collect::<Vec<_>>()");
    out
}

/// The vector form: zip the operand with the right-hand side and map the
/// operator over the pairs.
pub fn replace_vector(operand: &str, rhs: &str, operator: &str) -> (r: String)
    ensures
        r@ == operand@ + ".iter().cloned().zip("@ + rhs@
            + ".iter().cloned()).map(|(op, rhs)| op "@ + operator@
            + " rhs).collect::<Vec<_>>()"@,
{
    let mut out = String::new();
    out.append(operand);
    out.append(".iter().cloned().zip(");
    out.append(rhs);
    out.append(".iter().cloned()).map(|(op, rhs)| op ");
    out.append(operator);
    out.append(" rhs).collect::<Vec<_>>()");
    out
}

/// The accumulating form: like the vector form, but summed to a scalar.
pub fn replace_accumulator(operand: &str, rhs: &str, operator: &str) -> (r: String)
    ensures
        r@ == operand@ + ".iter().cloned().zip("@ + rhs@
            + ".iter().cloned()).map(|(op, rhs)| op "@ + operator@ + " rhs).sum::<_>()"@,
{
    let mut out = String::new();
    out.append(operand);
    out.append(".iter().cloned().zip(");
    out.append(rhs);
    out.append(".iter().cloned()).map(|(op, rhs)| op ");
    out.append(operator);
    out.append(" rhs).sum::<_>()");
    out
}

} // verus!
