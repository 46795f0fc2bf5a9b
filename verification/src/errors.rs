use vstd::prelude::*;

verus! {

/// What an engine operation can report instead of succeeding. The engine
/// itself never fails; these are raised by the operators built on it, and a
/// caller turns them into user-facing text.
#[derive(Clone, Copy, Debug, PartialEq, Eq)]
pub enum Error {
    /// Fewer cells on the stack than the operation needs, or none of the
    /// representations it accepts fits all of them.
    InsufficientOperands,
    /// Operands of a kind the operation cannot take.
    TypeMismatch,
    /// A divisor equal to zero, detected before the stack is touched.
    DivisionByZero,
    /// The exact result does not fit the machine's integers.
    Unrepresentable,
}

} // verus!
