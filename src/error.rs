use vstd::prelude::*;

verus! {

/// Every way compiling or running a program can fail. All of them end the
/// current compilation or evaluation.
#[derive(Debug, Clone, Copy, PartialEq, Eq, Structural)]
pub enum VmError {
    /// An opcode byte outside the table, or operand bytes missing at the end of the code.
    Decode,
    /// A pop from an empty value stack.
    StackUnderflow,
    /// Arithmetic on a value that is not a number, or a call of a value that is not a function.
    Type,
    /// Fewer arguments at a call than the function's arity.
    Arity,
    /// An integer result, or an integer exponent, that does not fit its type.
    IntegerOverflow,
    /// An integer division or remainder by zero.
    DivisionByZero,
    /// A load or store of a global that was never declared.
    Reference,
    /// A statement the compiler cannot lower, or a local declared with no scope.
    Compile,
    /// A broken internal invariant: a closed upvalue among the open ones, a label
    /// used but never marked or marked twice, a missing return frame, a slot
    /// outside the stack.
    InternalInvariant,
}

} // verus!
