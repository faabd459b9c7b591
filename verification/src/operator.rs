use vstd::prelude::*;

verus! {

/// The kinds of operator that a computed vertex can apply.
#[derive(Clone, Copy, Debug, PartialEq, Eq, Structural)]
pub enum Operator {
    /// Sum of two inputs.
    Add,
    /// First input minus the second.
    Sub,
    /// Product of two inputs.
    Mul,
    /// First input divided by the second.
    Div,
    /// Sine of one input, in radians.
    Sin,
    /// First input raised to the power of the second.
    Pow,
}

impl Operator {
    /// The number of inputs that the operator takes.
    pub open spec fn spec_arity(self) -> nat {
        match self {
            Operator::Sin => 1,
            _ => 2,
        }
    }

    /// The number of inputs that the operator takes.
    pub fn arity(self) -> (count: usize)
        ensures
            count == self.spec_arity(),
    {
        match self {
            Operator::Sin => 1,
            _ => 2,
        }
    }
}

} // verus!
