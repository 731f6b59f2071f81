//! Variables and signed literals.
//!
//! A literal is encoded as `2 * variable + polarity_bit`, where the polarity
//! bit is 0 for the positive literal and 1 for the negated one. Negation is
//! a flip of the lowest bit, and both polarities of a variable are adjacent,
//! which makes the code a convenient dense key for per-literal tables.

use vstd::prelude::*;

verus! {

/// A propositional variable: an identity in `[0, V)`.
#[derive(Copy, Clone, Debug, PartialEq, Eq, Structural)]
pub struct Variable {
    index: u32,
}

impl Variable {
    /// The variable's index, as seen by specifications.
    pub closed spec fn spec_index(self) -> u32 {
        self.index
    }

    pub fn from_index(index: u32) -> (r: Variable)
        ensures
            r.spec_index() == index,
    {
        Variable { index }
    }

    #[verifier::when_used_as_spec(spec_index)]
    pub fn index(self) -> (r: u32)
        ensures
            r == self.spec_index(),
    {
        self.index
    }
}

/// A variable together with a polarity, encoded as `2 * variable + bit`
/// (bit 0: positive, bit 1: negated).
#[derive(Copy, Clone, Debug, PartialEq, Eq, Structural)]
pub struct Literal {
    pub code: u32,
}

impl Literal {
    /// The raw `2 * variable + polarity_bit` code, as seen by specifications.
    pub open spec fn spec_code(self) -> u32 {
        self.code
    }

    /// The index of the underlying variable.
    pub open spec fn var_index(self) -> u32 {
        self.spec_code() / 2
    }

    /// Whether this is the positive literal of its variable.
    pub open spec fn spec_is_positive(self) -> bool {
        self.spec_code() % 2 == 0
    }

    /// The same variable with the opposite polarity.
    pub open spec fn spec_negate(self) -> Literal {
        if self.spec_code() % 2 == 0 {
            Literal { code: (self.spec_code() + 1) as u32 }
        } else {
            Literal { code: (self.spec_code() - 1) as u32 }
        }
    }

    /// The literal denoted by a nonzero DIMACS integer: the sign is the
    /// polarity and `|i| - 1` is the variable index.
    pub open spec fn spec_from_dimacs(i: int) -> Literal {
        if i > 0 {
            Literal { code: (2 * (i - 1)) as u32 }
        } else {
            Literal { code: (2 * (-i - 1) + 1) as u32 }
        }
    }

    pub fn from_dimacs(i: i32) -> (r: Literal)
        requires
            i != 0,
        ensures
            r == Literal::spec_from_dimacs(i as int),
    {
        if i > 0 {
            Literal { code: 2 * ((i as u32) - 1) }
        } else {
            let magnitude: i64 = -(i as i64);
            Literal { code: 2 * ((magnitude - 1) as u32) + 1 }
        }
    }

    /// The literal for variable `index` with the given polarity.
    pub fn from_index(index: u32, positive: bool) -> (r: Literal)
        requires
            index < 0x8000_0000,
        ensures
            r.var_index() == index,
            r.spec_is_positive() == positive,
    {
        Literal { code: 2 * index + if positive { 0 } else { 1 } }
    }

    pub fn variable(self) -> (r: Variable)
        ensures
            r.spec_index() == self.var_index(),
    {
        Variable { index: self.code / 2 }
    }

    pub fn is_positive(self) -> (r: bool)
        ensures
            r == self.spec_is_positive(),
    {
        self.code % 2 == 0
    }

    pub fn negate(self) -> (r: Literal)
        ensures
            r == self.spec_negate(),
    {
        if self.code % 2 == 0 {
            Literal { code: self.code + 1 }
        } else {
            Literal { code: self.code - 1 }
        }
    }

    /// The raw code, used as a key into per-literal tables.
    #[verifier::when_used_as_spec(spec_code)]
    pub fn index(self) -> (r: u32)
        ensures
            r == self.spec_code(),
    {
        self.code
    }
}

/// Negation is an involution that keeps the variable and flips the polarity.
pub proof fn lemma_negate_involution(l: Literal)
    ensures
        l.spec_negate().spec_negate() == l,
        l.spec_negate().var_index() == l.var_index(),
        l.spec_negate().spec_is_positive() == !l.spec_is_positive(),
        l.spec_negate() != l,
{
}

} // verus!
