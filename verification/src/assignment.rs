//! Per-variable assignment values.

use vstd::prelude::*;

use crate::literal::{Literal, Variable};

verus! {

/// Possible assignment values for a variable.
#[derive(Copy, Clone, Debug, PartialEq, Eq, Structural)]
pub enum AssignedValue {
    True,
    False,
    Unknown,
}

/// Negation on assignment values: `Unknown` is self-dual.
pub open spec fn spec_not_value(v: AssignedValue) -> AssignedValue {
    match v {
        AssignedValue::True => AssignedValue::False,
        AssignedValue::False => AssignedValue::True,
        AssignedValue::Unknown => AssignedValue::Unknown,
    }
}

impl AssignedValue {
    pub fn not(self) -> (r: AssignedValue)
        ensures
            r == spec_not_value(self),
    {
        match self {
            AssignedValue::True => AssignedValue::False,
            AssignedValue::False => AssignedValue::True,
            AssignedValue::Unknown => AssignedValue::Unknown,
        }
    }
}

/// The value of a literal under an assignment: the value of its variable,
/// negated for a negative literal. A variable outside the assignment's
/// range is `Unknown`.
pub open spec fn spec_literal_value(a: Seq<AssignedValue>, l: Literal) -> AssignedValue {
    if l.var_index() < a.len() {
        if l.spec_is_positive() {
            a[l.var_index() as int]
        } else {
            spec_not_value(a[l.var_index() as int])
        }
    } else {
        AssignedValue::Unknown
    }
}

/// For every assignment and every literal, the value of the negated literal
/// is the negation of the literal's value (`Unknown` is self-dual).
pub proof fn lemma_literal_value_negation(a: Seq<AssignedValue>, l: Literal)
    ensures
        spec_literal_value(a, l.spec_negate()) == spec_not_value(spec_literal_value(a, l)),
{
    crate::literal::lemma_negate_involution(l);
}

/// A literal can only be true under an assignment if its variable is in
/// range and carries an assigned (non-`Unknown`) value.
pub proof fn lemma_true_literal_assigned(a: Seq<AssignedValue>, l: Literal)
    requires
        spec_literal_value(a, l) == AssignedValue::True,
    ensures
        l.var_index() < a.len(),
        a[l.var_index() as int] != AssignedValue::Unknown,
{
}

/// A literal whose value is `Unknown` sits on an unassigned variable
/// (negation maps only `Unknown` to `Unknown`).
pub proof fn lemma_unknown_literal_unassigned(a: Seq<AssignedValue>, l: Literal)
    requires
        l.var_index() < a.len(),
        spec_literal_value(a, l) == AssignedValue::Unknown,
    ensures
        a[l.var_index() as int] == AssignedValue::Unknown,
{
}

/// Holds assignments to variables.
#[derive(Clone, Debug, PartialEq, Eq)]
pub struct VariableAssignment {
    /// maps variables to assignments, indexed by the variable's index
    partial: Vec<AssignedValue>,
}

impl View for VariableAssignment {
    type V = Seq<AssignedValue>;

    closed spec fn view(&self) -> Seq<AssignedValue> {
        self.partial@
    }
}

impl Default for VariableAssignment {
    fn default() -> (r: VariableAssignment)
        ensures
            r@.len() == 0,
    {
        VariableAssignment { partial: Vec::new() }
    }
}

impl VariableAssignment {
    /// Grows or shrinks the assignment to cover `var_count` variables; new
    /// variables start out `Unknown`.
    pub fn resize(&mut self, var_count: usize)
        ensures
            final(self)@.len() == var_count,
            forall|i: int|
                0 <= i < var_count ==> final(self)@[i] == if i < old(self)@.len() {
                    old(self)@[i]
                } else {
                    AssignedValue::Unknown
                },
    {
        if self.partial.len() > var_count {
            self.partial.truncate(var_count);
        } else {
            while self.partial.len() < var_count
                invariant
                    old(self)@.len() <= self@.len() <= var_count,
                    forall|i: int|
                        0 <= i < self@.len() ==> self@[i] == if i < old(self)@.len() {
                            old(self)@[i]
                        } else {
                            AssignedValue::Unknown
                        },
                decreases var_count - self@.len(),
            {
                self.partial.push(AssignedValue::Unknown);
            }
        }
    }

    /// Makes `lit` true: sets its variable to the polarity of `lit`.
    pub fn assign_true(&mut self, lit: Literal)
        requires
            lit.var_index() < old(self)@.len(),
        ensures
            final(self)@ == old(self)@.update(
                lit.var_index() as int,
                if lit.spec_is_positive() {
                    AssignedValue::True
                } else {
                    AssignedValue::False
                },
            ),
            spec_literal_value(final(self)@, lit) == AssignedValue::True,
    {
        self.partial[lit.variable().index() as usize] = if lit.is_positive() {
            AssignedValue::True
        } else {
            AssignedValue::False
        };
    }

    pub fn assign_unknown(&mut self, var: Variable)
        requires
            var.spec_index() < old(self)@.len(),
        ensures
            final(self)@ == old(self)@.update(var.spec_index() as int, AssignedValue::Unknown),
    {
        self.partial[var.index() as usize] = AssignedValue::Unknown;
    }

    pub fn value(&self, var: Variable) -> (r: AssignedValue)
        requires
            var.spec_index() < self@.len(),
        ensures
            r == self@[var.spec_index() as int],
    {
        self.partial[var.index() as usize]
    }

    pub fn literal_value(&self, lit: Literal) -> (r: AssignedValue)
        requires
            lit.var_index() < self@.len(),
        ensures
            r == spec_literal_value(self@, lit),
    {
        let variable_value = self.value(lit.variable());
        if lit.is_positive() {
            variable_value
        } else {
            variable_value.not()
        }
    }

    /// The number of variables the assignment covers.
    pub fn var_count(&self) -> (r: usize)
        ensures
            r == self@.len(),
    {
        self.partial.len()
    }

    /// Returns the literals that are assigned: for every non-`Unknown`
    /// variable, in increasing variable order, the literal made true.
    pub fn partial(&self) -> (r: Vec<Literal>)
        requires
            self@.len() <= 0x8000_0000,
        ensures
            forall|i: int|
                0 <= i < r@.len() ==> (#[trigger] r@[i]).var_index() < self@.len()
                    && spec_literal_value(self@, r@[i]) == AssignedValue::True,
            forall|i: int, j: int|
                0 <= i < j < r@.len() ==> r@[i].var_index() < r@[j].var_index(),
            forall|v: int|
                0 <= v < self@.len() && self@[v] != AssignedValue::Unknown ==> exists|i: int|
                    0 <= i < r@.len() && (#[trigger] r@[i]).var_index() == v,
    {
        let mut out: Vec<Literal> = Vec::new();
        let mut v: usize = 0;
        while v < self.partial.len()
            invariant
                v <= self@.len(),
                self@.len() <= 0x8000_0000,
                forall|i: int|
                    0 <= i < out@.len() ==> (#[trigger] out@[i]).var_index() < v
                        && spec_literal_value(self@, out@[i]) == AssignedValue::True,
                forall|i: int, j: int|
                    0 <= i < j < out@.len() ==> out@[i].var_index() < out@[j].var_index(),
                forall|w: int|
                    0 <= w < v && self@[w] != AssignedValue::Unknown ==> exists|i: int|
                        0 <= i < out@.len() && (#[trigger] out@[i]).var_index() == w,
            decreases self@.len() - v,
        {
            let value = self.partial[v];
            if value != AssignedValue::Unknown {
                let lit = Literal::from_index(v as u32, value == AssignedValue::True);
                let ghost prev = out@;
                out.push(lit);
                proof {
                    assert forall|w: int|
                        0 <= w <= v && self@[w] != AssignedValue::Unknown implies exists|i: int|
                        0 <= i < out@.len() && (#[trigger] out@[i]).var_index() == w by {
                        if w == v {
                            assert(out@[out@.len() - 1].var_index() == w);
                        } else {
                            let i = choose|i: int|
                                0 <= i < prev.len() && (#[trigger] prev[i]).var_index() == w;
                            assert(out@[i].var_index() == w);
                        }
                    }
                }
            }
            v += 1;
        }
        out
    }

    /// Returns the variables that are still `Unknown`, in increasing order.
    pub fn unassigned(&self) -> (r: Vec<Variable>)
        requires
            self@.len() <= 0x8000_0000,
        ensures
            forall|i: int|
                0 <= i < r@.len() ==> (#[trigger] r@[i]).spec_index() < self@.len()
                    && self@[r@[i].spec_index() as int] == AssignedValue::Unknown,
            forall|i: int, j: int|
                0 <= i < j < r@.len() ==> r@[i].spec_index() < r@[j].spec_index(),
            forall|v: int|
                0 <= v < self@.len() && self@[v] == AssignedValue::Unknown ==> exists|i: int|
                    0 <= i < r@.len() && (#[trigger] r@[i]).spec_index() == v,
    {
        let mut out: Vec<Variable> = Vec::new();
        let mut v: usize = 0;
        while v < self.partial.len()
            invariant
                v <= self@.len(),
                self@.len() <= 0x8000_0000,
                forall|i: int|
                    0 <= i < out@.len() ==> (#[trigger] out@[i]).spec_index() < v
                        && self@[out@[i].spec_index() as int] == AssignedValue::Unknown,
                forall|i: int, j: int|
                    0 <= i < j < out@.len() ==> out@[i].spec_index() < out@[j].spec_index(),
                forall|w: int|
                    0 <= w < v && self@[w] == AssignedValue::Unknown ==> exists|i: int|
                        0 <= i < out@.len() && (#[trigger] out@[i]).spec_index() == w,
            decreases self@.len() - v,
        {
            if self.partial[v] == AssignedValue::Unknown {
                let ghost prev = out@;
                out.push(Variable::from_index(v as u32));
                proof {
                    assert forall|w: int|
                        0 <= w <= v && self@[w] == AssignedValue::Unknown implies exists|i: int|
                        0 <= i < out@.len() && (#[trigger] out@[i]).spec_index() == w by {
                        if w == v {
                            assert(out@[out@.len() - 1].spec_index() == w);
                        } else {
                            let i = choose|i: int|
                                0 <= i < prev.len() && (#[trigger] prev[i]).spec_index() == w;
                            assert(out@[i].spec_index() == w);
                        }
                    }
                }
            }
            v += 1;
        }
        out
    }
}

} // verus!
