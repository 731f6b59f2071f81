//! A formula in conjunctive normal form, as handed to the solver.

use vstd::prelude::*;

use crate::clause_db::Clause;
use crate::literal::Literal;

verus! {

/// A conjunction of clauses.
#[derive(Debug)]
pub struct CNF {
    clauses: Vec<Clause>,
}

impl View for CNF {
    type V = Seq<Seq<Literal>>;

    closed spec fn view(&self) -> Seq<Seq<Literal>> {
        Seq::new(self.clauses@.len(), |i: int| self.clauses@[i]@)
    }
}

impl CNF {
    /// Builds a formula from clauses of DIMACS integers: nonzero, the sign
    /// the polarity, `|i| - 1` the variable index.
    pub fn from_clauses(clauses: &Vec<Vec<i32>>) -> (r: CNF)
        requires
            forall|i: int, k: int|
                0 <= i < clauses@.len() && 0 <= k < clauses@[i]@.len() ==> (#[trigger] clauses@[i]@[k]) != 0 && -0x4000_0000 <= clauses@[i]@[k] <= 0x4000_0000,
        ensures
            r@.len() == clauses@.len(),
            forall|i: int|
                0 <= i < clauses@.len() ==> (#[trigger] r@[i]).len() == clauses@[i]@.len(),
            forall|i: int, k: int|
                0 <= i < clauses@.len() && 0 <= k < clauses@[i]@.len() ==> (#[trigger] r@[i][k])
                    == Literal::spec_from_dimacs(clauses@[i]@[k] as int),
    {
        let mut out: Vec<Clause> = Vec::new();
        let mut i: usize = 0;
        while i < clauses.len()
            invariant
                i <= clauses@.len(),
                out@.len() == i,
                forall|a: int, k: int|
                    0 <= a < clauses@.len() && 0 <= k < clauses@[a]@.len() ==> (
                    #[trigger] clauses@[a]@[k]) != 0 && -0x4000_0000 <= clauses@[a]@[k]
                        <= 0x4000_0000,
                forall|a: int| 0 <= a < i ==> (#[trigger] out@[a])@.len() == clauses@[a]@.len(),
                forall|a: int, k: int|
                    0 <= a < i && 0 <= k < clauses@[a]@.len() ==> (#[trigger] out@[a]@[k])
                        == Literal::spec_from_dimacs(clauses@[a]@[k] as int),
            decreases clauses@.len() - i,
        {
            let mut lits: Vec<Literal> = Vec::new();
            let mut k: usize = 0;
            while k < clauses[i].len()
                invariant
                    i < clauses@.len(),
                    k <= clauses@[i as int]@.len(),
                    lits@.len() == k,
                    forall|a: int, b: int|
                        0 <= a < clauses@.len() && 0 <= b < clauses@[a]@.len() ==> (
                        #[trigger] clauses@[a]@[b]) != 0 && -0x4000_0000 <= clauses@[a]@[b]
                            <= 0x4000_0000,
                    forall|b: int|
                        0 <= b < k ==> (#[trigger] lits@[b]) == Literal::spec_from_dimacs(
                            clauses@[i as int]@[b] as int,
                        ),
                decreases clauses@[i as int]@.len() - k,
            {
                lits.push(Literal::from_dimacs(clauses[i][k]));
                k += 1;
            }
            out.push(Clause { literals: lits });
            i += 1;
        }
        CNF { clauses: out }
    }

    /// The clauses of the formula.
    pub fn clauses(&self) -> (r: &Vec<Clause>)
        ensures
            r@.len() == self@.len(),
            forall|i: int| 0 <= i < self@.len() ==> (#[trigger] r@[i])@ == self@[i],
    {
        &self.clauses
    }
}

} // verus!
