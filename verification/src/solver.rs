//! The top-level solver: clauses go in before `init`, `solve` runs the
//! CDCL loop to a verdict, and the resulting assignment can be queried.
//!
//! The SAT verdict carries a proof: whenever `solve` returns `true`, the
//! final assignment satisfies every clause that was ever added.

use vstd::prelude::*;

use crate::assignment::{spec_literal_value, AssignedValue};
use crate::clause_db::spec_clause_satisfied;
use crate::cnf::CNF;
use crate::literal::Literal;
use crate::search::{search, SearchContext};

verus! {

#[derive(Debug)]
pub struct Solver {
    is_init: bool,
    search: SearchContext,
}

impl Solver {
    pub closed spec fn wf(self) -> bool {
        self.search.wf()
    }

    /// The clauses added so far, as sequences of literals.
    pub closed spec fn formula_spec(self) -> Seq<Seq<Literal>> {
        Seq::new(self.search.bcp.formula@.len(), |i: int| self.search.bcp.formula@[i]@)
    }

    /// The current per-variable assignment.
    pub closed spec fn assignment_spec(self) -> Seq<AssignedValue> {
        self.search.bcp.assignment@
    }

    /// Whether `init` has run; clauses can only be added before.
    pub closed spec fn spec_initialized(self) -> bool {
        self.is_init
    }

    /// The unit clauses recorded for assertion at decision level 0.
    pub closed spec fn units_spec(self) -> Seq<Literal> {
        self.search.bcp.units@
    }

    /// Whether the solver has concluded that the formula is unsatisfiable.
    pub closed spec fn spec_unsat_flagged(self) -> bool {
        self.search.bcp.is_unsat
    }

    /// Every variable of every added clause is covered by the assignment,
    /// so its value can be queried.
    pub proof fn lemma_formula_vars_in_range(self)
        requires
            self.wf(),
        ensures
            forall|i: int, k: int|
                0 <= i < self.formula_spec().len() && 0 <= k < self.formula_spec()[i].len() ==> (
                #[trigger] self.formula_spec()[i][k]).var_index()
                    < self.assignment_spec().len(),
    {
    }

    /// Every added clause has a true literal under the current assignment.
    pub open spec fn formula_satisfied_spec(self) -> bool {
        forall|i: int|
            0 <= i < self.formula_spec().len() ==> spec_clause_satisfied(
                self.assignment_spec(),
                #[trigger] self.formula_spec()[i],
            )
    }
}

impl Default for Solver {
    fn default() -> (r: Solver)
        ensures
            r.wf(),
            !r.spec_initialized(),
            r.formula_spec().len() == 0,
            r.assignment_spec().len() == 0,
    {
        Solver { is_init: false, search: SearchContext::default() }
    }
}

impl Solver {
    /// A solver holding the clauses of `cnf`, not yet initialized.
    pub fn from_cnf(cnf: CNF) -> (r: Solver)
        requires
            forall|i: int, k: int|
                0 <= i < cnf@.len() && 0 <= k < cnf@[i].len() ==> (#[trigger] cnf@[i][k]).var_index() < 0x4000_0000,
        ensures
            r.wf(),
            !r.spec_initialized(),
            r.formula_spec().len() == cnf@.len(),
            forall|i: int| 0 <= i < cnf@.len() ==> #[trigger] r.formula_spec()[i] == cnf@[i],
            cnf@.len() == 0 ==> r.assignment_spec().len() == 0,
    {
        let mut solver = Solver::default();
        let clauses = cnf.clauses();
        let mut i: usize = 0;
        while i < clauses.len()
            invariant
                solver.wf(),
                !solver.spec_initialized(),
                clauses@.len() == cnf@.len(),
                forall|a: int| 0 <= a < cnf@.len() ==> (#[trigger] clauses@[a])@ == cnf@[a],
                forall|a: int, k: int|
                    0 <= a < cnf@.len() && 0 <= k < cnf@[a].len() ==> (#[trigger] cnf@[a][k]).var_index() < 0x4000_0000,
                i <= cnf@.len(),
                solver.formula_spec().len() == i,
                forall|a: int| 0 <= a < i ==> #[trigger] solver.formula_spec()[a] == cnf@[a],
                cnf@.len() == 0 ==> solver.assignment_spec().len() == 0,
            decreases cnf@.len() - i,
        {
            solver.add_clause(clauses[i].literals().as_slice());
            i += 1;
        }
        solver
    }

    /// A solver for clauses given as DIMACS integers.
    pub fn from_clauses(clauses: Vec<Vec<i32>>) -> (r: Solver)
        requires
            forall|i: int, k: int|
                0 <= i < clauses@.len() && 0 <= k < clauses@[i]@.len() ==> (#[trigger] clauses@[i]@[k]) != 0 && -0x4000_0000 <= clauses@[i]@[k] <= 0x4000_0000,
        ensures
            r.wf(),
            !r.spec_initialized(),
            r.formula_spec().len() == clauses@.len(),
            forall|i: int|
                0 <= i < clauses@.len() ==> (#[trigger] r.formula_spec()[i]).len()
                    == clauses@[i]@.len(),
            forall|i: int, k: int|
                0 <= i < clauses@.len() && 0 <= k < clauses@[i]@.len()
                    ==> (#[trigger] r.formula_spec()[i][k]) == Literal::spec_from_dimacs(
                    clauses@[i]@[k] as int,
                ),
            clauses@.len() == 0 ==> r.assignment_spec().len() == 0,
    {
        Self::from_cnf(CNF::from_clauses(&clauses))
    }

    /// Adds a clause to the formula; only valid before `init`.
    pub fn add_clause(&mut self, clause: &[Literal])
        requires
            old(self).wf(),
            !old(self).spec_initialized(),
            forall|k: int|
                0 <= k < clause@.len() ==> (#[trigger] clause@[k]).var_index() < 0x4000_0000,
        ensures
            final(self).wf(),
            !final(self).spec_initialized(),
            final(self).assignment_spec().len() >= old(self).assignment_spec().len(),
            forall|k: int|
                0 <= k < clause@.len() ==> (#[trigger] clause@[k]).var_index()
                    < final(self).assignment_spec().len(),
            final(self).formula_spec().len() == old(self).formula_spec().len() + 1,
            final(self).formula_spec()[old(self).formula_spec().len() as int] == clause@,
            forall|i: int|
                0 <= i < old(self).formula_spec().len() ==> #[trigger] final(self).formula_spec()[i]
                    == old(self).formula_spec()[i],
    {
        self.search.bcp.add_clause(clause);
    }

    /// Builds the propagation structures and asserts the top-level units;
    /// idempotent. May already settle the verdict for an unsatisfiable
    /// formula.
    pub fn init(&mut self)
        requires
            old(self).wf(),
        ensures
            final(self).wf(),
            final(self).spec_initialized(),
            final(self).formula_spec() == old(self).formula_spec(),
            final(self).assignment_spec().len() == old(self).assignment_spec().len(),
            // idempotent: a second call changes nothing
            old(self).spec_initialized() ==> *final(self) == *old(self),
            // a first call asserts every recorded unit clause, or settles
            // the verdict as unsatisfiable on the spot
            !old(self).spec_initialized() ==> final(self).spec_unsat_flagged() || forall|i: int|
                0 <= i < final(self).units_spec().len() ==> spec_literal_value(
                    final(self).assignment_spec(),
                    #[trigger] final(self).units_spec()[i],
                ) == AssignedValue::True,
    {
        if !self.is_init {
            self.is_init = true;
            self.search.bcp.init();
            self.search.dlis.init(&self.search.bcp.binary_clauses, &self.search.bcp.long_clauses);
        }
    }

    /// Decides satisfiability of the formula. A `true` answer is checked:
    /// the assignment then satisfies every added clause.
    pub fn solve(&mut self) -> (r: bool)
        requires
            old(self).wf(),
        ensures
            final(self).wf(),
            final(self).spec_initialized(),
            final(self).formula_spec() == old(self).formula_spec(),
            final(self).assignment_spec().len() == old(self).assignment_spec().len(),
            r ==> final(self).formula_satisfied_spec(),
            // a SAT answer comes with a total model: `value` is never `None`
            r ==> forall|v: int|
                0 <= v < final(self).assignment_spec().len()
                    ==> final(self).assignment_spec()[v] != AssignedValue::Unknown,
    {
        if !self.is_init {
            self.init();
        }
        let mut remaining_steps: u64 = u64::MAX;
        let mut verdict: Option<bool> = None;
        while verdict.is_none() && remaining_steps > 0
            invariant
                self.wf(),
                self.spec_initialized(),
                self.formula_spec() == old(self).formula_spec(),
                self.assignment_spec().len() == old(self).assignment_spec().len(),
                verdict == Some(true) ==> self.formula_satisfied_spec(),
                verdict == Some(true) ==> forall|v: int|
                    0 <= v < self.assignment_spec().len() ==> self.assignment_spec()[v]
                        != AssignedValue::Unknown,
            decreases remaining_steps,
        {
            verdict = search(&mut self.search);
            remaining_steps -= 1;
        }
        match verdict {
            Some(result) => result,
            None => false,
        }
    }

    /// Returns the (partial) assignment: the literals made true, sorted by
    /// variable.
    pub fn assignment(&self) -> (r: Vec<Literal>)
        requires
            self.wf(),
        ensures
            forall|i: int|
                0 <= i < r@.len() ==> (#[trigger] r@[i]).var_index() < self.assignment_spec().len()
                    && spec_literal_value(self.assignment_spec(), r@[i]) == AssignedValue::True,
            forall|i: int, j: int| 0 <= i < j < r@.len() ==> r@[i].var_index() < r@[j].var_index(),
            forall|v: int|
                0 <= v < self.assignment_spec().len() && self.assignment_spec()[v]
                    != AssignedValue::Unknown ==> exists|i: int|
                    0 <= i < r@.len() && (#[trigger] r@[i]).var_index() == v,
    {
        self.search.bcp.assignment.partial()
    }

    /// Returns the value assigned to a literal: `Some(true)` if it is true,
    /// `Some(false)` if false, `None` while unassigned.
    pub fn value(&self, literal: Literal) -> (r: Option<bool>)
        requires
            self.wf(),
            literal.var_index() < self.assignment_spec().len(),
        ensures
            r == match spec_literal_value(self.assignment_spec(), literal) {
                AssignedValue::True => Some(true),
                AssignedValue::False => Some(false),
                AssignedValue::Unknown => None::<bool>,
            },
    {
        match self.search.bcp.assignment.literal_value(literal) {
            AssignedValue::True => Some(true),
            AssignedValue::False => Some(false),
            AssignedValue::Unknown => None,
        }
    }
}

} // verus!
