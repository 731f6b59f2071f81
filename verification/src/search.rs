//! One step of the CDCL search: propagate, then either handle a conflict
//! (learn and backjump, or conclude unsatisfiability at the top level) or
//! take a decision; with no decision left, the assignment is total and is
//! checked against every input clause before SAT is announced.

use vstd::prelude::*;

use crate::analyze::{analyze, ConflictAnalysis};
use crate::assignment::AssignedValue;
use crate::bcp::{propagate, BcpContext, Conflict};
use crate::clause_db::{spec_clause_falsified, spec_clause_satisfied};
use crate::dlis::DLIS;
use crate::trail;
use crate::trail::TOP_DECISION_LEVEL;

verus! {

/// Outer data structures for CDCL search.
#[derive(Debug)]
pub struct SearchContext {
    pub bcp: BcpContext,
    pub conflict_analysis: ConflictAnalysis,
    pub dlis: DLIS,
}

impl SearchContext {
    pub open spec fn wf(self) -> bool {
        self.bcp.wf()
    }

    /// Every recorded input clause is satisfied under the assignment.
    pub open spec fn formula_satisfied(self) -> bool {
        forall|ci: int|
            0 <= ci < self.bcp.formula@.len() ==> spec_clause_satisfied(
                self.bcp.assignment@,
                (#[trigger] self.bcp.formula@[ci])@,
            )
    }
}

impl Default for SearchContext {
    fn default() -> (r: SearchContext)
        ensures
            r.wf(),
            r.bcp.formula@.len() == 0,
            !r.bcp.is_unsat,
            r.bcp.var_count() == 0,
    {
        SearchContext {
            bcp: BcpContext::default(),
            conflict_analysis: ConflictAnalysis::default(),
            dlis: DLIS::default(),
        }
    }
}

/// Looks for an input clause with every literal false. The assignment must
/// be total, so `None` means every input clause is satisfied.
fn find_falsified_input_clause(bcp: &BcpContext) -> (r: Option<usize>)
    requires
        bcp.wf(),
        forall|v: int| 0 <= v < bcp.var_count() ==> bcp.assignment@[v] != AssignedValue::Unknown,
    ensures
        match r {
            Some(i) => i < bcp.formula@.len() && spec_clause_falsified(
                bcp.assignment@,
                bcp.formula@[i as int]@,
            ),
            None => forall|ci: int|
                0 <= ci < bcp.formula@.len() ==> spec_clause_satisfied(
                    bcp.assignment@,
                    (#[trigger] bcp.formula@[ci])@,
                ),
        },
{
    let mut ci: usize = 0;
    while ci < bcp.formula.len()
        invariant
            bcp.wf(),
            forall|v: int|
                0 <= v < bcp.var_count() ==> bcp.assignment@[v] != AssignedValue::Unknown,
            ci <= bcp.formula@.len(),
            forall|a: int|
                0 <= a < ci ==> spec_clause_satisfied(bcp.assignment@, (#[trigger] bcp.formula@[a])@),
        decreases bcp.formula@.len() - ci,
    {
        let len = bcp.formula[ci].literals.len();
        let mut k: usize = 0;
        let mut satisfied = false;
        while k < len && !satisfied
            invariant
                bcp.wf(),
                forall|v: int|
                    0 <= v < bcp.var_count() ==> bcp.assignment@[v] != AssignedValue::Unknown,
                ci < bcp.formula@.len(),
                len == bcp.formula@[ci as int]@.len(),
                k <= len,
                satisfied ==> spec_clause_satisfied(bcp.assignment@, bcp.formula@[ci as int]@),
                !satisfied ==> forall|m: int|
                    0 <= m < k ==> crate::assignment::spec_literal_value(
                        bcp.assignment@,
                        bcp.formula@[ci as int]@[m],
                    ) == AssignedValue::False,
            decreases len - k, (if satisfied { 0int } else { 1int }),
        {
            let l = bcp.formula[ci].literals[k];
            let value = bcp.assignment.literal_value(l);
            if value == AssignedValue::True {
                satisfied = true;
            } else {
                proof {
                    // the assignment is total, so a literal that is not
                    // true is false
                    assert(value != AssignedValue::Unknown);
                }
                k += 1;
            }
        }
        if !satisfied {
            return Some(ci);
        }
        ci += 1;
    }
    None
}

/// One step of CDCL search. `Some(true)`: the formula is satisfied by the
/// current assignment — this is checked, clause by clause, against every
/// clause ever added. `Some(false)`: a conflict at the top decision level
/// proved the formula unsatisfiable. `None`: the search took a step (a
/// decision, or a learned clause with a backjump) and must be called again.
pub fn search(ctx: &mut SearchContext) -> (r: Option<bool>)
    requires
        old(ctx).wf(),
    ensures
        final(ctx).wf(),
        final(ctx).bcp.formula == old(ctx).bcp.formula,
        final(ctx).bcp.var_count() == old(ctx).bcp.var_count(),
        // a context already marked unsatisfiable is answered and untouched
        old(ctx).bcp.is_unsat ==> r == Some(false) && *final(ctx) == *old(ctx),
        // UNSAT is announced exactly when the context carries the mark
        (r == Some(false)) <==> final(ctx).bcp.is_unsat,
        // SAT comes with a checked, total model
        r == Some(true) ==> final(ctx).formula_satisfied(),
        r == Some(true) ==> forall|v: int|
            0 <= v < final(ctx).bcp.var_count() ==> final(ctx).bcp.assignment@[v]
                != AssignedValue::Unknown,
        // a `None` step makes progress: either a decision opened one new
        // level and grew the trail, or a conflict was analyzed and the
        // search backjumped strictly below the old level
        r is None ==> (final(ctx).bcp.trail.boundaries@.len() == old(
            ctx,
        ).bcp.trail.boundaries@.len() + 1 && final(ctx).bcp.trail.entries@.len() > old(
            ctx,
        ).bcp.trail.entries@.len()) || final(ctx).bcp.trail.boundaries@.len() < old(
            ctx,
        ).bcp.trail.boundaries@.len(),
{
    if ctx.bcp.is_unsat {
        return Some(false);
    }
    let bcp_result = propagate(&mut ctx.bcp);

    match bcp_result {
        Err(conflict) => {
            if ctx.bcp.trail.current_decision_level() == TOP_DECISION_LEVEL {
                // conflict without any decision: unsatisfiable
                ctx.bcp.is_unsat = true;
                return Some(false);
            }
            // learn an asserting clause and backtrack
            analyze(conflict, &mut ctx.conflict_analysis, &mut ctx.bcp);
            None
        },
        Ok(_) => {
            match ctx.dlis.decide(&ctx.bcp.assignment) {
                Some(literal) => {
                    // no conflict but unassigned variables remain: decide
                    trail::decide_and_assign(&mut ctx.bcp, literal);
                    None
                },
                None => {
                    // every variable is assigned: check the verdict against
                    // the input clauses themselves
                    match find_falsified_input_clause(&ctx.bcp) {
                        None => Some(true),
                        Some(i) => {
                            if ctx.bcp.trail.current_decision_level() == TOP_DECISION_LEVEL {
                                ctx.bcp.is_unsat = true;
                                Some(false)
                            } else {
                                analyze(
                                    Conflict::Input(i),
                                    &mut ctx.conflict_analysis,
                                    &mut ctx.bcp,
                                );
                                None
                            }
                        },
                    }
                },
            }
        },
    }
}

} // verus!
