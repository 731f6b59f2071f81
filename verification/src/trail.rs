//! The assignment trail: a chronological record of variable assignments
//! with decision-level bookkeeping, shared by propagation, conflict
//! analysis and the driver.

use vstd::prelude::*;

use crate::assignment::{spec_literal_value, AssignedValue};
use crate::bcp::{count_unknown, lemma_count_unknown_update, spec_reason_in_range, BcpContext};
use crate::clause_db::ClauseIndex;
use crate::literal::Literal;

verus! {

/// The pre-decision level, where only unit clauses imply.
pub const TOP_DECISION_LEVEL: usize = 0;

/// Why a literal was assigned.
#[derive(Copy, Clone, Debug)]
pub enum Reason {
    /// a free decision of the heuristic (also used for top-level units)
    Decision,
    /// forced by the binary clause made of the assigned literal and the
    /// stored partner (the partner being false at the time)
    Binary(Literal),
    /// forced by the long clause with this index, unit at the time
    Long(ClauseIndex),
}

/// One step of the trail: the literal made true, the decision level it was
/// assigned at, and its reason.
#[derive(Copy, Clone, Debug)]
pub struct TrailEntry {
    pub literal: Literal,
    pub level: usize,
    pub reason: Reason,
}

/// The chronological assignment record.
#[derive(Debug)]
pub struct Trail {
    /// assignments, oldest first
    pub entries: Vec<TrailEntry>,
    /// decision-level boundaries: `boundaries[j]` is the trail length at the
    /// moment level `j + 1` was opened
    pub boundaries: Vec<usize>,
    /// propagation queue: index of the first trail literal not yet scanned
    pub queue_head: usize,
    /// per-variable decision level, meaningful while the variable is assigned
    pub levels: Vec<usize>,
}

impl Default for Trail {
    fn default() -> (r: Trail)
        ensures
            r.entries@.len() == 0,
            r.boundaries@.len() == 0,
            r.queue_head == 0,
            r.levels@.len() == 0,
    {
        Trail {
            entries: Vec::new(),
            boundaries: Vec::new(),
            queue_head: 0,
            levels: Vec::new(),
        }
    }
}

impl Trail {
    /// The current decision level: the number of decisions taken.
    pub fn current_decision_level(&self) -> (r: usize)
        ensures
            r == self.boundaries@.len(),
    {
        self.boundaries.len()
    }
}

/// Trail uniqueness: no variable appears twice on the trail of a
/// well-formed context. Every trail operation preserves well-formedness,
/// so this holds at all times outside the operations' bodies.
pub proof fn lemma_trail_variables_unique(bcp: BcpContext, i: int, j: int)
    requires
        bcp.wf(),
        0 <= i < j < bcp.trail.entries@.len(),
    ensures
        bcp.trail.entries@[i].literal.var_index() != bcp.trail.entries@[j].literal.var_index(),
{
}

/// Monotone decision levels: the decision-level boundaries into the trail
/// of a well-formed context are strictly increasing.
pub proof fn lemma_boundaries_strictly_increasing(bcp: BcpContext, j: int, k: int)
    requires
        bcp.wf(),
        0 <= j < k < bcp.trail.boundaries@.len(),
    ensures
        bcp.trail.boundaries@[j] < bcp.trail.boundaries@[k],
{
}

/// Every assigned variable appears on the trail of a well-formed context;
/// with trail uniqueness, exactly once.
pub proof fn lemma_assigned_variable_on_trail(bcp: BcpContext, v: int)
    requires
        bcp.wf(),
        0 <= v < bcp.var_count(),
        bcp.assignment@[v] != AssignedValue::Unknown,
    ensures
        exists|i: int|
            0 <= i < bcp.trail.entries@.len() && (
            #[trigger] bcp.trail.entries@[i]).literal.var_index() == v,
{
    reveal(crate::bcp::spec_trail_linked);
}

/// Recorded decision levels are nondecreasing along the trail of a
/// well-formed context.
pub proof fn lemma_trail_levels_nondecreasing(bcp: BcpContext, i: int, j: int)
    requires
        bcp.wf(),
        0 <= i <= j < bcp.trail.entries@.len(),
    ensures
        bcp.trail.entries@[i].level <= bcp.trail.entries@[j].level,
{
    reveal(crate::bcp::spec_trail_linked);
}

/// Makes `lit` true, appending a trail entry at the current decision level
/// with the given reason and (implicitly) enqueueing `lit` for propagation.
pub fn assign(bcp: &mut BcpContext, lit: Literal, reason: Reason)
    requires
        old(bcp).wf_base(),
        lit.var_index() < old(bcp).var_count(),
        old(bcp).assignment@[lit.var_index() as int] == AssignedValue::Unknown,
        spec_reason_in_range(reason, old(bcp).var_count(), old(bcp).long_clauses@.len() as int),
    ensures
        final(bcp).wf(),
        final(bcp).assignment@ == old(bcp).assignment@.update(
            lit.var_index() as int,
            if lit.spec_is_positive() {
                AssignedValue::True
            } else {
                AssignedValue::False
            },
        ),
        spec_literal_value(final(bcp).assignment@, lit) == AssignedValue::True,
        final(bcp).trail.entries@ == old(bcp).trail.entries@.push(
            (TrailEntry { literal: lit, level: old(bcp).trail.boundaries@.len() as usize, reason }),
        ),
        final(bcp).trail.boundaries == old(bcp).trail.boundaries,
        final(bcp).trail.queue_head == old(bcp).trail.queue_head,
        final(bcp).binary_clauses == old(bcp).binary_clauses,
        final(bcp).long_clauses == old(bcp).long_clauses,
        final(bcp).watch == old(bcp).watch,
        final(bcp).units == old(bcp).units,
        final(bcp).formula == old(bcp).formula,
        final(bcp).is_unsat == old(bcp).is_unsat,
        count_unknown(final(bcp).assignment@) + 1 == count_unknown(old(bcp).assignment@),
        forall|v: int|
            0 <= v < old(bcp).var_count() && v != lit.var_index() ==> final(bcp).assignment@[v] == old(
                bcp,
            ).assignment@[v],
{
    let ghost pre = *bcp;
    let level = bcp.trail.current_decision_level();
    bcp.assignment.assign_true(lit);
    bcp.trail.levels[lit.variable().index() as usize] = level;
    bcp.trail.entries.push(TrailEntry { literal: lit, level, reason });
    proof {
        lemma_count_unknown_update(
            pre.assignment@,
            lit.var_index() as int,
            if lit.spec_is_positive() {
                AssignedValue::True
            } else {
                AssignedValue::False
            },
        );
        // older entries keep their truth: their variables were assigned, so
        // they differ from the newly assigned one
        assert forall|i: int| 0 <= i < pre.trail.entries@.len() implies spec_literal_value(
            bcp.assignment@,
            (#[trigger] bcp.trail.entries@[i]).literal,
        ) == AssignedValue::True by {
            let l = pre.trail.entries@[i].literal;
            assert(spec_literal_value(pre.assignment@, l) == AssignedValue::True);
            assert(pre.assignment@[l.var_index() as int] != AssignedValue::Unknown);
            assert(l.var_index() != lit.var_index());
            assert(bcp.trail.entries@[i] == pre.trail.entries@[i]);
        }
        // the new variable was unassigned, so it is absent from older entries
        assert forall|i: int|
            0 <= i < pre.trail.entries@.len() implies (#[trigger] bcp.trail.entries@[
            i]).literal.var_index() != lit.var_index() by {
            let l = pre.trail.entries@[i].literal;
            assert(spec_literal_value(pre.assignment@, l) == AssignedValue::True);
            assert(pre.assignment@[l.var_index() as int] != AssignedValue::Unknown);
        }
        // every assigned variable is still on the trail: old variables keep
        // their old entries, the new one has the entry just pushed
        reveal(crate::bcp::spec_trail_linked);
        assert forall|v: int|
            0 <= v < bcp.var_count() && #[trigger] bcp.assignment@[v]
                != AssignedValue::Unknown implies exists|i: int|
            0 <= i < bcp.trail.entries@.len() && (
            #[trigger] bcp.trail.entries@[i]).literal.var_index() == v by {
            if v == lit.var_index() {
                assert(bcp.trail.entries@[pre.trail.entries@.len() as int].literal.var_index()
                    == v);
            } else {
                assert(pre.assignment@[v] != AssignedValue::Unknown);
                let i = choose|i: int|
                    0 <= i < pre.trail.entries@.len() && (
                    #[trigger] pre.trail.entries@[i]).literal.var_index() == v;
                assert(bcp.trail.entries@[i].literal.var_index() == v);
            }
        }
        // the new entry carries the current level, the maximum so far
        assert forall|i: int, j: int|
            0 <= i <= j < bcp.trail.entries@.len() implies (
        #[trigger] bcp.trail.entries@[i]).level <= (#[trigger] bcp.trail.entries@[j]).level by {
            if j == pre.trail.entries@.len() && i < j {
                assert(bcp.trail.entries@[i] == pre.trail.entries@[i]);
                assert(pre.trail.entries@[i].level <= pre.trail.boundaries@.len());
            }
        }
    }
}

/// Opens a new decision level, then assigns `lit` as a decision.
pub fn decide_and_assign(bcp: &mut BcpContext, lit: Literal)
    requires
        old(bcp).wf(),
        lit.var_index() < old(bcp).var_count(),
        old(bcp).assignment@[lit.var_index() as int] == AssignedValue::Unknown,
    ensures
        final(bcp).wf(),
        final(bcp).assignment@ == old(bcp).assignment@.update(
            lit.var_index() as int,
            if lit.spec_is_positive() {
                AssignedValue::True
            } else {
                AssignedValue::False
            },
        ),
        final(bcp).trail.boundaries@ == old(bcp).trail.boundaries@.push(
            old(bcp).trail.entries@.len() as usize,
        ),
        final(bcp).trail.entries@ == old(bcp).trail.entries@.push(
            (TrailEntry {
                literal: lit,
                level: (old(bcp).trail.boundaries@.len() + 1) as usize,
                reason: Reason::Decision,
            }),
        ),
        final(bcp).trail.queue_head == old(bcp).trail.queue_head,
        final(bcp).binary_clauses == old(bcp).binary_clauses,
        final(bcp).long_clauses == old(bcp).long_clauses,
        final(bcp).watch == old(bcp).watch,
        final(bcp).units == old(bcp).units,
        final(bcp).formula == old(bcp).formula,
        final(bcp).is_unsat == old(bcp).is_unsat,
        count_unknown(final(bcp).assignment@) + 1 == count_unknown(old(bcp).assignment@),
{
    let mark = bcp.trail.entries.len();
    bcp.trail.boundaries.push(mark);
    assign(bcp, lit, Reason::Decision);
}

/// Pops every trail entry above decision level `level`, restoring the
/// popped variables to `Unknown`, and clamps the propagation queue to the
/// shortened trail.
pub fn backjump(bcp: &mut BcpContext, level: usize)
    requires
        old(bcp).wf(),
        level < old(bcp).trail.boundaries@.len(),
    ensures
        final(bcp).wf(),
        final(bcp).trail.boundaries@ == old(bcp).trail.boundaries@.subrange(0, level as int),
        final(bcp).trail.entries@ == old(bcp).trail.entries@.subrange(
            0,
            old(bcp).trail.boundaries@[level as int] as int,
        ),
        final(bcp).trail.queue_head <= final(bcp).trail.entries@.len(),
        final(bcp).binary_clauses == old(bcp).binary_clauses,
        final(bcp).long_clauses == old(bcp).long_clauses,
        final(bcp).watch == old(bcp).watch,
        final(bcp).units == old(bcp).units,
        final(bcp).formula == old(bcp).formula,
        final(bcp).is_unsat == old(bcp).is_unsat,
        final(bcp).assignment@.len() == old(bcp).assignment@.len(),
        // popped variables are unknown again, all others keep their value
        forall|v: int|
            0 <= v < old(bcp).var_count() ==> final(bcp).assignment@[v] == if exists|i: int|
                old(bcp).trail.boundaries@[level as int] <= i < old(bcp).trail.entries@.len() && (
                #[trigger] old(bcp).trail.entries@[i]).literal.var_index() == v {
                AssignedValue::Unknown
            } else {
                old(bcp).assignment@[v]
            },
{
    let cut = bcp.trail.boundaries[level];
    bcp.trail.boundaries.truncate(level);
    while bcp.trail.entries.len() > cut
        invariant
            cut <= bcp.trail.entries@.len(),
            bcp.trail.entries@ == old(bcp).trail.entries@.subrange(
                0,
                bcp.trail.entries@.len() as int,
            ),
            bcp.trail.entries@.len() <= old(bcp).trail.entries@.len(),
            bcp.trail.boundaries@ == old(bcp).trail.boundaries@.subrange(0, level as int),
            bcp.trail.queue_head == old(bcp).trail.queue_head,
            bcp.trail.levels@.len() == old(bcp).trail.levels@.len(),
            bcp.assignment@.len() == old(bcp).assignment@.len(),
            bcp.binary_clauses == old(bcp).binary_clauses,
            bcp.long_clauses == old(bcp).long_clauses,
            bcp.watch == old(bcp).watch,
            bcp.units == old(bcp).units,
            bcp.formula == old(bcp).formula,
            bcp.is_unsat == old(bcp).is_unsat,
            old(bcp).wf(),
            cut == old(bcp).trail.boundaries@[level as int],
            forall|v: int|
                0 <= v < old(bcp).var_count() ==> bcp.assignment@[v] == if exists|i: int|
                    bcp.trail.entries@.len() <= i < old(bcp).trail.entries@.len() && (
                    #[trigger] old(bcp).trail.entries@[i]).literal.var_index() == v {
                    AssignedValue::Unknown
                } else {
                    old(bcp).assignment@[v]
                },
        decreases bcp.trail.entries@.len(),
    {
        let ghost pre = *bcp;
        let popped = bcp.trail.entries.pop().unwrap();
        proof {
            assert(popped == old(bcp).trail.entries@[pre.trail.entries@.len() - 1]);
            assert(spec_literal_value(old(bcp).assignment@, popped.literal)
                == AssignedValue::True);
            crate::assignment::lemma_true_literal_assigned(old(bcp).assignment@, popped.literal);
            // the popped variable is not set `Unknown` yet, so its current
            // value is its original one; in particular it is in range
            assert(bcp.assignment@[popped.literal.var_index() as int] == old(
                bcp,
            ).assignment@[popped.literal.var_index() as int]);
        }
        bcp.assignment.assign_unknown(popped.literal.variable());
        proof {
            assert(bcp.trail.entries@ =~= old(bcp).trail.entries@.subrange(
                0,
                bcp.trail.entries@.len() as int,
            ));
            let ghost n = bcp.trail.entries@.len() as int;
            assert forall|v: int| 0 <= v < old(bcp).var_count() implies bcp.assignment@[v] == (
            if exists|i: int|
                n <= i < old(bcp).trail.entries@.len() && (#[trigger] old(
                    bcp,
                ).trail.entries@[i]).literal.var_index() == v {
                AssignedValue::Unknown
            } else {
                old(bcp).assignment@[v]
            }) by {
                if v == popped.literal.var_index() {
                    assert(old(bcp).trail.entries@[n].literal.var_index() == v);
                } else {
                    if exists|i: int|
                        n + 1 <= i < old(bcp).trail.entries@.len() && (#[trigger] old(
                            bcp,
                        ).trail.entries@[i]).literal.var_index() == v {
                        let i = choose|i: int|
                            n + 1 <= i < old(bcp).trail.entries@.len() && (#[trigger] old(
                                bcp,
                            ).trail.entries@[i]).literal.var_index() == v;
                        assert(n <= i < old(bcp).trail.entries@.len());
                    }
                }
            }
        }
    }
    if bcp.trail.queue_head > bcp.trail.entries.len() {
        bcp.trail.queue_head = bcp.trail.entries.len();
    }
    proof {
        reveal(crate::bcp::spec_trail_linked);
        // a variable still assigned was not popped, so its old entry sits in
        // the kept prefix
        assert forall|v: int|
            0 <= v < bcp.var_count() && #[trigger] bcp.assignment@[v]
                != AssignedValue::Unknown implies exists|i: int|
            0 <= i < bcp.trail.entries@.len() && (
            #[trigger] bcp.trail.entries@[i]).literal.var_index() == v by {
            let n = bcp.trail.entries@.len() as int;
            assert(bcp.assignment@[v] == old(bcp).assignment@[v]);
            let i = choose|i: int|
                0 <= i < old(bcp).trail.entries@.len() && (#[trigger] old(
                    bcp,
                ).trail.entries@[i]).literal.var_index() == v;
            if i >= n {
                assert(exists|k: int|
                    n <= k < old(bcp).trail.entries@.len() && (#[trigger] old(
                        bcp,
                    ).trail.entries@[k]).literal.var_index() == v);
                assert(bcp.assignment@[v] == AssignedValue::Unknown);
            }
            assert(bcp.trail.entries@[i].literal.var_index() == v);
        }
        // the remaining trail literals kept their values, so they stay true
        assert forall|i: int| 0 <= i < bcp.trail.entries@.len() implies spec_literal_value(
            bcp.assignment@,
            (#[trigger] bcp.trail.entries@[i]).literal,
        ) == AssignedValue::True by {
            let l = bcp.trail.entries@[i].literal;
            assert(bcp.trail.entries@[i] == old(bcp).trail.entries@[i]);
            assert(spec_literal_value(old(bcp).assignment@, l) == AssignedValue::True);
            crate::assignment::lemma_true_literal_assigned(old(bcp).assignment@, l);
            // no later entry shares this variable, so it was not popped
            assert forall|k: int|
                bcp.trail.entries@.len() <= k < old(bcp).trail.entries@.len() implies (
            #[trigger] old(bcp).trail.entries@[k]).literal.var_index() != l.var_index() by {
                assert(old(bcp).trail.entries@[i].literal.var_index() != old(
                    bcp,
                ).trail.entries@[k].literal.var_index());
            }
            assert(bcp.assignment@[l.var_index() as int] == old(bcp).assignment@[l.var_index()
                as int]);
        }
    }
}

} // verus!
