//! Conflict analysis: derives a first-UIP asserting clause by resolving the
//! conflicting clause with the antecedents of trail literals at the current
//! decision level, walking the trail backward until a single current-level
//! literal remains. The learned clause is added to the database, the trail
//! is cut back to the backjump level, and the UIP literal is asserted with
//! the learned clause as its reason.

use vstd::prelude::*;

use crate::assignment::{spec_literal_value, AssignedValue};
use crate::bcp::{BcpContext, Conflict};
use crate::clause_db::Clause;
use crate::literal::Literal;
use crate::trail::{assign, backjump, Reason, TOP_DECISION_LEVEL};
use crate::watch::spec_watches_in_range;

verus! {

/// Scratch state of conflict analysis, reused across conflicts.
#[derive(Debug)]
pub struct ConflictAnalysis {
    /// per-variable mark: the variable already takes part in the resolvent
    seen: Vec<bool>,
    /// literals of the learned clause assigned below the conflict level
    learned: Vec<Literal>,
}

impl Default for ConflictAnalysis {
    fn default() -> (r: ConflictAnalysis) {
        ConflictAnalysis { seen: Vec::new(), learned: Vec::new() }
    }
}

impl ConflictAnalysis {
    /// Clears the scratch state and sizes the marks for `n` variables.
    fn reset(&mut self, n: usize)
        ensures
            final(self).seen@.len() == n,
            forall|v: int| 0 <= v < n ==> final(self).seen@[v] == false,
            final(self).learned@.len() == 0,
    {
        self.learned.clear();
        self.seen.clear();
        while self.seen.len() < n
            invariant
                self.seen@.len() <= n,
                forall|v: int| 0 <= v < self.seen@.len() ==> self.seen@[v] == false,
                self.learned@.len() == 0,
            decreases n - self.seen@.len(),
        {
            self.seen.push(false);
        }
    }
}

/// Adds one resolvent literal: an unseen variable is marked; assigned at
/// the conflict level it raises the pending counter, at a lower nonzero
/// level its literal joins the learned clause.
fn bump_literal(
    ca: &mut ConflictAnalysis,
    bcp: &BcpContext,
    l: Literal,
    current_level: usize,
    counter: &mut usize,
)
    requires
        bcp.wf(),
        l.var_index() < bcp.var_count(),
        old(ca).seen@.len() == bcp.var_count(),
        forall|k: int|
            0 <= k < old(ca).learned@.len() ==> (#[trigger] old(ca).learned@[k]).var_index()
                < bcp.var_count(),
    ensures
        final(ca).seen@.len() == old(ca).seen@.len(),
        forall|k: int|
            0 <= k < final(ca).learned@.len() ==> (#[trigger] final(ca).learned@[k]).var_index()
                < bcp.var_count(),
{
    let v = l.variable().index() as usize;
    if !ca.seen[v] {
        ca.seen[v] = true;
        let lvl = bcp.trail.levels[v];
        if lvl == current_level {
            if *counter < usize::MAX {
                *counter = *counter + 1;
            }
        } else if lvl > TOP_DECISION_LEVEL {
            ca.learned.push(l);
        }
    }
}

/// Copies the literals of a conflict out of the structure it points into.
fn conflict_literals(bcp: &BcpContext, conflict: Conflict) -> (r: Vec<Literal>)
    requires
        bcp.wf(),
        bcp.conflict_in_range(conflict),
    ensures
        r@ == bcp.spec_conflict_literals(conflict),
        forall|k: int| 0 <= k < r@.len() ==> (#[trigger] r@[k]).var_index() < bcp.var_count(),
{
    let mut out: Vec<Literal> = Vec::new();
    match conflict {
        Conflict::Binary(a, b) => {
            out.push(a);
            out.push(b);
            proof {
                assert(out@ =~= bcp.spec_conflict_literals(conflict));
            }
        },
        Conflict::Long(ci) => {
            let len = bcp.long_clauses.clause_len(ci);
            let mut k: usize = 0;
            while k < len
                invariant
                    ci < bcp.long_clauses@.len(),
                    len == bcp.long_clauses@[ci as int].len(),
                    k <= len,
                    out@ == bcp.long_clauses@[ci as int].subrange(0, k as int),
                decreases len - k,
            {
                out.push(bcp.long_clauses.literal_at(ci, k));
                proof {
                    assert(out@ =~= bcp.long_clauses@[ci as int].subrange(0, k + 1));
                }
                k += 1;
            }
            proof {
                assert(out@ =~= bcp.spec_conflict_literals(conflict));
            }
        },
        Conflict::Input(i) => {
            let len = bcp.formula[i].literals.len();
            let mut k: usize = 0;
            while k < len
                invariant
                    i < bcp.formula@.len(),
                    len == bcp.formula@[i as int]@.len(),
                    k <= len,
                    out@ == bcp.formula@[i as int]@.subrange(0, k as int),
                decreases len - k,
            {
                out.push(bcp.formula[i].literals[k]);
                proof {
                    assert(out@ =~= bcp.formula@[i as int]@.subrange(0, k + 1));
                }
                k += 1;
            }
            proof {
                assert(out@ =~= bcp.spec_conflict_literals(conflict));
            }
        },
    }
    out
}

/// Analyzes a falsified clause, learns an asserting clause, backjumps, and
/// asserts the UIP literal. The decision level strictly decreases.
#[verifier::loop_isolation(false)]
#[verifier::rlimit(100)]
pub fn analyze(conflict: Conflict, ca: &mut ConflictAnalysis, bcp: &mut BcpContext)
    requires
        old(bcp).wf(),
        old(bcp).conflict_in_range(conflict),
        old(bcp).conflict_falsified(conflict),
        old(bcp).trail.boundaries@.len() > 0,
    ensures
        final(bcp).wf(),
        final(bcp).trail.boundaries@.len() < old(bcp).trail.boundaries@.len(),
        final(bcp).var_count() == old(bcp).var_count(),
        final(bcp).formula == old(bcp).formula,
        final(bcp).is_unsat == old(bcp).is_unsat,
        // analysis makes a committed step: it installs a learned clause
        // (binary or long), or it has cut the trail back to the top level
        final(bcp).binary_clauses@ != old(bcp).binary_clauses@ || final(bcp).long_clauses@.len()
            > old(bcp).long_clauses@.len() || final(bcp).trail.boundaries@.len() == 0,
        // a learned binary clause is asserting: its lead literal — the last
        // trail entry — is true by force with the clause as reason, and the
        // partner literal is false
        final(bcp).binary_clauses@ != old(bcp).binary_clauses@ ==> ({
            let e = final(bcp).trail.entries@.last();
            &&& final(bcp).trail.entries@.len() > 0
            &&& e.reason is Binary
            &&& crate::assignment::spec_literal_value(final(bcp).assignment@, e.literal)
                == AssignedValue::True
            &&& crate::assignment::spec_literal_value(final(bcp).assignment@, e.reason->Binary_0)
                == AssignedValue::False
        }),
        // a learned long clause is asserting: right after the backjump its
        // lead literal is true by force and every other literal is false
        final(bcp).long_clauses@.len() > old(bcp).long_clauses@.len() ==> ({
            let c = final(bcp).long_clauses@.last();
            &&& final(bcp).long_clauses@.len() == old(bcp).long_clauses@.len() + 1
            &&& c.len() >= 3
            &&& crate::assignment::spec_literal_value(final(bcp).assignment@, c[0])
                == AssignedValue::True
            &&& forall|k: int|
                1 <= k < c.len() ==> crate::assignment::spec_literal_value(
                    final(bcp).assignment@,
                    #[trigger] c[k],
                ) == AssignedValue::False
        }),
{
    let current_level = bcp.trail.current_decision_level();
    ca.reset(bcp.assignment.var_count());
    let mut counter: usize = 0;

    // seed the resolvent with the conflicting clause
    let lits = conflict_literals(bcp, conflict);
    let mut k: usize = 0;
    while k < lits.len()
        invariant
            k <= lits@.len(),
            ca.seen@.len() == bcp.var_count(),
            forall|m: int|
                0 <= m < ca.learned@.len() ==> (#[trigger] ca.learned@[m]).var_index()
                    < bcp.var_count(),
        decreases lits@.len() - k,
    {
        bump_literal(ca, bcp, lits[k], current_level, &mut counter);
        k += 1;
    }

    // walk the trail backward, resolving current-level antecedents, until
    // only the first UIP is pending
    let mut idx = bcp.trail.entries.len();
    let mut uip: Option<Literal> = None;
    while idx > 0 && uip.is_none() && counter > 0
        invariant
            idx <= bcp.trail.entries@.len(),
            ca.seen@.len() == bcp.var_count(),
            forall|m: int|
                0 <= m < ca.learned@.len() ==> (#[trigger] ca.learned@[m]).var_index()
                    < bcp.var_count(),
            match uip {
                Some(u) => u.var_index() < bcp.var_count(),
                None => true,
            },
        decreases idx,
    {
        idx -= 1;
        let e = bcp.trail.entries[idx];
        let v = e.literal.variable().index() as usize;
        proof {
            crate::assignment::lemma_true_literal_assigned(bcp.assignment@, e.literal);
        }
        if ca.seen[v] && e.level == current_level {
            if counter <= 1 {
                // every other current-level literal is resolved away: the
                // first unique implication point
                uip = Some(e.literal.negate());
                proof {
                    crate::literal::lemma_negate_involution(e.literal);
                }
            } else {
                counter -= 1;
                match e.reason {
                    Reason::Decision => {},
                    Reason::Binary(partner) => {
                        bump_literal(ca, bcp, partner, current_level, &mut counter);
                    },
                    Reason::Long(ci) => {
                        let len = bcp.long_clauses.clause_len(ci);
                        let mut m: usize = 0;
                        while m < len
                            invariant
                                ci < bcp.long_clauses@.len(),
                                len == bcp.long_clauses@[ci as int].len(),
                                m <= len,
                                ca.seen@.len() == bcp.var_count(),
                                forall|a: int|
                                    0 <= a < ca.learned@.len() ==> (
                                    #[trigger] ca.learned@[a]).var_index() < bcp.var_count(),
                            decreases len - m,
                        {
                            let other = bcp.long_clauses.literal_at(ci, m);
                            if other.index() != e.literal.index() {
                                bump_literal(ca, bcp, other, current_level, &mut counter);
                            }
                            m += 1;
                        }
                    },
                }
            }
        }
    }

    match uip {
        None => {
            // no unique implication point was found (impossible for a
            // conflict produced by propagation): give the search a chance
            // to continue from the top level
            backjump(bcp, TOP_DECISION_LEVEL);
            proof {
                assert(bcp.trail.boundaries@.len() == 0);
            }
        },
        Some(u) => {
            // the backjump level is the highest level among the remaining
            // literals; keep one literal of that level in front so it can
            // take the second watched position
            let mut b: usize = 0;
            let mut second: usize = 0;
            let mut m: usize = 0;
            while m < ca.learned.len()
                invariant
                    m <= ca.learned@.len(),
                    ca.learned@.len() > 0 ==> second < ca.learned@.len(),
                    m == 0 ==> second == 0,
                    m == 0 ==> b == 0,
                decreases ca.learned@.len() - m,
            {
                let lv = bcp.trail.levels[ca.learned[m].variable().index() as usize];
                if lv > b {
                    b = lv;
                    second = m;
                }
                m += 1;
            }
            if b >= current_level {
                // defensive clamp: the learned literals live below the
                // conflict level
                b = current_level - 1;
            }
            backjump(bcp, b);

            // assemble the learned clause, UIP first, a backjump-level
            // literal second
            let mut clause: Vec<Literal> = Vec::new();
            clause.push(u);
            if ca.learned.len() > 0 {
                clause.push(ca.learned[second]);
                let mut m2: usize = 0;
                while m2 < ca.learned.len()
                    invariant
                        m2 <= ca.learned@.len(),
                        second < ca.learned@.len(),
                        clause@.len() >= 2,
                        clause@[0] == u,
                        forall|a: int|
                            0 <= a < clause@.len() ==> (#[trigger] clause@[a]).var_index()
                                < bcp.var_count(),
                    decreases ca.learned@.len() - m2,
                {
                    if m2 != second {
                        clause.push(ca.learned[m2]);
                    }
                    m2 += 1;
                }
            }

            // install the learned clause and assert the UIP with it as reason
            if clause.len() == 1 {
                // the learned clause is the lead literal alone: asserted at
                // the top level, it is true by force
                if bcp.assignment.literal_value(u) == AssignedValue::Unknown {
                    assign(bcp, u, Reason::Decision);
                }
            } else if clause.len() == 2 {
                let l0 = clause[0];
                let l1 = clause[1];
                // confirm that the clause is asserting under the restored
                // assignment before installing it (impossible to fail for a
                // conflict produced by propagation)
                if !(bcp.assignment.literal_value(u) == AssignedValue::Unknown
                    && bcp.assignment.literal_value(l1) == AssignedValue::False
                    && l1.variable().index() != u.variable().index()) {
                    if bcp.trail.current_decision_level() > TOP_DECISION_LEVEL {
                        backjump(bcp, TOP_DECISION_LEVEL);
                    }
                    return ;
                }
                let ghost pre_binary = bcp.binary_clauses@;
                bcp.binary_clauses.add_binary(l0, l1);
                proof {
                    // the list keyed by the lead literal grew, so the table
                    // visibly changed
                    assert(bcp.binary_clauses@[l1.spec_code() as int].len() > pre_binary[
                        l1.spec_code() as int].len());
                    assert(bcp.binary_clauses@ != pre_binary);
                    assert forall|c: int, a: int|
                        0 <= c < bcp.binary_clauses@.len() && 0 <= a
                            < bcp.binary_clauses@[c].len() implies (
                    #[trigger] bcp.binary_clauses@[c][a]).var_index() < bcp.var_count() by {}
                }
                assign(bcp, u, Reason::Binary(l1));
                proof {
                    // the other literal sits on another variable, so it
                    // stays false: the learned clause was unit and now
                    // forces its lead literal
                    assert(spec_literal_value(bcp.assignment@, l1) == AssignedValue::False);
                }
            } else {
                // confirm that the clause is asserting under the restored
                // assignment: the UIP unassigned on a variable of its own,
                // every other literal false
                let mut asserting = bcp.assignment.literal_value(u) == AssignedValue::Unknown;
                let mut m3: usize = 1;
                while m3 < clause.len()
                    invariant
                        1 <= m3 <= clause@.len(),
                        clause@[0] == u,
                        forall|a: int|
                            0 <= a < clause@.len() ==> (#[trigger] clause@[a]).var_index()
                                < bcp.var_count(),
                        asserting ==> bcp.assignment@[u.var_index() as int]
                            == AssignedValue::Unknown,
                        asserting ==> forall|a: int|
                            1 <= a < m3 ==> crate::assignment::spec_literal_value(
                                bcp.assignment@,
                                #[trigger] clause@[a],
                            ) == AssignedValue::False && clause@[a].var_index() != u.var_index(),
                    decreases clause@.len() - m3,
                {
                    let l = clause[m3];
                    if bcp.assignment.literal_value(l) != AssignedValue::False {
                        asserting = false;
                    }
                    if l.variable().index() == u.variable().index() {
                        asserting = false;
                    }
                    m3 += 1;
                }
                if !asserting {
                    // impossible for a conflict produced by propagation;
                    // learn nothing and let the search restart from the
                    // top level
                    if bcp.trail.current_decision_level() > TOP_DECISION_LEVEL {
                        backjump(bcp, TOP_DECISION_LEVEL);
                    }
                    return ;
                }
                let ghost pre = *bcp;
                let ci = bcp.long_clauses.push_clause(Clause { literals: clause });
                proof {
                    assert(spec_watches_in_range(bcp.watch@, bcp.long_clauses@.len() as int));
                    assert forall|i: int|
                        0 <= i < bcp.trail.entries@.len() implies crate::bcp::spec_reason_in_range(
                        (#[trigger] bcp.trail.entries@[i]).reason,
                        bcp.var_count(),
                        bcp.long_clauses@.len() as int,
                    ) by {
                        assert(crate::bcp::spec_reason_in_range(
                            pre.trail.entries@[i].reason,
                            pre.var_count(),
                            pre.long_clauses@.len() as int,
                        ));
                    }
                }
                let w0 = bcp.long_clauses.literal_at(ci, 0);
                let w1 = bcp.long_clauses.literal_at(ci, 1);
                let ghost mid = *bcp;
                bcp.watch.watch_clause(ci, [w0, w1]);
                proof {
                    assert forall|c: int, a: int|
                        0 <= c < bcp.watch@.len() && 0 <= a < bcp.watch@[c].len() implies (
                    #[trigger] bcp.watch@[c][a]).clause_index < bcp.long_clauses@.len() by {
                        let k0 = w0.spec_negate().spec_code() as int;
                        let k1 = w1.spec_negate().spec_code() as int;
                        if c != k0 && c != k1 {
                            assert(bcp.watch@[c] == mid.watch@[c]);
                        }
                    }
                }
                assign(bcp, u, Reason::Long(ci));
                proof {
                    // the other literals sit on other variables, so the
                    // assertion of the UIP leaves them false: the learned
                    // clause was unit and is now satisfied by its UIP alone
                    let c = bcp.long_clauses@[ci as int];
                    assert(c[0] == u);
                    assert forall|a: int|
                        1 <= a < c.len() implies crate::assignment::spec_literal_value(
                        bcp.assignment@,
                        #[trigger] c[a],
                    ) == AssignedValue::False by {
                        assert(bcp.assignment@[c[a].var_index() as int] == mid.assignment@[c[
                            a].var_index() as int]);
                    }
                }
            }
        },
    }
}

} // verus!
