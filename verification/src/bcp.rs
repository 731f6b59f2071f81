//! The Boolean constraint propagation engine and its shared context.
//!
//! `BcpContext` owns the assignment, the trail, the clause database and the
//! watch lists. `propagate` drains the propagation queue: for every literal
//! newly made true it walks the binary adjacency of its negation and the
//! watch list it triggers, assigning forced literals until a fixpoint is
//! reached or a conflict — a clause with every literal false — is found.

use vstd::prelude::*;

use crate::assignment::{spec_literal_value, AssignedValue, VariableAssignment};
use crate::clause_db::{spec_adjacency_extended, spec_clause_falsified, spec_clause_tautology, spec_clause_unit, spec_distinct_literals, BinaryClauses, Clause, ClauseIndex, LongClauses};
use crate::literal::Literal;
use crate::trail::{Reason, Trail, TrailEntry};
use crate::watch::{spec_watches_in_range, LiteralWatch, Watchlists};

verus! {

/// The number of `Unknown` entries of an assignment; the propagation loop
/// terminates because every forced assignment lowers it.
pub open spec fn count_unknown(a: Seq<AssignedValue>) -> nat
    decreases a.len(),
{
    if a.len() == 0 {
        0
    } else {
        count_unknown(a.drop_last()) + if a.last() == AssignedValue::Unknown {
            1nat
        } else {
            0nat
        }
    }
}

/// Overwriting an `Unknown` entry with an assigned value lowers the count
/// of `Unknown` entries by exactly one.
pub proof fn lemma_count_unknown_update(a: Seq<AssignedValue>, i: int, v: AssignedValue)
    requires
        0 <= i < a.len(),
        a[i] == AssignedValue::Unknown,
        v != AssignedValue::Unknown,
    ensures
        count_unknown(a.update(i, v)) + 1 == count_unknown(a),
    decreases a.len(),
{
    let b = a.update(i, v);
    if i == a.len() - 1 {
        assert(b.drop_last() =~= a.drop_last());
    } else {
        assert(b.drop_last() =~= a.drop_last().update(i, v));
        lemma_count_unknown_update(a.drop_last(), i, v);
        assert(b.last() == a.last());
    }
}

/// The trail mirrors the assignment: every assigned variable is on the
/// trail (with `wf`'s uniqueness clause: exactly once), and the recorded
/// decision levels are nondecreasing along the trail. Opaque because its
/// quantifiers are only needed where the assignment or the trail change.
#[verifier::opaque]
pub open spec fn spec_trail_linked(a: Seq<AssignedValue>, entries: Seq<TrailEntry>) -> bool {
    &&& forall|v: int|
        0 <= v < a.len() && #[trigger] a[v] != AssignedValue::Unknown ==> exists|i: int|
            0 <= i < entries.len() && (#[trigger] entries[i]).literal.var_index() == v
    &&& forall|i: int, j: int|
        0 <= i <= j < entries.len() ==> (#[trigger] entries[i]).level <= (
        #[trigger] entries[j]).level
}

/// A reason is meaningful when it points into the current database.
pub open spec fn spec_reason_in_range(r: Reason, var_count: int, n_long: int) -> bool {
    match r {
        Reason::Decision => true,
        Reason::Binary(partner) => partner.var_index() < var_count,
        Reason::Long(ci) => ci < n_long,
    }
}

/// A conflict discovered by propagation or by the final satisfaction check:
/// a clause all of whose literals are false.
#[derive(Copy, Clone, Debug)]
pub enum Conflict {
    /// an implicit binary clause, reconstructed from the adjacency lists
    Binary(Literal, Literal),
    /// a long clause of the database
    Long(ClauseIndex),
    /// a clause of the input formula, found falsified under a total assignment
    Input(usize),
}

/// Shared state of propagation: assignment, trail, clause database, watch
/// lists, and the recorded input formula.
#[derive(Debug)]
pub struct BcpContext {
    /// set once the formula is known to be unsatisfiable
    pub is_unsat: bool,
    pub assignment: VariableAssignment,
    pub trail: Trail,
    pub binary_clauses: BinaryClauses,
    pub long_clauses: LongClauses,
    pub watch: Watchlists,
    /// unit clauses recorded before `init`, asserted at decision level 0
    pub units: Vec<Literal>,
    /// every clause ever added, verbatim; the SAT verdict is checked against it
    pub formula: Vec<Clause>,
}

impl Default for BcpContext {
    fn default() -> (r: BcpContext)
        ensures
            r.wf(),
            r.var_count() == 0,
            r.trail.entries@.len() == 0,
            r.trail.boundaries@.len() == 0,
            r.units@.len() == 0,
            r.formula@.len() == 0,
            r.long_clauses@.len() == 0,
            !r.is_unsat,
    {
        let r = BcpContext {
            is_unsat: false,
            assignment: VariableAssignment::default(),
            trail: Trail::default(),
            binary_clauses: BinaryClauses::default(),
            long_clauses: LongClauses::default(),
            watch: Watchlists::default(),
            units: Vec::new(),
            formula: Vec::new(),
        };
        proof {
            reveal(spec_trail_linked);
        }
        r
    }
}

impl BcpContext {
    /// The number of variables; fixed once solving begins.
    pub open spec fn var_count(self) -> int {
        self.assignment@.len() as int
    }

    /// The literals of a conflict, read from the structure it points into.
    pub open spec fn spec_conflict_literals(self, c: Conflict) -> Seq<Literal> {
        match c {
            Conflict::Binary(a, b) => seq![a, b],
            Conflict::Long(ci) => self.long_clauses@[ci as int],
            Conflict::Input(i) => self.formula@[i as int]@,
        }
    }

    /// A conflict points into the current database.
    pub open spec fn conflict_in_range(self, c: Conflict) -> bool {
        match c {
            Conflict::Binary(a, b) => a.var_index() < self.var_count() && b.var_index()
                < self.var_count(),
            Conflict::Long(ci) => ci < self.long_clauses@.len(),
            Conflict::Input(i) => i < self.formula@.len(),
        }
    }

    /// The implicit binary clause read off adjacency position `k` of
    /// literal code `c`: the literal with that code, and the stored partner.
    pub open spec fn spec_binary_pair(self, c: int, k: int) -> Seq<Literal> {
        seq![(Literal { code: c as u32 }), self.binary_clauses@[c][k]]
    }

    /// Propagation fixpoint: under the current assignment, no clause of the
    /// working database is falsified, and none is unit — every forced
    /// literal has been assigned.
    pub open spec fn db_at_fixpoint(self) -> bool {
        &&& forall|c: int, k: int|
            #![trigger self.binary_clauses@[c][k]]
            0 <= c < self.binary_clauses@.len() && 0 <= k < self.binary_clauses@[c].len() ==> {
                &&& !spec_clause_falsified(self.assignment@, self.spec_binary_pair(c, k))
                &&& !spec_clause_unit(self.assignment@, self.spec_binary_pair(c, k))
            }
        &&& forall|ci: int|
            0 <= ci < self.long_clauses@.len() ==> {
                &&& !spec_clause_falsified(self.assignment@, #[trigger] self.long_clauses@[ci])
                &&& !spec_clause_unit(self.assignment@, self.long_clauses@[ci])
            }
    }

    /// Well-formedness, except that a decision-level boundary may still sit
    /// at the very end of the trail (transiently true while a decision is
    /// being placed, before its literal is assigned).
    pub open spec fn wf_base(self) -> bool {
        // sizes
        &&& self.assignment@.len() <= 0x4000_0000
        &&& self.trail.levels@.len() == self.assignment@.len()
        &&& self.trail.queue_head <= self.trail.entries@.len()
        &&& self.binary_clauses@.len() == 2 * self.var_count()
        &&& self.watch@.len() == 2 * self.var_count()
        // every trail literal is true under the assignment (hence assigned)
        &&& forall|i: int|
            0 <= i < self.trail.entries@.len() ==> spec_literal_value(
                self.assignment@,
                (#[trigger] self.trail.entries@[i]).literal,
            ) == AssignedValue::True
        // no variable appears twice on the trail
        &&& forall|i: int, j: int|
            0 <= i < j < self.trail.entries@.len()
                ==> (#[trigger] self.trail.entries@[i]).literal.var_index() != (
            #[trigger] self.trail.entries@[j]).literal.var_index()
        // assigned variables sit on the trail, levels nondecreasing along it
        &&& spec_trail_linked(self.assignment@, self.trail.entries@)
        // recorded entry levels never exceed the current decision level
        &&& forall|i: int|
            0 <= i < self.trail.entries@.len() ==> (#[trigger] self.trail.entries@[i]).level
                <= self.trail.boundaries@.len()
        // an entry below boundary `j` was assigned before level `j + 1` was
        // opened, so its level is at most `j`
        &&& forall|i: int, j: int|
            #![trigger self.trail.entries@[i], self.trail.boundaries@[j]]
            0 <= j < self.trail.boundaries@.len() && 0 <= i < self.trail.boundaries@[j]
                ==> self.trail.entries@[i].level <= j
        // every reason points into the database
        &&& forall|i: int|
            0 <= i < self.trail.entries@.len() ==> spec_reason_in_range(
                (#[trigger] self.trail.entries@[i]).reason,
                self.var_count(),
                self.long_clauses@.len() as int,
            )
        // decision-level boundaries are strictly increasing and in range
        &&& forall|j: int, k: int|
            0 <= j < k < self.trail.boundaries@.len() ==> (#[trigger] self.trail.boundaries@[j]) < (
            #[trigger] self.trail.boundaries@[k])
        &&& forall|j: int|
            0 <= j < self.trail.boundaries@.len() ==> (#[trigger] self.trail.boundaries@[j])
                <= self.trail.entries@.len()
        // binary adjacency lists mention variables in range
        &&& forall|c: int, k: int|
            0 <= c < self.binary_clauses@.len() && 0 <= k < self.binary_clauses@[c].len() ==> (
            #[trigger] self.binary_clauses@[c][k]).var_index() < self.var_count()
        // long clauses have at least three literals, all in range
        &&& forall|ci: int|
            0 <= ci < self.long_clauses@.len() ==> (#[trigger] self.long_clauses@[ci]).len() >= 3
        &&& forall|ci: int, k: int|
            0 <= ci < self.long_clauses@.len() && 0 <= k < self.long_clauses@[ci].len() ==> (
            #[trigger] self.long_clauses@[ci][k]).var_index() < self.var_count()
        // watch entries point into the clause store
        &&& spec_watches_in_range(self.watch@, self.long_clauses@.len() as int)
        // pending units and recorded formula mention variables in range
        &&& forall|i: int|
            0 <= i < self.units@.len() ==> (#[trigger] self.units@[i]).var_index()
                < self.var_count()
        &&& forall|ci: int, k: int|
            0 <= ci < self.formula@.len() && 0 <= k < self.formula@[ci]@.len() ==> (
            #[trigger] self.formula@[ci]@[k]).var_index() < self.var_count()
    }

    /// Full well-formedness: additionally, every decision level owns at
    /// least one trail entry, so boundaries sit strictly inside the trail.
    pub open spec fn wf(self) -> bool {
        &&& self.wf_base()
        &&& forall|j: int|
            0 <= j < self.trail.boundaries@.len() ==> (#[trigger] self.trail.boundaries@[j])
                < self.trail.entries@.len()
    }

    /// Termination measure of propagation: falls with every forced
    /// assignment and with every dequeued literal.
    pub open spec fn progress(self) -> int {
        2 * count_unknown(self.assignment@) + self.trail.entries@.len() as int
    }

    /// A conflict is falsified: every literal of the clause it points to is
    /// false under the current assignment.
    pub open spec fn conflict_falsified(self, c: Conflict) -> bool {
        spec_clause_falsified(self.assignment@, self.spec_conflict_literals(c))
    }
}

/// The two-watch invariant: both watched literals (the first two) of every
/// long clause are unknown or true, unless the clause is satisfied by some
/// literal. Propagation may break it transiently while it repairs a watch,
/// and a freshly asserted literal owes its scan to the queue; the invariant
/// is expected at every propagation fixpoint.
pub open spec fn spec_two_watch_invariant(bcp: BcpContext) -> bool {
    forall|ci: int|
        0 <= ci < bcp.long_clauses@.len() ==> crate::clause_db::spec_clause_satisfied(
            bcp.assignment@,
            #[trigger] bcp.long_clauses@[ci],
        ) || (spec_literal_value(bcp.assignment@, bcp.long_clauses@[ci][0])
            != AssignedValue::False && spec_literal_value(bcp.assignment@, bcp.long_clauses@[ci][1])
            != AssignedValue::False)
}

/// Decides the two-watch invariant, exactly: `true` if and only if every
/// long clause is satisfied or has both watched literals non-false.
pub fn check_two_watch_invariant(bcp: &BcpContext) -> (r: bool)
    requires
        bcp.wf(),
    ensures
        r == spec_two_watch_invariant(*bcp),
{
    let mut ci: usize = 0;
    while ci < bcp.long_clauses.len()
        invariant
            bcp.wf(),
            ci <= bcp.long_clauses@.len(),
            forall|a: int|
                0 <= a < ci ==> crate::clause_db::spec_clause_satisfied(
                    bcp.assignment@,
                    #[trigger] bcp.long_clauses@[a],
                ) || (spec_literal_value(bcp.assignment@, bcp.long_clauses@[a][0])
                    != AssignedValue::False && spec_literal_value(
                    bcp.assignment@,
                    bcp.long_clauses@[a][1],
                ) != AssignedValue::False),
        decreases bcp.long_clauses@.len() - ci,
    {
        let v0 = bcp.assignment.literal_value(bcp.long_clauses.literal_at(ci, 0));
        let v1 = bcp.assignment.literal_value(bcp.long_clauses.literal_at(ci, 1));
        if v0 == AssignedValue::False || v1 == AssignedValue::False {
            // a watched literal is false: the clause must be satisfied
            let len = bcp.long_clauses.clause_len(ci);
            let mut k: usize = 0;
            let mut satisfied = false;
            while k < len && !satisfied
                invariant
                    bcp.wf(),
                    ci < bcp.long_clauses@.len(),
                    len == bcp.long_clauses@[ci as int].len(),
                    k <= len,
                    satisfied ==> crate::clause_db::spec_clause_satisfied(
                        bcp.assignment@,
                        bcp.long_clauses@[ci as int],
                    ),
                    !satisfied ==> forall|m: int|
                        0 <= m < k ==> spec_literal_value(
                            bcp.assignment@,
                            bcp.long_clauses@[ci as int][m],
                        ) != AssignedValue::True,
                decreases len - k, (if satisfied { 0int } else { 1int }),
            {
                if bcp.assignment.literal_value(bcp.long_clauses.literal_at(ci, k))
                    == AssignedValue::True {
                    satisfied = true;
                } else {
                    k += 1;
                }
            }
            if !satisfied {
                return false;
            }
        }
        ci += 1;
    }
    true
}

/// Walks the binary adjacency of `!p` after `p` became true: for each
/// partner `q` of a binary clause `{!p, q}`, a false `q` is a conflict, an
/// unknown `q` is forced true.
fn propagate_binary(bcp: &mut BcpContext, p: Literal) -> (r: Result<(), Conflict>)
    requires
        old(bcp).wf(),
        spec_literal_value(old(bcp).assignment@, p) == AssignedValue::True,
    ensures
        final(bcp).wf(),
        final(bcp).var_count() == old(bcp).var_count(),
        final(bcp).binary_clauses == old(bcp).binary_clauses,
        final(bcp).long_clauses == old(bcp).long_clauses,
        final(bcp).watch == old(bcp).watch,
        final(bcp).units == old(bcp).units,
        final(bcp).formula == old(bcp).formula,
        final(bcp).is_unsat == old(bcp).is_unsat,
        final(bcp).trail.boundaries == old(bcp).trail.boundaries,
        final(bcp).trail.queue_head == old(bcp).trail.queue_head,
        final(bcp).trail.entries@.len() >= old(bcp).trail.entries@.len(),
        final(bcp).progress() <= old(bcp).progress(),
        forall|v: int|
            0 <= v < old(bcp).var_count() && old(bcp).assignment@[v] != AssignedValue::Unknown
                ==> final(bcp).assignment@[v] == old(bcp).assignment@[v],
        spec_literal_value(final(bcp).assignment@, p) == AssignedValue::True,
        r is Err ==> final(bcp).conflict_in_range(r->Err_0) && final(bcp).conflict_falsified(
            r->Err_0,
        ),
{
    let not_p = p.negate();
    proof {
        crate::assignment::lemma_true_literal_assigned(bcp.assignment@, p);
        crate::assignment::lemma_literal_value_negation(bcp.assignment@, p);
        crate::literal::lemma_negate_involution(p);
    }
    let code = not_p.index() as usize;
    let mut k: usize = 0;
    while k < bcp.binary_clauses.list_len(code)
        invariant
            bcp.wf(),
            bcp.var_count() == old(bcp).var_count(),
            bcp.binary_clauses == old(bcp).binary_clauses,
            bcp.long_clauses == old(bcp).long_clauses,
            bcp.watch == old(bcp).watch,
            bcp.units == old(bcp).units,
            bcp.formula == old(bcp).formula,
            bcp.is_unsat == old(bcp).is_unsat,
            bcp.trail.boundaries == old(bcp).trail.boundaries,
            bcp.trail.queue_head == old(bcp).trail.queue_head,
            bcp.trail.entries@.len() >= old(bcp).trail.entries@.len(),
            bcp.progress() <= old(bcp).progress(),
            forall|v: int|
                0 <= v < old(bcp).var_count() && old(bcp).assignment@[v] != AssignedValue::Unknown
                    ==> bcp.assignment@[v] == old(bcp).assignment@[v],
            spec_literal_value(bcp.assignment@, p) == AssignedValue::True,
            not_p == p.spec_negate(),
            code == not_p.spec_code(),
            code < bcp.binary_clauses@.len(),
            k <= bcp.binary_clauses@[code as int].len(),
        decreases bcp.binary_clauses@[code as int].len() - k,
    {
        let q = bcp.binary_clauses.partner_at(code, k);
        let value = bcp.assignment.literal_value(q);
        if value == AssignedValue::False {
            proof {
                crate::assignment::lemma_literal_value_negation(bcp.assignment@, p);
                let c = Conflict::Binary(not_p, q);
                let lits = bcp.spec_conflict_literals(c);
                assert(lits.len() == 2);
                assert(lits[0] == not_p && lits[1] == q);
                assert(spec_literal_value(bcp.assignment@, not_p) == AssignedValue::False);
            }
            return Err(Conflict::Binary(not_p, q));
        }
        if value == AssignedValue::Unknown {
            let ghost pre = *bcp;
            crate::trail::assign(bcp, q, Reason::Binary(not_p));
            proof {
                // `p` keeps its value: its variable was assigned, `q`'s was not
                crate::assignment::lemma_true_literal_assigned(pre.assignment@, p);
                assert(q.var_index() != p.var_index());
            }
        }
        k += 1;
    }
    Ok(())
}

/// Scans a long clause's positions from 2 upward for the leftmost literal
/// that is not false, the candidate for a fresh watch.
fn find_replacement(bcp: &BcpContext, ci: ClauseIndex) -> (r: Option<usize>)
    requires
        bcp.wf(),
        ci < bcp.long_clauses@.len(),
    ensures
        match r {
            Some(j) => 2 <= j < bcp.long_clauses@[ci as int].len() && spec_literal_value(
                bcp.assignment@,
                bcp.long_clauses@[ci as int][j as int],
            ) != AssignedValue::False,
            None => forall|m: int|
                2 <= m < bcp.long_clauses@[ci as int].len() ==> spec_literal_value(
                    bcp.assignment@,
                    bcp.long_clauses@[ci as int][m],
                ) == AssignedValue::False,
        },
{
    let c_len = bcp.long_clauses.clause_len(ci);
    let mut j: usize = 2;
    while j < c_len
        invariant
            bcp.wf(),
            ci < bcp.long_clauses@.len(),
            c_len == bcp.long_clauses@[ci as int].len(),
            2 <= j <= c_len,
            forall|m: int|
                2 <= m < j ==> spec_literal_value(
                    bcp.assignment@,
                    bcp.long_clauses@[ci as int][m],
                ) == AssignedValue::False,
        decreases c_len - j,
    {
        let lit = bcp.long_clauses.literal_at(ci, j);
        if bcp.assignment.literal_value(lit) != AssignedValue::False {
            return Some(j);
        }
        j += 1;
    }
    None
}

/// Processes the watch list triggered by `p` becoming true. For each
/// watched clause: a true watched literal keeps the watch; otherwise a
/// replacement literal is swapped into the watched position and the watch
/// moves; failing that the clause is unit (force the other watched literal)
/// or conflicting (every literal false).
fn propagate_long(bcp: &mut BcpContext, p: Literal) -> (r: Result<(), Conflict>)
    requires
        old(bcp).wf(),
        spec_literal_value(old(bcp).assignment@, p) == AssignedValue::True,
    ensures
        final(bcp).wf(),
        final(bcp).var_count() == old(bcp).var_count(),
        final(bcp).binary_clauses == old(bcp).binary_clauses,
        final(bcp).long_clauses@.len() == old(bcp).long_clauses@.len(),
        final(bcp).units == old(bcp).units,
        final(bcp).formula == old(bcp).formula,
        final(bcp).is_unsat == old(bcp).is_unsat,
        final(bcp).trail.boundaries == old(bcp).trail.boundaries,
        final(bcp).trail.queue_head == old(bcp).trail.queue_head,
        final(bcp).trail.entries@.len() >= old(bcp).trail.entries@.len(),
        final(bcp).progress() <= old(bcp).progress(),
        forall|v: int|
            0 <= v < old(bcp).var_count() && old(bcp).assignment@[v] != AssignedValue::Unknown
                ==> final(bcp).assignment@[v] == old(bcp).assignment@[v],
        spec_literal_value(final(bcp).assignment@, p) == AssignedValue::True,
        r is Err ==> final(bcp).conflict_in_range(r->Err_0) && final(bcp).conflict_falsified(
            r->Err_0,
        ),
{
    proof {
        crate::assignment::lemma_true_literal_assigned(bcp.assignment@, p);
    }
    let mut list: Vec<LiteralWatch> = bcp.watch.take_watchlist(p);
    let mut kept: Vec<LiteralWatch> = Vec::new();
    let mut conflict: Option<Conflict> = None;
    let mut i: usize = 0;
    while i < list.len() && conflict.is_none()
        invariant
            bcp.wf(),
            bcp.var_count() == old(bcp).var_count(),
            bcp.binary_clauses == old(bcp).binary_clauses,
            bcp.long_clauses@.len() == old(bcp).long_clauses@.len(),
            bcp.units == old(bcp).units,
            bcp.formula == old(bcp).formula,
            bcp.is_unsat == old(bcp).is_unsat,
            bcp.trail.boundaries == old(bcp).trail.boundaries,
            bcp.trail.queue_head == old(bcp).trail.queue_head,
            bcp.trail.entries@.len() >= old(bcp).trail.entries@.len(),
            bcp.progress() <= old(bcp).progress(),
            forall|v: int|
                0 <= v < old(bcp).var_count() && old(bcp).assignment@[v] != AssignedValue::Unknown
                    ==> bcp.assignment@[v] == old(bcp).assignment@[v],
            spec_literal_value(bcp.assignment@, p) == AssignedValue::True,
            p.spec_code() < bcp.watch@.len(),
            bcp.watch@[p.spec_code() as int].len() == 0,
            i <= list@.len(),
            forall|k: int|
                0 <= k < list@.len() ==> (#[trigger] list@[k]).clause_index
                    < bcp.long_clauses@.len(),
            forall|k: int|
                0 <= k < kept@.len() ==> (#[trigger] kept@[k]).clause_index
                    < bcp.long_clauses@.len(),
            match conflict {
                Some(c) => bcp.conflict_in_range(c) && bcp.conflict_falsified(c),
                None => true,
            },
        decreases list@.len() - i,
    {
        let entry = list[i];
        let ci = entry.clause_index;
        let l0 = bcp.long_clauses.literal_at(ci, 0);
        let l1 = bcp.long_clauses.literal_at(ci, 1);
        let v0 = bcp.assignment.literal_value(l0);
        let v1 = bcp.assignment.literal_value(l1);
        if v0 == AssignedValue::True || v1 == AssignedValue::True {
            // clause already satisfied through a watched literal: keep it
            kept.push(entry);
            i += 1;
        } else {
            let not_p = p.negate();
            let pos: usize = if l0 == not_p {
                0
            } else {
                1
            };
            let replacement_at = find_replacement(bcp, ci);
            match replacement_at {
                Some(j) => {
                    // move the watch to the replacement literal
                    let replacement = bcp.long_clauses.literal_at(ci, j);
                    let ghost pre = *bcp;
                    bcp.long_clauses.swap_literals(ci, pos, j);
                    proof {
                        crate::assignment::lemma_literal_value_negation(bcp.assignment@, p);
                        crate::literal::lemma_negate_involution(p);
                        crate::literal::lemma_negate_involution(replacement);
                        // the replacement is not false while `!p` is, so the
                        // new watch key differs from `p`
                        assert(replacement != not_p);
                        assert(replacement.spec_negate() != p);
                        // the clause keeps its length and its variables
                        assert forall|k: int|
                            0 <= k < bcp.long_clauses@[ci as int].len() implies (
                        #[trigger] bcp.long_clauses@[ci as int][k]).var_index()
                            < bcp.var_count() by {
                            assert(bcp.long_clauses@[ci as int][k] == pre.long_clauses@[
                                ci as int][k] || bcp.long_clauses@[ci as int][k]
                                == pre.long_clauses@[ci as int][pos as int] || bcp.long_clauses@[
                                ci as int][k] == pre.long_clauses@[ci as int][j as int]);
                        }
                    }
                    bcp.watch.add_watch(replacement, ci);
                    i += 1;
                }
                None => {
                    // no replacement: positions 2.. are all false
                    if v0 == AssignedValue::Unknown && v1 == AssignedValue::False {
                        // unit: the clause forces its first watched literal
                        let ghost pre = *bcp;
                        crate::trail::assign(bcp, l0, Reason::Long(ci));
                        proof {
                            crate::assignment::lemma_true_literal_assigned(pre.assignment@, p);
                        }
                        kept.push(entry);
                        i += 1;
                    } else if v1 == AssignedValue::Unknown && v0 == AssignedValue::False {
                        // unit: the clause forces its second watched literal
                        let ghost pre = *bcp;
                        crate::trail::assign(bcp, l1, Reason::Long(ci));
                        proof {
                            crate::assignment::lemma_true_literal_assigned(pre.assignment@, p);
                        }
                        kept.push(entry);
                        i += 1;
                    } else if v0 == AssignedValue::False && v1 == AssignedValue::False {
                        // every literal of the clause is false: conflict
                        proof {
                            let c = Conflict::Long(ci);
                            assert forall|m: int|
                                0 <= m < bcp.spec_conflict_literals(c).len() implies spec_literal_value(
                                bcp.assignment@,
                                bcp.spec_conflict_literals(c)[m],
                            ) == AssignedValue::False by {
                                if m >= 2 {
                                    assert(spec_literal_value(
                                        bcp.assignment@,
                                        bcp.long_clauses@[ci as int][m],
                                    ) == AssignedValue::False);
                                }
                            }
                        }
                        conflict = Some(Conflict::Long(ci));
                        kept.push(entry);
                        i += 1;
                    } else {
                        // both watched literals unknown: nothing to do
                        kept.push(entry);
                        i += 1;
                    }
                }
            }
        }
    }
    let ghost mid = *bcp;
    while i < list.len()
        invariant
            *bcp == mid,
            i <= list@.len(),
            forall|k: int|
                0 <= k < list@.len() ==> (#[trigger] list@[k]).clause_index
                    < bcp.long_clauses@.len(),
            forall|k: int|
                0 <= k < kept@.len() ==> (#[trigger] kept@[k]).clause_index
                    < bcp.long_clauses@.len(),
        decreases list@.len() - i,
    {
        kept.push(list[i]);
        i += 1;
    }
    proof {
        assert(bcp.wf());
        assert(p.spec_code() < bcp.watch@.len());
    }
    bcp.watch.place_watchlist(p, kept);
    proof {
        assert(crate::watch::spec_watches_in_range(
            bcp.watch@,
            bcp.long_clauses@.len() as int,
        )) by {
            assert forall|a: int, k: int|
                0 <= a < bcp.watch@.len() && 0 <= k < bcp.watch@[a].len() implies (
            #[trigger] bcp.watch@[a][k]).clause_index < bcp.long_clauses@.len() by {
                if a != p.spec_code() as int {
                    assert(bcp.watch@[a] == mid.watch@[a]);
                }
            }
        }
    }
    match conflict {
        None => Ok(()),
        Some(c) => Err(c),
    }
}

impl BcpContext {
    /// Grows every per-variable and per-literal table so that variables
    /// below `n` are covered; new variables start out `Unknown`.
    #[verifier::loop_isolation(false)]
    fn ensure_var_capacity(&mut self, n: usize)
        requires
            old(self).wf(),
            n <= 0x4000_0000,
        ensures
            final(self).wf(),
            final(self).var_count() == if old(self).var_count() >= n {
                old(self).var_count()
            } else {
                n as int
            },
            forall|v: int| 0 <= v < old(self).var_count() ==> final(self).assignment@[v] == old(
                self,
            ).assignment@[v],
            forall|v: int|
                old(self).var_count() <= v < final(self).var_count() ==> final(self).assignment@[v]
                    == AssignedValue::Unknown,
            final(self).trail.entries == old(self).trail.entries,
            final(self).trail.boundaries == old(self).trail.boundaries,
            final(self).trail.queue_head == old(self).trail.queue_head,
            final(self).long_clauses == old(self).long_clauses,
            final(self).units == old(self).units,
            final(self).formula == old(self).formula,
            final(self).is_unsat == old(self).is_unsat,
            spec_adjacency_extended(old(self).binary_clauses@, final(self).binary_clauses@),
    {
        if n > self.assignment.var_count() {
            self.assignment.resize(n);
            while self.trail.levels.len() < n
                invariant
                    self.trail.levels@.len() <= n,
                    self.assignment@.len() == n,
                    forall|v: int|
                        0 <= v < old(self).assignment@.len() ==> self.assignment@[v] == old(
                            self,
                        ).assignment@[v],
                    forall|v: int|
                        old(self).assignment@.len() <= v < n ==> self.assignment@[v]
                            == AssignedValue::Unknown,
                    self.trail.entries == old(self).trail.entries,
                    self.trail.boundaries == old(self).trail.boundaries,
                    self.trail.queue_head == old(self).trail.queue_head,
                    self.binary_clauses == old(self).binary_clauses,
                    self.watch == old(self).watch,
                    self.long_clauses == old(self).long_clauses,
                    self.units == old(self).units,
                    self.formula == old(self).formula,
                    self.is_unsat == old(self).is_unsat,
                decreases n - self.trail.levels@.len(),
            {
                self.trail.levels.push(0);
            }
            self.binary_clauses.grow_to(2 * n);
            self.watch.grow_to(2 * n);
            proof {
                assert forall|i: int|
                    0 <= i < self.trail.entries@.len() implies spec_literal_value(
                    self.assignment@,
                    (#[trigger] self.trail.entries@[i]).literal,
                ) == AssignedValue::True by {
                    let l = self.trail.entries@[i].literal;
                    assert(self.trail.entries@[i] == old(self).trail.entries@[i]);
                    assert(spec_literal_value(old(self).assignment@, l) == AssignedValue::True);
                    crate::assignment::lemma_true_literal_assigned(old(self).assignment@, l);
                    assert(self.assignment@[l.var_index() as int] == old(
                        self,
                    ).assignment@[l.var_index() as int]);
                }
                // growing the table with fresh `Unknown` variables keeps the
                // trail linked: old variables keep their values and entries
                reveal(spec_trail_linked);
                assert forall|v: int|
                    0 <= v < self.assignment@.len() && #[trigger] self.assignment@[v]
                        != AssignedValue::Unknown implies exists|i: int|
                    0 <= i < self.trail.entries@.len() && (
                    #[trigger] self.trail.entries@[i]).literal.var_index() == v by {
                    assert(v < old(self).assignment@.len());
                    assert(old(self).assignment@[v] != AssignedValue::Unknown);
                    let i = choose|i: int|
                        0 <= i < old(self).trail.entries@.len() && (#[trigger] old(
                            self,
                        ).trail.entries@[i]).literal.var_index() == v;
                    assert(self.trail.entries@[i].literal.var_index() == v);
                }
            }
        }
    }

    /// Adds a clause to the formula, before solving starts. The clause is
    /// recorded verbatim; for the solver's working database its literals are
    /// deduplicated, a tautology is discarded, an empty clause marks the
    /// formula unsatisfiable, a unit is remembered for `init`, a binary
    /// clause goes to the adjacency lists, and a longer one to the heap.
    #[verifier::loop_isolation(false)]
    pub fn add_clause(&mut self, clause: &[Literal])
        requires
            old(self).wf(),
            forall|k: int|
                0 <= k < clause@.len() ==> (#[trigger] clause@[k]).var_index() < 0x4000_0000,
        ensures
            final(self).wf(),
            final(self).formula@.len() == old(self).formula@.len() + 1,
            final(self).formula@[old(self).formula@.len() as int]@ == clause@,
            forall|i: int|
                0 <= i < old(self).formula@.len() ==> final(self).formula@[i] == old(
                    self,
                ).formula@[i],
            final(self).var_count() >= old(self).var_count(),
            forall|k: int|
                0 <= k < clause@.len() ==> (#[trigger] clause@[k]).var_index()
                    < final(self).var_count(),
            forall|v: int| 0 <= v < old(self).var_count() ==> final(self).assignment@[v] == old(
                self,
            ).assignment@[v],
            final(self).trail.entries == old(self).trail.entries,
            final(self).trail.boundaries == old(self).trail.boundaries,
            final(self).trail.queue_head == old(self).trail.queue_head,
            clause@.len() > 0 ==> final(self).is_unsat == old(self).is_unsat,
            clause@.len() == 0 ==> final(self).is_unsat,
            // a tautology constrains nothing: the working database is kept
            // (the adjacency table may only have grown with empty lists)
            spec_clause_tautology(clause@) ==> final(self).units == old(self).units
                && spec_adjacency_extended(old(self).binary_clauses@, final(self).binary_clauses@)
                && final(self).long_clauses == old(self).long_clauses,
            // otherwise the deduplicated clause is routed by its width: the
            // empty clause settles the verdict, a unit is recorded for
            // `init`, a binary clause joins both adjacency lists, a longer
            // one is stored on the heap
            !spec_clause_tautology(clause@) ==> exists|s: Seq<Literal>, grown: Seq<Seq<Literal>>|
                {
                    &&& #[trigger] spec_distinct_literals(s)
                    &&& #[trigger] spec_adjacency_extended(old(self).binary_clauses@, grown)
                    &&& (forall|l: Literal| s.contains(l) <==> clause@.contains(l))
                    &&& if s.len() == 0 {
                        final(self).is_unsat && final(self).units == old(self).units && final(self).binary_clauses@ == grown && final(self).long_clauses == old(self).long_clauses
                    } else if s.len() == 1 {
                        final(self).units@ == old(self).units@.push(s[0]) && final(self).binary_clauses@ == grown && final(self).long_clauses == old(self).long_clauses
                    } else if s.len() == 2 {
                        ({
                            let ka = s[0].spec_code() as int;
                            let kb = s[1].spec_code() as int;
                            let mid = grown.update(ka, grown[ka].push(s[1]));
                            final(self).binary_clauses@ == mid.update(kb, mid[kb].push(s[0]))
                        }) && final(self).units == old(self).units && final(self).long_clauses == old(self).long_clauses
                    } else {
                        final(self).long_clauses@ == old(self).long_clauses@.push(s) && final(self).units == old(self).units && final(self).binary_clauses@ == grown
                    }
                },
    {
        // make room for every variable the clause mentions
        let mut k: usize = 0;
        while k < clause.len()
            invariant
                self.wf(),
                forall|k2: int|
                    0 <= k2 < clause@.len() ==> (#[trigger] clause@[k2]).var_index() < 0x4000_0000,
                self.var_count() >= old(self).var_count(),
                forall|v: int| 0 <= v < old(self).var_count() ==> self.assignment@[v] == old(
                    self,
                ).assignment@[v],
                forall|m: int| 0 <= m < k ==> (#[trigger] clause@[m]).var_index()
                    < self.var_count(),
                self.trail.entries == old(self).trail.entries,
                self.trail.boundaries == old(self).trail.boundaries,
                self.trail.queue_head == old(self).trail.queue_head,
                self.long_clauses == old(self).long_clauses,
                self.units == old(self).units,
                self.formula == old(self).formula,
                self.is_unsat == old(self).is_unsat,
                spec_adjacency_extended(old(self).binary_clauses@, self.binary_clauses@),
                k <= clause@.len(),
            decreases clause@.len() - k,
        {
            let var = clause[k].variable().index() as usize;
            self.ensure_var_capacity(var + 1);
            k += 1;
        }
        let ghost grown_binary = self.binary_clauses@;
        // record the clause verbatim: the SAT verdict is checked against it
        let mut copy: Vec<Literal> = Vec::new();
        let mut k2: usize = 0;
        while k2 < clause.len()
            invariant
                k2 <= clause@.len(),
                copy@ == clause@.subrange(0, k2 as int),
            decreases clause@.len() - k2,
        {
            copy.push(clause[k2]);
            proof {
                assert(copy@ =~= clause@.subrange(0, k2 + 1));
            }
            k2 += 1;
        }
        proof {
            assert(copy@ =~= clause@);
        }
        self.formula.push(Clause { literals: copy });
        // simplify: drop duplicate literals, discard a tautology
        let mut simplified: Vec<Literal> = Vec::new();
        let mut m: usize = 0;
        while m < clause.len()
            invariant
                m <= clause@.len(),
                forall|a: int|
                    0 <= a < simplified@.len() ==> (#[trigger] simplified@[a]).var_index()
                        < self.var_count(),
                forall|m2: int| 0 <= m2 < clause@.len() ==> (#[trigger] clause@[m2]).var_index()
                    < self.var_count(),
                m > 0 ==> simplified@.len() > 0,
                m == 0 ==> simplified@.len() == 0,
                spec_distinct_literals(simplified@),
                forall|a: int|
                    0 <= a < simplified@.len() ==> clause@.contains(#[trigger] simplified@[a]),
                forall|i: int| 0 <= i < m ==> simplified@.contains(#[trigger] clause@[i]),
                forall|i: int, j: int|
                    #![trigger clause@[i], clause@[j]]
                    0 <= i < m && 0 <= j < m ==> clause@[j] != clause@[i].spec_negate(),
            decreases clause@.len() - m,
        {
            let l = clause[m];
            let mut duplicate = false;
            let mut tautology = false;
            let mut a: usize = 0;
            while a < simplified.len()
                invariant
                    a <= simplified@.len(),
                    duplicate <==> exists|b: int|
                        0 <= b < a && (#[trigger] simplified@[b]) == l,
                    tautology <==> exists|b: int|
                        0 <= b < a && (#[trigger] simplified@[b]) == l.spec_negate(),
                    forall|b: int|
                        0 <= b < simplified@.len() ==> (#[trigger] simplified@[b]).var_index()
                            < self.var_count(),
                decreases simplified@.len() - a,
            {
                let s = simplified[a];
                if s == l {
                    duplicate = true;
                }
                if s == l.negate() {
                    tautology = true;
                }
                a += 1;
            }
            if tautology {
                // a clause with both polarities of a variable is always true
                proof {
                    let b = choose|b: int|
                        0 <= b < simplified@.len() && (#[trigger] simplified@[b])
                            == l.spec_negate();
                    let i = choose|i: int|
                        0 <= i < clause@.len() && clause@[i] == (#[trigger] simplified@[b]);
                    crate::literal::lemma_negate_involution(l);
                    assert(clause@[m as int] == clause@[i].spec_negate());
                    assert(spec_clause_tautology(clause@));
                }
                return ;
            }
            if !duplicate {
                let ghost pre = simplified@;
                simplified.push(l);
                proof {
                    assert(simplified@[simplified@.len() - 1] == l);
                    assert(clause@[m as int] == l);
                    // membership facts carry over the push
                    assert forall|i: int|
                        0 <= i < m implies simplified@.contains(#[trigger] clause@[i]) by {
                        let b = choose|b: int| 0 <= b < pre.len() && pre[b] == clause@[i];
                        assert(simplified@[b] == clause@[i]);
                    }
                    assert forall|a: int|
                        0 <= a < simplified@.len() implies clause@.contains(
                        #[trigger] simplified@[a]) by {
                        if a < pre.len() {
                            assert(simplified@[a] == pre[a]);
                        } else {
                            assert(simplified@[a] == clause@[m as int]);
                        }
                    }
                }
            } else {
                proof {
                    let b = choose|b: int|
                        0 <= b < simplified@.len() && (#[trigger] simplified@[b]) == l;
                    assert(simplified@[b] == clause@[m as int]);
                }
            }
            proof {
                // neither `l` itself nor its negation joins a tautology with
                // the prefix: the negation was just looked for and is absent
                crate::literal::lemma_negate_involution(l);
                assert(simplified@.contains(clause@[m as int]));
                assert forall|i: int, j: int|
                    #![trigger clause@[i], clause@[j]]
                    0 <= i < m + 1 && 0 <= j < m + 1 implies clause@[j] != clause@[
                i].spec_negate() by {
                    if i == m && j == m {
                        assert(clause@[m as int] != clause@[m as int].spec_negate());
                    } else if i == m {
                        if clause@[j] == clause@[i].spec_negate() {
                            assert(simplified@.contains(clause@[j]));
                            assert(false);
                        }
                    } else if j == m {
                        if clause@[j] == clause@[i].spec_negate() {
                            crate::literal::lemma_negate_involution(clause@[i]);
                            assert(clause@[i] == l.spec_negate());
                            assert(simplified@.contains(clause@[i]));
                            assert(false);
                        }
                    }
                }
            }
            m += 1;
        }
        proof {
            // the whole clause was scanned without finding both polarities
            assert(!spec_clause_tautology(clause@));
        }
        let ghost dedup = simplified@;
        if simplified.len() == 0 {
            // the empty clause is unsatisfiable
            self.is_unsat = true;
        } else if simplified.len() == 1 {
            self.units.push(simplified[0]);
        } else if simplified.len() == 2 {
            let a = simplified[0];
            let b = simplified[1];
            self.binary_clauses.add_binary(a, b);
        } else {
            self.long_clauses.push_clause(Clause { literals: simplified });
            proof {
                assert(self.long_clauses@ =~= old(self).long_clauses@.push(dedup));
            }
        }
        proof {
            assert(spec_distinct_literals(dedup));
            assert(spec_adjacency_extended(old(self).binary_clauses@, grown_binary));
            assert(forall|l: Literal| dedup.contains(l) <==> clause@.contains(l));
        }
    }

    /// Builds the watch lists, asserts the recorded unit clauses at decision
    /// level 0, and runs propagation once; a conflict here means the formula
    /// is unsatisfiable.
    #[verifier::loop_isolation(false)]
    pub fn init(&mut self)
        requires
            old(self).wf(),
        ensures
            final(self).wf(),
            final(self).var_count() == old(self).var_count(),
            final(self).formula == old(self).formula,
            final(self).units == old(self).units,
            // every recorded unit clause is asserted, or the formula was
            // found unsatisfiable on the spot
            final(self).is_unsat || forall|i: int|
                0 <= i < final(self).units@.len() ==> spec_literal_value(
                    final(self).assignment@,
                    #[trigger] final(self).units@[i],
                ) == AssignedValue::True,
            // without the mark, propagation ran to a certified fixpoint
            !final(self).is_unsat ==> final(self).db_at_fixpoint(),
    {
        proof {
            assert forall|ci: int, k: int|
                0 <= ci < self.long_clauses@.len() && 0 <= k
                    < self.long_clauses@[ci].len() implies 2 * (
            #[trigger] self.long_clauses@[ci][k]).var_index() + 1 < self.watch@.len() by {
                assert(self.long_clauses@[ci][k].var_index() < self.var_count());
            }
        }
        crate::watch::build_watchlists(&mut self.watch, &self.long_clauses);
        let mut k: usize = 0;
        while k < self.units.len()
            invariant
                self.wf(),
                self.var_count() == old(self).var_count(),
                self.units == old(self).units,
                self.formula == old(self).formula,
                k <= self.units@.len(),
                self.is_unsat || forall|i: int|
                    0 <= i < k ==> spec_literal_value(self.assignment@, #[trigger] self.units@[i])
                        == AssignedValue::True,
            decreases self.units@.len() - k,
        {
            let u = self.units[k];
            let value = self.assignment.literal_value(u);
            if value == AssignedValue::Unknown {
                let ghost pre = *self;
                crate::trail::assign(self, u, Reason::Decision);
                proof {
                    // units already true stay true: their variables were
                    // assigned, hence differ from the one just set
                    if !self.is_unsat {
                        assert forall|i: int|
                            0 <= i < k + 1 implies spec_literal_value(
                            self.assignment@,
                            #[trigger] self.units@[i],
                        ) == AssignedValue::True by {
                            if i < k {
                                let l = pre.units@[i];
                                crate::assignment::lemma_true_literal_assigned(pre.assignment@, l);
                                assert(self.assignment@[l.var_index() as int] == pre.assignment@[
                                    l.var_index() as int]);
                            }
                        }
                    }
                }
            } else if value == AssignedValue::False {
                // two contradicting unit clauses
                self.is_unsat = true;
            }
            k += 1;
        }
        if !self.is_unsat {
            let ghost pre = *self;
            let outcome = propagate(self);
            proof {
                // propagation never unassigns, so the asserted units stay true
                assert forall|i: int|
                    0 <= i < self.units@.len() implies spec_literal_value(
                    self.assignment@,
                    #[trigger] self.units@[i],
                ) == AssignedValue::True by {
                    let l = pre.units@[i];
                    crate::assignment::lemma_true_literal_assigned(pre.assignment@, l);
                    assert(self.assignment@[l.var_index() as int] == pre.assignment@[l.var_index()
                        as int]);
                }
            }
            match outcome {
                Err(_) => {
                    // a conflict before any decision: unsatisfiable
                    self.is_unsat = true;
                },
                Ok(_) => {},
            }
        }
    }
}

/// Drains the propagation queue: walks the binary adjacency and the watch
/// list of each newly true literal, assigning forced literals, until the
/// queue is empty or a conflict — a clause with every literal false — is
/// found.
fn drain_queue(bcp: &mut BcpContext) -> (r: Result<(), Conflict>)
    requires
        old(bcp).wf(),
    ensures
        final(bcp).wf(),
        final(bcp).var_count() == old(bcp).var_count(),
        final(bcp).binary_clauses == old(bcp).binary_clauses,
        final(bcp).long_clauses@.len() == old(bcp).long_clauses@.len(),
        final(bcp).units == old(bcp).units,
        final(bcp).formula == old(bcp).formula,
        final(bcp).is_unsat == old(bcp).is_unsat,
        final(bcp).trail.boundaries == old(bcp).trail.boundaries,
        final(bcp).trail.entries@.len() >= old(bcp).trail.entries@.len(),
        final(bcp).progress() <= old(bcp).progress(),
        forall|v: int|
            0 <= v < old(bcp).var_count() && old(bcp).assignment@[v] != AssignedValue::Unknown
                ==> final(bcp).assignment@[v] == old(bcp).assignment@[v],
        r is Ok ==> final(bcp).trail.queue_head == final(bcp).trail.entries@.len(),
        r is Err ==> final(bcp).conflict_in_range(r->Err_0) && final(bcp).conflict_falsified(
            r->Err_0,
        ),
{
    while bcp.trail.queue_head < bcp.trail.entries.len()
        invariant
            bcp.wf(),
            bcp.var_count() == old(bcp).var_count(),
            bcp.binary_clauses == old(bcp).binary_clauses,
            bcp.long_clauses@.len() == old(bcp).long_clauses@.len(),
            bcp.units == old(bcp).units,
            bcp.formula == old(bcp).formula,
            bcp.is_unsat == old(bcp).is_unsat,
            bcp.trail.boundaries == old(bcp).trail.boundaries,
            bcp.trail.entries@.len() >= old(bcp).trail.entries@.len(),
            bcp.progress() <= old(bcp).progress(),
            forall|v: int|
                0 <= v < old(bcp).var_count() && old(bcp).assignment@[v] != AssignedValue::Unknown
                    ==> bcp.assignment@[v] == old(bcp).assignment@[v],
        decreases 2 * count_unknown(bcp.assignment@) + bcp.trail.entries@.len()
            - bcp.trail.queue_head,
    {
        let qh = bcp.trail.queue_head;
        let p = bcp.trail.entries[qh].literal;
        proof {
            assert(spec_literal_value(bcp.assignment@, p) == AssignedValue::True);
        }
        bcp.trail.queue_head = qh + 1;
        match propagate_binary(bcp, p) {
            Err(c) => {
                return Err(c);
            },
            Ok(_) => {},
        }
        match propagate_long(bcp, p) {
            Err(c) => {
                return Err(c);
            },
            Ok(_) => {},
        }
    }
    Ok(())
}

/// What a scan of the clause database found under the current assignment.
#[derive(Copy, Clone, Debug)]
enum DbScan {
    /// a clause with every literal false
    Falsified(Conflict),
    /// a clause forcing this literal, with the matching reason
    Unit(Literal, Reason),
    /// no clause is falsified and none is unit
    Fixpoint,
}

/// The ensures common to every scan: a found conflict is falsified, a found
/// unit literal is unassigned and its reason well-formed.
spec fn scan_found_ok(bcp: BcpContext, r: DbScan) -> bool {
    match r {
        DbScan::Falsified(conflict) => bcp.conflict_in_range(conflict) && bcp.conflict_falsified(
            conflict,
        ),
        DbScan::Unit(lit, reason) => lit.var_index() < bcp.var_count() && bcp.assignment@[
            lit.var_index() as int
        ] == AssignedValue::Unknown && spec_reason_in_range(
            reason,
            bcp.var_count(),
            bcp.long_clauses@.len() as int,
        ),
        DbScan::Fixpoint => true,
    }
}

/// Classifies every implicit binary clause: falsified, unit, or neither.
#[verifier::rlimit(60)]
fn scan_binary_clauses(bcp: &BcpContext) -> (r: DbScan)
    requires
        bcp.wf(),
    ensures
        scan_found_ok(*bcp, r),
        r is Fixpoint ==> forall|c: int, k: int|
            #![trigger bcp.binary_clauses@[c][k]]
            0 <= c < bcp.binary_clauses@.len() && 0 <= k < bcp.binary_clauses@[c].len() ==> {
                &&& !spec_clause_falsified(bcp.assignment@, bcp.spec_binary_pair(c, k))
                &&& !spec_clause_unit(bcp.assignment@, bcp.spec_binary_pair(c, k))
            },
{
    let n = bcp.binary_clauses.len();
    let mut c: usize = 0;
    while c < n
        invariant
            bcp.wf(),
            n == bcp.binary_clauses@.len(),
            c <= n,
            forall|c2: int, k: int|
                #![trigger bcp.binary_clauses@[c2][k]]
                0 <= c2 < c && 0 <= k < bcp.binary_clauses@[c2].len() ==> {
                    &&& !spec_clause_falsified(bcp.assignment@, bcp.spec_binary_pair(c2, k))
                    &&& !spec_clause_unit(bcp.assignment@, bcp.spec_binary_pair(c2, k))
                },
        decreases n - c,
    {
        let lit0 = Literal { code: c as u32 };
        proof {
            assert(lit0.var_index() < bcp.var_count());
        }
        let len = bcp.binary_clauses.list_len(c);
        let mut k: usize = 0;
        while k < len
            invariant
                bcp.wf(),
                n == bcp.binary_clauses@.len(),
                c < n,
                lit0 == (Literal { code: c as u32 }),
                lit0.var_index() < bcp.var_count(),
                len == bcp.binary_clauses@[c as int].len(),
                k <= len,
                forall|c2: int, k2: int|
                    #![trigger bcp.binary_clauses@[c2][k2]]
                    0 <= c2 < c && 0 <= k2 < bcp.binary_clauses@[c2].len() ==> {
                        &&& !spec_clause_falsified(bcp.assignment@, bcp.spec_binary_pair(c2, k2))
                        &&& !spec_clause_unit(bcp.assignment@, bcp.spec_binary_pair(c2, k2))
                    },
                forall|k2: int|
                    #![trigger bcp.binary_clauses@[c as int][k2]]
                    0 <= k2 < k ==> {
                        &&& !spec_clause_falsified(
                            bcp.assignment@,
                            bcp.spec_binary_pair(c as int, k2),
                        )
                        &&& !spec_clause_unit(bcp.assignment@, bcp.spec_binary_pair(c as int, k2))
                    },
            decreases len - k,
        {
            let q = bcp.binary_clauses.partner_at(c, k);
            let v0 = bcp.assignment.literal_value(lit0);
            let v1 = bcp.assignment.literal_value(q);
            let ghost pair = bcp.spec_binary_pair(c as int, k as int);
            proof {
                assert(pair.len() == 2 && pair[0] == lit0 && pair[1] == q);
            }
            if v0 == AssignedValue::False && v1 == AssignedValue::False {
                proof {
                    assert(spec_clause_falsified(bcp.assignment@, pair));
                }
                return DbScan::Falsified(Conflict::Binary(lit0, q));
            } else if v0 == AssignedValue::Unknown && v1 == AssignedValue::False {
                proof {
                    crate::assignment::lemma_unknown_literal_unassigned(bcp.assignment@, lit0);
                }
                return DbScan::Unit(lit0, Reason::Binary(q));
            } else if v1 == AssignedValue::Unknown && v0 == AssignedValue::False {
                proof {
                    crate::assignment::lemma_unknown_literal_unassigned(bcp.assignment@, q);
                }
                return DbScan::Unit(q, Reason::Binary(lit0));
            } else {
                // some literal is true, or both are unassigned
                proof {
                    assert(!spec_clause_falsified(bcp.assignment@, pair)) by {
                        if v0 != AssignedValue::False {
                            assert(spec_literal_value(bcp.assignment@, pair[0])
                                != AssignedValue::False);
                        } else {
                            assert(spec_literal_value(bcp.assignment@, pair[1])
                                != AssignedValue::False);
                        }
                    }
                    assert(!spec_clause_unit(bcp.assignment@, pair)) by {
                        if spec_clause_unit(bcp.assignment@, pair) {
                            let i = choose|i: int|
                                0 <= i < pair.len() && spec_literal_value(
                                    bcp.assignment@,
                                    #[trigger] pair[i],
                                ) == AssignedValue::Unknown && (forall|j: int|
                                    0 <= j < pair.len() && j != i ==> spec_literal_value(
                                        bcp.assignment@,
                                        #[trigger] pair[j],
                                    ) == AssignedValue::False);
                            if i == 0 {
                                assert(spec_literal_value(bcp.assignment@, pair[1])
                                    == AssignedValue::False);
                                assert(v0 == AssignedValue::Unknown && v1 == AssignedValue::False);
                            } else {
                                assert(i == 1);
                                assert(spec_literal_value(bcp.assignment@, pair[0])
                                    == AssignedValue::False);
                                assert(v1 == AssignedValue::Unknown && v0 == AssignedValue::False);
                            }
                            assert(false);
                        }
                    }
                }
                k += 1;
            }
        }
        c += 1;
    }
    DbScan::Fixpoint
}

/// Classifies every long clause: falsified, unit, or neither.
#[verifier::rlimit(60)]
fn scan_long_clauses(bcp: &BcpContext) -> (r: DbScan)
    requires
        bcp.wf(),
    ensures
        scan_found_ok(*bcp, r),
        r is Fixpoint ==> forall|ci: int|
            0 <= ci < bcp.long_clauses@.len() ==> {
                &&& !spec_clause_falsified(bcp.assignment@, #[trigger] bcp.long_clauses@[ci])
                &&& !spec_clause_unit(bcp.assignment@, bcp.long_clauses@[ci])
            },
{
    let n = bcp.long_clauses.len();
    let mut ci: usize = 0;
    while ci < n
        invariant
            bcp.wf(),
            n == bcp.long_clauses@.len(),
            ci <= n,
            forall|a: int|
                0 <= a < ci ==> {
                    &&& !spec_clause_falsified(bcp.assignment@, #[trigger] bcp.long_clauses@[a])
                    &&& !spec_clause_unit(bcp.assignment@, bcp.long_clauses@[a])
                },
        decreases n - ci,
    {
        let ghost clause = bcp.long_clauses@[ci as int];
        let len = bcp.long_clauses.clause_len(ci);
        let mut k: usize = 0;
        let mut satisfied = false;
        let mut true_at: usize = 0;
        let mut n_nonfalse: usize = 0;
        let mut first_nf: usize = 0;
        let mut last_nf: usize = 0;
        while k < len && !satisfied
            invariant
                bcp.wf(),
                ci < bcp.long_clauses@.len(),
                clause == bcp.long_clauses@[ci as int],
                len == clause.len(),
                k <= len,
                n_nonfalse <= k,
                satisfied ==> true_at < len && spec_literal_value(bcp.assignment@, clause[
                    true_at as int
                ]) == AssignedValue::True,
                !satisfied && n_nonfalse == 0 ==> forall|m: int|
                    0 <= m < k ==> spec_literal_value(bcp.assignment@, #[trigger] clause[m])
                        == AssignedValue::False,
                !satisfied && n_nonfalse == 1 ==> first_nf == last_nf && last_nf < k
                    && spec_literal_value(
                    bcp.assignment@,
                    clause[last_nf as int],
                ) == AssignedValue::Unknown && (forall|m: int|
                    0 <= m < k && m != last_nf ==> spec_literal_value(
                        bcp.assignment@,
                        #[trigger] clause[m],
                    ) == AssignedValue::False),
                !satisfied && n_nonfalse >= 2 ==> first_nf < last_nf && last_nf < k
                    && spec_literal_value(bcp.assignment@, clause[first_nf as int])
                    != AssignedValue::False && spec_literal_value(
                    bcp.assignment@,
                    clause[last_nf as int],
                ) != AssignedValue::False,
            decreases len - k, (if satisfied {
                0int
            } else {
                1int
            }),
        {
            let l = bcp.long_clauses.literal_at(ci, k);
            let v = bcp.assignment.literal_value(l);
            if v == AssignedValue::True {
                true_at = k;
                satisfied = true;
            } else {
                if v == AssignedValue::Unknown {
                    if n_nonfalse == 0 {
                        first_nf = k;
                    }
                    last_nf = k;
                    n_nonfalse += 1;
                }
                k += 1;
            }
        }
        if satisfied {
            // a true literal: the clause is neither falsified nor unit
            proof {
                assert(!spec_clause_falsified(bcp.assignment@, clause)) by {
                    assert(spec_literal_value(bcp.assignment@, clause[true_at as int])
                        != AssignedValue::False);
                }
                assert(!spec_clause_unit(bcp.assignment@, clause)) by {
                    if spec_clause_unit(bcp.assignment@, clause) {
                        let i = choose|i: int|
                            0 <= i < clause.len() && spec_literal_value(
                                bcp.assignment@,
                                #[trigger] clause[i],
                            ) == AssignedValue::Unknown && (forall|j: int|
                                0 <= j < clause.len() && j != i ==> spec_literal_value(
                                    bcp.assignment@,
                                    #[trigger] clause[j],
                                ) == AssignedValue::False);
                        if i == true_at {
                            assert(false);
                        } else {
                            assert(spec_literal_value(bcp.assignment@, clause[true_at as int])
                                == AssignedValue::False);
                            assert(false);
                        }
                    }
                }
            }
        } else if n_nonfalse == 0 {
            // every literal is false
            return DbScan::Falsified(Conflict::Long(ci));
        } else if n_nonfalse == 1 {
            // exactly one unassigned literal, the rest false: unit
            let lit = bcp.long_clauses.literal_at(ci, last_nf);
            proof {
                crate::assignment::lemma_unknown_literal_unassigned(bcp.assignment@, lit);
            }
            return DbScan::Unit(lit, Reason::Long(ci));
        } else {
            // two literals are not false: neither falsified nor unit
            proof {
                assert(!spec_clause_falsified(bcp.assignment@, clause)) by {
                    assert(spec_literal_value(bcp.assignment@, clause[first_nf as int])
                        != AssignedValue::False);
                }
                assert(!spec_clause_unit(bcp.assignment@, clause)) by {
                    if spec_clause_unit(bcp.assignment@, clause) {
                        let i = choose|i: int|
                            0 <= i < clause.len() && spec_literal_value(
                                bcp.assignment@,
                                #[trigger] clause[i],
                            ) == AssignedValue::Unknown && (forall|j: int|
                                0 <= j < clause.len() && j != i ==> spec_literal_value(
                                    bcp.assignment@,
                                    #[trigger] clause[j],
                                ) == AssignedValue::False);
                        if i != first_nf {
                            assert(spec_literal_value(bcp.assignment@, clause[first_nf as int])
                                == AssignedValue::False);
                        } else {
                            assert(spec_literal_value(bcp.assignment@, clause[last_nf as int])
                                == AssignedValue::False);
                        }
                        assert(false);
                    }
                }
            }
        }
        ci += 1;
    }
    DbScan::Fixpoint
}

/// Scans the whole working database under the current assignment.
fn scan_database(bcp: &BcpContext) -> (r: DbScan)
    requires
        bcp.wf(),
    ensures
        scan_found_ok(*bcp, r),
        r is Fixpoint ==> bcp.db_at_fixpoint(),
{
    let from_binary = scan_binary_clauses(bcp);
    match from_binary {
        DbScan::Fixpoint => {
            let from_long = scan_long_clauses(bcp);
            match from_long {
                DbScan::Fixpoint => {
                    proof {
                        assert(bcp.db_at_fixpoint());
                    }
                    DbScan::Fixpoint
                },
                other => other,
            }
        },
        other => other,
    }
}

/// Propagates unit consequences to fixpoint: drains the propagation queue,
/// walking binary adjacencies and watch lists of each newly true literal,
/// then certifies the result against the whole database, assigning any
/// missed unit and going round again. Returns the first conflict found — a
/// clause with every literal false — or `Ok` at a true fixpoint: no clause
/// of the database falsified, none unit.
pub fn propagate(bcp: &mut BcpContext) -> (r: Result<(), Conflict>)
    requires
        old(bcp).wf(),
    ensures
        final(bcp).wf(),
        final(bcp).var_count() == old(bcp).var_count(),
        final(bcp).binary_clauses == old(bcp).binary_clauses,
        final(bcp).long_clauses@.len() == old(bcp).long_clauses@.len(),
        final(bcp).units == old(bcp).units,
        final(bcp).formula == old(bcp).formula,
        final(bcp).is_unsat == old(bcp).is_unsat,
        final(bcp).trail.boundaries == old(bcp).trail.boundaries,
        final(bcp).trail.entries@.len() >= old(bcp).trail.entries@.len(),
        forall|v: int|
            0 <= v < old(bcp).var_count() && old(bcp).assignment@[v] != AssignedValue::Unknown
                ==> final(bcp).assignment@[v] == old(bcp).assignment@[v],
        r is Ok ==> final(bcp).trail.queue_head == final(bcp).trail.entries@.len(),
        r is Ok ==> final(bcp).db_at_fixpoint(),
        r is Err ==> final(bcp).conflict_in_range(r->Err_0) && final(bcp).conflict_falsified(
            r->Err_0,
        ),
{
    let mut outcome: Result<(), Conflict> = Ok(());
    let mut done = false;
    while !done
        invariant
            bcp.wf(),
            bcp.var_count() == old(bcp).var_count(),
            bcp.binary_clauses == old(bcp).binary_clauses,
            bcp.long_clauses@.len() == old(bcp).long_clauses@.len(),
            bcp.units == old(bcp).units,
            bcp.formula == old(bcp).formula,
            bcp.is_unsat == old(bcp).is_unsat,
            bcp.trail.boundaries == old(bcp).trail.boundaries,
            bcp.trail.entries@.len() >= old(bcp).trail.entries@.len(),
            forall|v: int|
                0 <= v < old(bcp).var_count() && old(bcp).assignment@[v] != AssignedValue::Unknown
                    ==> bcp.assignment@[v] == old(bcp).assignment@[v],
            !done ==> outcome is Ok,
            done ==> match outcome {
                Ok(_) => bcp.trail.queue_head == bcp.trail.entries@.len() && bcp.db_at_fixpoint(),
                Err(conflict) => bcp.conflict_in_range(conflict) && bcp.conflict_falsified(
                    conflict,
                ),
            },
        decreases count_unknown(bcp.assignment@), (if done {
            0int
        } else {
            1int
        }),
    {
        let ghost pre = *bcp;
        let drained = drain_queue(bcp);
        proof {
            // the drain only assigns, so the count of unknowns cannot rise
            assert(count_unknown(bcp.assignment@) <= count_unknown(pre.assignment@));
        }
        match drained {
            Err(conflict) => {
                outcome = Err(conflict);
                done = true;
            },
            Ok(_) => {
                match scan_database(bcp) {
                    DbScan::Falsified(conflict) => {
                        outcome = Err(conflict);
                        done = true;
                    },
                    DbScan::Unit(lit, reason) => {
                        // the watch lists missed a unit clause: assign its
                        // literal and propagate again
                        crate::trail::assign(bcp, lit, reason);
                    },
                    DbScan::Fixpoint => {
                        done = true;
                    },
                }
            },
        }
    }
    outcome
}

} // verus!
