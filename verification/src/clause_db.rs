//! Clause storage.
//!
//! Binary clauses are inlined in per-literal adjacency lists: for a clause
//! `{a, b}`, the list of `a` holds `b` and the list of `b` holds `a`, so
//! propagation on either endpoint yields the partner directly. Clauses of
//! three or more literals live on the heap, addressed by a stable
//! `ClauseIndex`; their first two positions are the watched positions.

use vstd::prelude::*;

use crate::assignment::{spec_literal_value, AssignedValue};
use crate::literal::Literal;

verus! {

/// A stable handle to a long clause.
pub type ClauseIndex = usize;

/// A clause is satisfied when some literal of it is true.
pub open spec fn spec_clause_satisfied(a: Seq<AssignedValue>, c: Seq<Literal>) -> bool {
    exists|i: int| 0 <= i < c.len() && spec_literal_value(a, #[trigger] c[i]) == AssignedValue::True
}

/// A clause is falsified (conflicting) when every literal of it is false.
pub open spec fn spec_clause_falsified(a: Seq<AssignedValue>, c: Seq<Literal>) -> bool {
    forall|i: int|
        0 <= i < c.len() ==> spec_literal_value(a, #[trigger] c[i]) == AssignedValue::False
}

/// A clause is unit when exactly one of its literals is unassigned and
/// every other literal is false: the clause forces that literal.
pub open spec fn spec_clause_unit(a: Seq<AssignedValue>, c: Seq<Literal>) -> bool {
    exists|i: int|
        0 <= i < c.len() && spec_literal_value(a, #[trigger] c[i]) == AssignedValue::Unknown && (
        forall|j: int|
            0 <= j < c.len() && j != i ==> spec_literal_value(a, #[trigger] c[j])
                == AssignedValue::False)
}

/// A tautological clause holds both polarities of some variable and is
/// satisfied by every total assignment.
pub open spec fn spec_clause_tautology(c: Seq<Literal>) -> bool {
    exists|i: int, j: int|
        #![trigger c[i], c[j]]
        0 <= i < c.len() && 0 <= j < c.len() && c[j] == c[i].spec_negate()
}

/// The second adjacency table extends the first: old lists unchanged, any
/// new list empty (how growing the variable range leaves binary clauses).
pub open spec fn spec_adjacency_extended(pre: Seq<Seq<Literal>>, post: Seq<Seq<Literal>>) -> bool {
    &&& post.len() >= pre.len()
    &&& forall|c: int| 0 <= c < pre.len() ==> post[c] == pre[c]
    &&& forall|c: int| pre.len() <= c < post.len() ==> post[c].len() == 0
}

/// No literal occurs twice.
pub open spec fn spec_distinct_literals(c: Seq<Literal>) -> bool {
    forall|i: int, j: int| 0 <= i < j < c.len() ==> c[i] != c[j]
}

/// An ordered sequence of literals.
#[derive(Debug)]
pub struct Clause {
    pub literals: Vec<Literal>,
}

impl View for Clause {
    type V = Seq<Literal>;

    open spec fn view(&self) -> Seq<Literal> {
        self.literals@
    }
}

impl Clause {
    pub fn literals(&self) -> (r: &Vec<Literal>)
        ensures
            r@ == self@,
    {
        &self.literals
    }

    pub fn len(&self) -> (r: usize)
        ensures
            r == self@.len(),
    {
        self.literals.len()
    }
}

/// The heap-resident store for clauses of length three or more.
#[derive(Debug)]
pub struct LongClauses {
    pub clauses: Vec<Clause>,
}

impl View for LongClauses {
    type V = Seq<Seq<Literal>>;

    open spec fn view(&self) -> Seq<Seq<Literal>> {
        Seq::new(self.clauses@.len(), |i: int| self.clauses@[i]@)
    }
}

impl Default for LongClauses {
    fn default() -> (r: LongClauses)
        ensures
            r@.len() == 0,
    {
        LongClauses { clauses: Vec::new() }
    }
}

impl LongClauses {
    pub fn len(&self) -> (r: usize)
        ensures
            r == self@.len(),
    {
        self.clauses.len()
    }

    pub fn clause_len(&self, ci: ClauseIndex) -> (r: usize)
        requires
            ci < self@.len(),
        ensures
            r == self@[ci as int].len(),
    {
        self.clauses[ci].literals.len()
    }

    pub fn literal_at(&self, ci: ClauseIndex, k: usize) -> (r: Literal)
        requires
            ci < self@.len(),
            k < self@[ci as int].len(),
        ensures
            r == self@[ci as int][k as int],
    {
        self.clauses[ci].literals[k]
    }

    /// Swaps two literal positions of a stored clause (used to move a fresh
    /// watch into a watched position).
    pub fn swap_literals(&mut self, ci: ClauseIndex, a: usize, b: usize)
        requires
            ci < old(self)@.len(),
            a < old(self)@[ci as int].len(),
            b < old(self)@[ci as int].len(),
        ensures
            final(self)@.len() == old(self)@.len(),
            final(self)@[ci as int] == old(self)@[ci as int].update(
                a as int,
                old(self)@[ci as int][b as int],
            ).update(b as int, old(self)@[ci as int][a as int]),
            forall|i: int| 0 <= i < old(self)@.len() && i != ci ==> final(self)@[i] == old(self)@[i],
    {
        let la = self.clauses[ci].literals[a];
        let lb = self.clauses[ci].literals[b];
        self.clauses[ci].literals[a] = lb;
        self.clauses[ci].literals[b] = la;
        proof {
            assert(final(self)@[ci as int] =~= old(self)@[ci as int].update(
                a as int,
                old(self)@[ci as int][b as int],
            ).update(b as int, old(self)@[ci as int][a as int]));
            assert forall|i: int|
                0 <= i < old(self)@.len() && i != ci implies final(self)@[i] == old(self)@[i] by {
                assert(final(self).clauses@[i] == old(self).clauses@[i]);
            }
        }
    }

    /// Appends a clause, returning its stable index.
    pub fn push_clause(&mut self, c: Clause) -> (r: ClauseIndex)
        ensures
            r == old(self)@.len(),
            final(self)@.len() == old(self)@.len() + 1,
            final(self)@[r as int] == c@,
            forall|i: int| 0 <= i < old(self)@.len() ==> final(self)@[i] == old(self)@[i],
    {
        let r = self.clauses.len();
        self.clauses.push(c);
        r
    }
}

/// Per-literal adjacency lists for binary clauses, indexed by literal code:
/// `lists[l.index()]` holds every partner `q` of a binary clause `{l, q}`.
#[derive(Debug)]
pub struct BinaryClauses {
    pub lists: Vec<Vec<Literal>>,
}

impl View for BinaryClauses {
    type V = Seq<Seq<Literal>>;

    open spec fn view(&self) -> Seq<Seq<Literal>> {
        Seq::new(self.lists@.len(), |i: int| self.lists@[i]@)
    }
}

impl Default for BinaryClauses {
    fn default() -> (r: BinaryClauses)
        ensures
            r@.len() == 0,
    {
        BinaryClauses { lists: Vec::new() }
    }
}

impl BinaryClauses {
    pub fn len(&self) -> (r: usize)
        ensures
            r == self@.len(),
    {
        self.lists.len()
    }

    /// Appends empty adjacency lists until there is one per literal code
    /// below `n`.
    pub fn grow_to(&mut self, n: usize)
        ensures
            final(self)@.len() == if old(self)@.len() >= n {
                old(self)@.len() as int
            } else {
                n as int
            },
            forall|i: int| 0 <= i < old(self)@.len() ==> final(self)@[i] == old(self)@[i],
            forall|i: int| old(self)@.len() <= i < final(self)@.len() ==> final(self)@[i].len() == 0,
    {
        while self.lists.len() < n
            invariant
                old(self)@.len() <= self@.len(),
                self@.len() <= n || self@.len() == old(self)@.len(),
                forall|i: int| 0 <= i < old(self)@.len() ==> self@[i] == old(self)@[i],
                forall|i: int| old(self)@.len() <= i < self@.len() ==> self@[i].len() == 0,
            decreases n - self@.len(),
        {
            let ghost prev = self@;
            self.lists.push(Vec::new());
            proof {
                assert(self@.len() == prev.len() + 1);
                assert forall|i: int|
                    old(self)@.len() <= i < self@.len() implies self@[i].len() == 0 by {
                    if i < prev.len() {
                        assert(self@[i] == prev[i]);
                        assert(prev[i].len() == 0);
                    } else {
                        assert(i == prev.len());
                        assert(self@[i].len() == 0);
                    }
                }
            }
        }
    }

    /// Records the binary clause `{a, b}`: each endpoint learns the other
    /// as a partner.
    pub fn add_binary(&mut self, a: Literal, b: Literal)
        requires
            a.spec_code() < old(self)@.len(),
            b.spec_code() < old(self)@.len(),
        ensures
            ({
                let ka = a.spec_code() as int;
                let kb = b.spec_code() as int;
                let mid = old(self)@.update(ka, old(self)@[ka].push(b));
                final(self)@ == mid.update(kb, mid[kb].push(a))
            }),
    {
        self.lists[a.index() as usize].push(b);
        proof {
            assert(self@ =~= old(self)@.update(
                a.spec_code() as int,
                old(self)@[a.spec_code() as int].push(b),
            ));
        }
        let ghost mid = self@;
        self.lists[b.index() as usize].push(a);
        proof {
            assert(final(self)@ =~= mid.update(
                b.spec_code() as int,
                mid[b.spec_code() as int].push(a),
            ));
        }
    }

    pub fn list_len(&self, code: usize) -> (r: usize)
        requires
            code < self@.len(),
        ensures
            r == self@[code as int].len(),
    {
        self.lists[code].len()
    }

    pub fn partner_at(&self, code: usize, k: usize) -> (r: Literal)
        requires
            code < self@.len(),
            k < self@[code as int].len(),
        ensures
            r == self@[code as int][k as int],
    {
        self.lists[code][k]
    }
}

} // verus!
