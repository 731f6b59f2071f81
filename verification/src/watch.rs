//! Two-literal watch lists over long clauses.
//!
//! For every literal, keeps a list of clauses watched by this literal.
//! The watched literals of a clause are always its first two, at positions
//! 0 and 1. A clause is registered under the *negation* of each watched
//! literal: the clause becomes interesting precisely when a watched literal
//! becomes false, that is, when its negation becomes true — which is the
//! propagation trigger.

use vstd::prelude::*;

use crate::clause_db::{ClauseIndex, LongClauses};
use crate::literal::Literal;

verus! {

/// One entry of a watch list.
#[derive(Debug, Copy, Clone, PartialEq, Eq, Structural)]
pub struct LiteralWatch {
    /// index of the clause being watched
    pub clause_index: ClauseIndex,
}

/// Watch lists, indexed by the code of the literal that triggers them.
#[derive(Debug)]
pub struct Watchlists {
    watches: Vec<Vec<LiteralWatch>>,
}

impl View for Watchlists {
    type V = Seq<Seq<LiteralWatch>>;

    closed spec fn view(&self) -> Seq<Seq<LiteralWatch>> {
        Seq::new(self.watches@.len(), |i: int| self.watches@[i]@)
    }
}

/// Every watch entry points into the clause store.
pub open spec fn spec_watches_in_range(w: Seq<Seq<LiteralWatch>>, n_clauses: int) -> bool {
    forall|i: int, k: int|
        0 <= i < w.len() && 0 <= k < w[i].len() ==> (#[trigger] w[i][k]).clause_index < n_clauses
}

/// Clause `ci` has a watch entry in the list keyed `key`.
pub open spec fn spec_registered(w: Seq<Seq<LiteralWatch>>, key: int, ci: int) -> bool {
    exists|k: int| 0 <= k < w[key].len() && (#[trigger] w[key][k]).clause_index == ci
}

impl Default for Watchlists {
    fn default() -> (r: Watchlists)
        ensures
            r@.len() == 0,
    {
        Watchlists { watches: Vec::new() }
    }
}

impl Watchlists {
    pub fn len(&self) -> (r: usize)
        ensures
            r == self@.len(),
    {
        self.watches.len()
    }

    /// Appends empty lists until there is one per literal code below `n`.
    pub fn grow_to(&mut self, n: usize)
        ensures
            final(self)@.len() == if old(self)@.len() >= n {
                old(self)@.len() as int
            } else {
                n as int
            },
            forall|i: int| 0 <= i < old(self)@.len() ==> final(self)@[i] == old(self)@[i],
            forall|i: int| old(self)@.len() <= i < final(self)@.len() ==> final(self)@[i].len() == 0,
    {
        while self.watches.len() < n
            invariant
                old(self)@.len() <= self@.len(),
                self@.len() <= n || self@.len() == old(self)@.len(),
                forall|i: int| 0 <= i < old(self)@.len() ==> self@[i] == old(self)@[i],
                forall|i: int| old(self)@.len() <= i < self@.len() ==> self@[i].len() == 0,
            decreases n - self@.len(),
        {
            let ghost prev = self@;
            self.watches.push(Vec::new());
            proof {
                assert(self@.len() == prev.len() + 1);
                assert forall|i: int|
                    old(self)@.len() <= i < self@.len() implies self@[i].len() == 0 by {
                    if i < prev.len() {
                        assert(self@[i] == prev[i]);
                        assert(prev[i].len() == 0);
                    } else {
                        assert(i == prev.len());
                        assert(self@[i].len() == 0);
                    }
                }
            }
        }
    }

    /// Registers `clause_index` under the negation of the watched literal
    /// `watched`: the entry triggers when `watched` becomes false.
    pub fn add_watch(&mut self, watched: Literal, clause_index: ClauseIndex)
        requires
            watched.spec_negate().spec_code() < old(self)@.len(),
        ensures
            ({
                let k = watched.spec_negate().spec_code() as int;
                final(self)@ == old(self)@.update(
                    k,
                    old(self)@[k].push((LiteralWatch { clause_index })),
                )
            }),
    {
        let k = watched.negate().index() as usize;
        self.watches[k].push(LiteralWatch { clause_index });
        proof {
            assert(final(self)@ =~= old(self)@.update(
                k as int,
                old(self)@[k as int].push((LiteralWatch { clause_index })),
            ));
        }
    }

    /// Watch a clause with two instances of [`LiteralWatch`], one for each
    /// of its two watched literals; the entries are keyed by the negation
    /// of each watched literal.
    pub fn watch_clause(&mut self, clause_index: ClauseIndex, lits: [Literal; 2])
        requires
            lits[0].spec_negate().spec_code() < old(self)@.len(),
            lits[1].spec_negate().spec_code() < old(self)@.len(),
        ensures
            ({
                let k0 = lits[0].spec_negate().spec_code() as int;
                let k1 = lits[1].spec_negate().spec_code() as int;
                let w = (LiteralWatch { clause_index });
                let mid = old(self)@.update(k0, old(self)@[k0].push(w));
                final(self)@ == mid.update(k1, mid[k1].push(w))
            }),
    {
        self.add_watch(lits[0], clause_index);
        self.add_watch(lits[1], clause_index);
    }

    /// Take ownership of a literal's watch list, leaving an empty one in
    /// its place; the caller is expected to place a list back when done.
    pub fn take_watchlist(&mut self, lit: Literal) -> (r: Vec<LiteralWatch>)
        requires
            lit.spec_code() < old(self)@.len(),
        ensures
            r@ == old(self)@[lit.spec_code() as int],
            final(self)@ == old(self)@.update(lit.spec_code() as int, Seq::<LiteralWatch>::empty()),
    {
        let mut taken: Vec<LiteralWatch> = Vec::new();
        core::mem::swap(&mut taken, &mut self.watches[lit.index() as usize]);
        proof {
            assert(final(self)@ =~= old(self)@.update(
                lit.spec_code() as int,
                Seq::<LiteralWatch>::empty(),
            ));
        }
        taken
    }

    /// Put a literal's watch list back in place.
    pub fn place_watchlist(&mut self, lit: Literal, watchlist: Vec<LiteralWatch>)
        requires
            lit.spec_code() < old(self)@.len(),
        ensures
            final(self)@ == old(self)@.update(lit.spec_code() as int, watchlist@),
    {
        let mut placed = watchlist;
        core::mem::swap(&mut placed, &mut self.watches[lit.index() as usize]);
        proof {
            assert(final(self)@ =~= old(self)@.update(lit.spec_code() as int, watchlist@));
        }
    }
}

/// Registers every stored long clause under the negations of its first two
/// literals.
pub(crate) fn build_watchlists(watch: &mut Watchlists, long_clauses: &LongClauses)
    requires
        forall|ci: int| 0 <= ci < long_clauses@.len() ==> (#[trigger] long_clauses@[ci]).len() >= 3,
        forall|ci: int, k: int|
            0 <= ci < long_clauses@.len() && 0 <= k < long_clauses@[ci].len() ==> 2 * (
            #[trigger] long_clauses@[ci][k]).var_index() + 1 < old(watch)@.len(),
    ensures
        final(watch)@.len() == old(watch)@.len(),
        spec_watches_in_range(old(watch)@, long_clauses@.len() as int) ==> spec_watches_in_range(
            final(watch)@,
            long_clauses@.len() as int,
        ),
        // existing entries survive in place
        forall|c: int|
            0 <= c < old(watch)@.len() ==> (#[trigger] final(watch)@[c]).len() >= old(watch)@[
                c
            ].len(),
        forall|c: int, k: int|
            #![trigger final(watch)@[c][k]]
            0 <= c < final(watch)@.len() && 0 <= k < old(watch)@[c].len() ==> final(watch)@[c][k]
                == old(watch)@[c][k],
        // every new entry registers a stored clause under the negation of
        // one of its first two (watched) literals — nothing else is created
        forall|c: int, k: int|
            #![trigger final(watch)@[c][k]]
            0 <= c < final(watch)@.len() && old(watch)@[c].len() <= k < final(watch)@[c].len()
                ==> ({
                let ci = final(watch)@[c][k].clause_index as int;
                &&& 0 <= ci < long_clauses@.len()
                &&& (c == long_clauses@[ci][0].spec_negate().spec_code() || c == long_clauses@[
                    ci
                ][1].spec_negate().spec_code())
            }),
        // and every stored clause is registered under the negation of each
        // of its two watched literals
        forall|ci: int|
            0 <= ci < long_clauses@.len() ==> spec_registered(
                final(watch)@,
                (#[trigger] long_clauses@[ci])[0].spec_negate().spec_code() as int,
                ci,
            ) && spec_registered(
                final(watch)@,
                long_clauses@[ci][1].spec_negate().spec_code() as int,
                ci,
            ),
{
    let n = long_clauses.len();
    let mut index: usize = 0;
    while index < n
        invariant
            n == long_clauses@.len(),
            watch@.len() == old(watch)@.len(),
            forall|ci: int|
                0 <= ci < long_clauses@.len() ==> (#[trigger] long_clauses@[ci]).len() >= 3,
            forall|ci: int, k: int|
                0 <= ci < long_clauses@.len() && 0 <= k < long_clauses@[ci].len() ==> 2 * (
                #[trigger] long_clauses@[ci][k]).var_index() + 1 < watch@.len(),
            spec_watches_in_range(old(watch)@, long_clauses@.len() as int)
                ==> spec_watches_in_range(watch@, long_clauses@.len() as int),
            forall|c: int|
                0 <= c < old(watch)@.len() ==> (#[trigger] watch@[c]).len() >= old(watch)@[
                    c
                ].len(),
            forall|c: int, k: int|
                #![trigger watch@[c][k]]
                0 <= c < watch@.len() && 0 <= k < old(watch)@[c].len() ==> watch@[c][k] == old(
                    watch,
                )@[c][k],
            forall|c: int, k: int|
                #![trigger watch@[c][k]]
                0 <= c < watch@.len() && old(watch)@[c].len() <= k < watch@[c].len() ==> ({
                    let ci = watch@[c][k].clause_index as int;
                    &&& 0 <= ci < long_clauses@.len()
                    &&& (c == long_clauses@[ci][0].spec_negate().spec_code() || c == long_clauses@[
                        ci
                    ][1].spec_negate().spec_code())
                }),
            forall|ci: int|
                0 <= ci < index ==> spec_registered(
                    watch@,
                    (#[trigger] long_clauses@[ci])[0].spec_negate().spec_code() as int,
                    ci,
                ) && spec_registered(
                    watch@,
                    long_clauses@[ci][1].spec_negate().spec_code() as int,
                    ci,
                ),
        decreases n - index,
    {
        let clause = &long_clauses.clauses[index];
        proof {
            assert(clause@ == long_clauses@[index as int]);
        }
        let literals = clause.literals();
        let ghost before = watch@;
        watch.watch_clause(index, [literals[0], literals[1]]);
        proof {
            let k0 = long_clauses@[index as int][0].spec_negate().spec_code() as int;
            let k1 = long_clauses@[index as int][1].spec_negate().spec_code() as int;
            let w = (LiteralWatch { clause_index: index });
            // the clause just processed got its two registrations
            assert(watch@[k1][watch@[k1].len() - 1] == w);
            if k0 == k1 {
                assert(watch@[k0][watch@[k0].len() - 2] == w);
            } else {
                assert(watch@[k0] == before[k0].push(w));
                assert(watch@[k0][watch@[k0].len() - 1] == w);
            }
            // earlier entries survive the two pushes in place
            assert forall|c: int, k: int|
                #![trigger watch@[c][k]]
                0 <= c < watch@.len() && 0 <= k < before[c].len() implies watch@[c][k] == before[
                c][k] by {
                if c != k0 && c != k1 {
                    assert(watch@[c] == before[c]);
                }
            }
            // every fresh entry registers its clause under a negation key
            assert forall|c: int, k: int|
                #![trigger watch@[c][k]]
                0 <= c < watch@.len() && old(watch)@[c].len() <= k < watch@[c].len() implies ({
                let ci = watch@[c][k].clause_index as int;
                &&& 0 <= ci < long_clauses@.len()
                &&& (c == long_clauses@[ci][0].spec_negate().spec_code() || c == long_clauses@[
                    ci
                ][1].spec_negate().spec_code())
            }) by {
                if c == k0 || c == k1 {
                    if k < before[c].len() {
                        assert(watch@[c][k] == before[c][k]);
                    } else {
                        assert(watch@[c][k] == w);
                    }
                } else {
                    assert(watch@[c] == before[c]);
                }
            }
            // both registrations of the processed clause are in place, and
            // every earlier clause keeps its registrations
            assert forall|ci: int| 0 <= ci < index + 1 implies spec_registered(
                watch@,
                (#[trigger] long_clauses@[ci])[0].spec_negate().spec_code() as int,
                ci,
            ) && spec_registered(
                watch@,
                long_clauses@[ci][1].spec_negate().spec_code() as int,
                ci,
            ) by {
                let c0 = long_clauses@[ci][0].spec_negate().spec_code() as int;
                let c1 = long_clauses@[ci][1].spec_negate().spec_code() as int;
                if ci < index {
                    let e0 = choose|k: int|
                        0 <= k < before[c0].len() && (#[trigger] before[c0][k]).clause_index == ci;
                    let e1 = choose|k: int|
                        0 <= k < before[c1].len() && (#[trigger] before[c1][k]).clause_index == ci;
                    assert(watch@[c0][e0] == before[c0][e0]);
                    assert(watch@[c1][e1] == before[c1][e1]);
                    assert(watch@[c0].len() >= before[c0].len());
                    assert(watch@[c1].len() >= before[c1].len());
                    assert(spec_registered(watch@, c0, ci));
                    assert(spec_registered(watch@, c1, ci));
                } else {
                    if k0 == k1 {
                        assert(watch@[k0][watch@[k0].len() - 2].clause_index == ci);
                        assert(watch@[k1][watch@[k1].len() - 1].clause_index == ci);
                    } else {
                        assert(watch@[k0][watch@[k0].len() - 1].clause_index == ci);
                        assert(watch@[k1][watch@[k1].len() - 1].clause_index == ci);
                    }
                    assert(spec_registered(watch@, c0, ci));
                    assert(spec_registered(watch@, c1, ci));
                }
            }
        }
        index += 1;
    }
}

} // verus!
