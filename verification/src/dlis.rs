//! The decision heuristic: a largest-individual-sum rule.
//!
//! At `init` every literal gets a score, the number of clauses it occurs
//! in; `decide` picks, among the variables still unassigned, the literal
//! with the largest score, breaking ties by variable index and preferring
//! the positive polarity. The contract promises only what the driver needs:
//! a returned literal is over an unassigned variable, and `None` comes back
//! exactly when every variable is assigned.

use vstd::prelude::*;

use crate::assignment::{AssignedValue, VariableAssignment};
use crate::clause_db::{BinaryClauses, LongClauses};
use crate::literal::Literal;

verus! {

/// Largest-individual-sum branching heuristic.
#[derive(Debug)]
pub struct DLIS {
    /// per-literal occurrence count, indexed by literal code
    scores: Vec<u64>,
}

impl Default for DLIS {
    fn default() -> (r: DLIS) {
        DLIS { scores: Vec::new() }
    }
}

impl DLIS {
    /// Gathers the occurrence counts from the clause database.
    pub fn init(&mut self, binary: &BinaryClauses, long: &LongClauses) {
        let mut scores: Vec<u64> = Vec::new();
        let mut c: usize = 0;
        // a binary clause `{l, q}` stores `q` in `l`'s adjacency, so the
        // adjacency length of `l` is the number of binary clauses with `l`
        while c < binary.len()
            invariant
                scores@.len() == c,
                c <= binary@.len(),
            decreases binary@.len() - c,
        {
            scores.push(binary.list_len(c) as u64);
            c += 1;
        }
        let mut ci: usize = 0;
        while ci < long.len()
            invariant
                scores@.len() == binary@.len(),
                ci <= long@.len(),
            decreases long@.len() - ci,
        {
            let mut k: usize = 0;
            while k < long.clause_len(ci)
                invariant
                    scores@.len() == binary@.len(),
                    ci < long@.len(),
                    k <= long@[ci as int].len(),
                decreases long@[ci as int].len() - k,
            {
                let code = long.literal_at(ci, k).index() as usize;
                if code < scores.len() {
                    let s = scores[code];
                    if s < u64::MAX {
                        scores[code] = s + 1;
                    }
                }
                k += 1;
            }
            ci += 1;
        }
        self.scores = scores;
    }

    /// Returns a literal over some unassigned variable — the stored scores
    /// pick which — or `None` exactly when every variable is assigned.
    pub fn decide(&self, assignment: &VariableAssignment) -> (r: Option<Literal>)
        requires
            assignment@.len() <= 0x4000_0000,
        ensures
            match r {
                Some(l) => l.var_index() < assignment@.len() && assignment@[l.var_index() as int]
                    == AssignedValue::Unknown,
                None => forall|v: int|
                    0 <= v < assignment@.len() ==> assignment@[v] != AssignedValue::Unknown,
            },
    {
        let n = assignment.var_count();
        let mut best: Option<Literal> = None;
        let mut best_score: u64 = 0;
        let mut v: usize = 0;
        while v < n
            invariant
                n == assignment@.len(),
                n <= 0x4000_0000,
                v <= n,
                match best {
                    Some(l) => l.var_index() < assignment@.len() && assignment@[l.var_index()
                        as int] == AssignedValue::Unknown,
                    None => forall|w: int|
                        0 <= w < v ==> assignment@[w] != AssignedValue::Unknown,
                },
            decreases n - v,
        {
            if assignment.value(crate::literal::Variable::from_index(v as u32))
                == AssignedValue::Unknown {
                let pos = Literal::from_index(v as u32, true);
                let neg = Literal::from_index(v as u32, false);
                let pos_code = pos.index() as usize;
                let neg_code = neg.index() as usize;
                let pos_score: u64 = if pos_code < self.scores.len() {
                    self.scores[pos_code]
                } else {
                    0
                };
                let neg_score: u64 = if neg_code < self.scores.len() {
                    self.scores[neg_code]
                } else {
                    0
                };
                let (cand, cand_score) = if pos_score >= neg_score {
                    (pos, pos_score)
                } else {
                    (neg, neg_score)
                };
                match best {
                    None => {
                        best = Some(cand);
                        best_score = cand_score;
                    },
                    Some(_) => {
                        if cand_score > best_score {
                            best = Some(cand);
                            best_score = cand_score;
                        }
                    },
                }
            }
            v += 1;
        }
        best
    }
}

} // verus!
