//! A CDCL (conflict-driven clause learning) SAT solver core.
//!
//! Given a propositional formula in conjunctive normal form, the solver
//! decides satisfiability and, when satisfiable, produces an assignment.
//! When `solve` answers SAT, that answer is verified: the final assignment
//! is proved to satisfy every clause that was added to the solver.

pub mod literal;
pub mod assignment;
pub mod clause_db;
pub mod watch;
pub mod trail;
pub mod bcp;
pub mod dlis;
pub mod analyze;
pub mod cnf;
pub mod dimacs;
pub mod search;
pub mod solver;
