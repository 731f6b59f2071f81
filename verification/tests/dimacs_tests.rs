use satori::dimacs::{emit_dimacs, parse_dimacs};
use satori::solver::Solver;

#[test]
fn test_parse_simple_formula() {
    let text = b"c a comment line\np cnf 3 2\n1 -2 3 0\n-1 2 0\n";
    let clauses = parse_dimacs(text).unwrap();
    assert_eq!(clauses, vec![vec![1, -2, 3], vec![-1, 2]]);
}

#[test]
fn test_parse_whitespace_and_multiline_clauses() {
    let text = b"p cnf 2 2\n1\t2 0  -1\n-2 0\n";
    let clauses = parse_dimacs(text).unwrap();
    assert_eq!(clauses, vec![vec![1, 2], vec![-1, -2]]);
}

#[test]
fn test_parse_rejects_malformed_input() {
    // an unterminated clause
    assert!(parse_dimacs(b"p cnf 1 1\n1 -1\n").is_none());
    // a stray token
    assert!(parse_dimacs(b"1 x 0\n").is_none());
    // a negative zero
    assert!(parse_dimacs(b"1 -0\n").is_none());
    // a magnitude beyond the solver's range
    assert!(parse_dimacs(b"1073741825 0\n").is_none());
}

#[test]
fn test_round_trip_parse_solve_emit() {
    // parsing a formula, solving, and re-emitting the input yields the
    // same clauses
    let text = b"c example\np cnf 4 5\n1 2 0\n-1 3 0\n-2 -3 0\n3 4 0\n-4 1 0\n";
    let clauses = parse_dimacs(text).unwrap();

    let mut solver = Solver::from_clauses(clauses.clone());
    assert_eq!(solver.solve(), true);

    let emitted = emit_dimacs(4, &clauses);
    let reparsed = parse_dimacs(emitted.as_slice()).unwrap();
    assert_eq!(reparsed, clauses);
}

#[test]
fn test_round_trip_negative_and_large_literals() {
    let clauses = vec![vec![1073741824, -1073741824], vec![-7], vec![10, -20, 30]];
    let emitted = emit_dimacs(1073741824, &clauses);
    let reparsed = parse_dimacs(emitted.as_slice()).unwrap();
    assert_eq!(reparsed, clauses);
}

#[test]
fn test_parse_then_solve_unsat_text() {
    let text = b"p cnf 1 2\n1 0\n-1 0\n";
    let clauses = parse_dimacs(text).unwrap();
    let mut solver = Solver::from_clauses(clauses);
    assert_eq!(solver.solve(), false);
}
