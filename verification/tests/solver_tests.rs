use satori::literal::Literal;
use satori::solver::Solver;

/// Emits CNF clauses for `out = x XOR y`.
fn xor_gate(clauses: &mut Vec<Vec<i32>>, out: i32, x: i32, y: i32) {
    clauses.push(vec![-out, x, y]);
    clauses.push(vec![-out, -x, -y]);
    clauses.push(vec![out, -x, y]);
    clauses.push(vec![out, x, -y]);
}

/// Emits CNF clauses for `out = majority(a, b, c)`.
fn majority_gate(clauses: &mut Vec<Vec<i32>>, out: i32, a: i32, b: i32, c: i32) {
    clauses.push(vec![-out, a, b]);
    clauses.push(vec![-out, a, c]);
    clauses.push(vec![-out, b, c]);
    clauses.push(vec![out, -a, -b]);
    clauses.push(vec![out, -a, -c]);
    clauses.push(vec![out, -b, -c]);
}

/// Emits a full adder `(sum, cout) = a + b + cin`, allocating one
/// intermediate variable from `next_var`.
fn full_adder(
    clauses: &mut Vec<Vec<i32>>,
    next_var: &mut i32,
    a: i32,
    b: i32,
    cin: i32,
    sum: i32,
    cout: i32,
) {
    let t = *next_var;
    *next_var += 1;
    xor_gate(clauses, t, a, b);
    xor_gate(clauses, sum, t, cin);
    majority_gate(clauses, cout, a, b, cin);
}

/// A miter over two 4-bit ripple-carry adders fed the same inputs: the
/// formula asserts that some output bit differs, which is impossible.
fn adder_miter_formula() -> Vec<Vec<i32>> {
    let mut clauses: Vec<Vec<i32>> = Vec::new();
    let mut next_var: i32 = 1;
    let mut fresh = |n: &mut i32| {
        let v = *n;
        *n += 1;
        v
    };
    let a: Vec<i32> = (0..4).map(|_| fresh(&mut next_var)).collect();
    let b: Vec<i32> = (0..4).map(|_| fresh(&mut next_var)).collect();
    // first adder
    let s1: Vec<i32> = (0..4).map(|_| fresh(&mut next_var)).collect();
    let c1: Vec<i32> = (0..4).map(|_| fresh(&mut next_var)).collect();
    // second adder
    let s2: Vec<i32> = (0..4).map(|_| fresh(&mut next_var)).collect();
    let c2: Vec<i32> = (0..4).map(|_| fresh(&mut next_var)).collect();
    let zero = fresh(&mut next_var);
    clauses.push(vec![-zero]);
    let mut cin1 = zero;
    let mut cin2 = zero;
    for i in 0..4 {
        full_adder(&mut clauses, &mut next_var, a[i], b[i], cin1, s1[i], c1[i]);
        full_adder(&mut clauses, &mut next_var, a[i], b[i], cin2, s2[i], c2[i]);
        cin1 = c1[i];
        cin2 = c2[i];
    }
    // difference bits, one per output position, plus one for the carry out
    let mut diffs: Vec<i32> = Vec::new();
    for i in 0..4 {
        let d = fresh(&mut next_var);
        xor_gate(&mut clauses, d, s1[i], s2[i]);
        diffs.push(d);
    }
    let dc = fresh(&mut next_var);
    xor_gate(&mut clauses, dc, c1[3], c2[3]);
    diffs.push(dc);
    // some difference must hold
    clauses.push(diffs);
    clauses
}

#[test]
fn test_formula() {
    // a ripple-carry-adder miter: the two adders always agree, so the
    // formula is unsatisfiable
    let mut solver = Solver::from_clauses(adder_miter_formula());
    let sat = solver.solve();
    assert_eq!(sat, false);
}

#[test]
fn test_empty_formula_is_sat() {
    let mut solver = Solver::from_clauses(vec![]);
    assert_eq!(solver.solve(), true);
    assert_eq!(solver.assignment(), vec![]);
}

#[test]
fn test_single_unit_clause() {
    let mut solver = Solver::from_clauses(vec![vec![1]]);
    assert_eq!(solver.solve(), true);
    assert_eq!(solver.value(Literal::from_dimacs(1)), Some(true));
}

#[test]
fn test_contradicting_units_unsat() {
    let mut solver = Solver::from_clauses(vec![vec![1], vec![-1]]);
    assert_eq!(solver.solve(), false);
}

#[test]
fn test_pigeonhole_two_vars_unsat() {
    let mut solver = Solver::from_clauses(vec![
        vec![1, 2],
        vec![-1, 2],
        vec![1, -2],
        vec![-1, -2],
    ]);
    assert_eq!(solver.solve(), false);
}

#[test]
fn test_three_var_unsat_chain() {
    // (1 2 3)(-1 2)(-2 3)(-3): the last three force 1, 2, 3 all false,
    // violating the first clause
    let mut solver = Solver::from_clauses(vec![
        vec![1, 2, 3],
        vec![-1, 2],
        vec![-2, 3],
        vec![-3],
    ]);
    assert_eq!(solver.solve(), false);
}

#[test]
fn test_implication_cycle_sat() {
    // (1 -2)(2 -3)(3 -1): all-true and all-false both satisfy
    let mut solver = Solver::from_clauses(vec![vec![1, -2], vec![2, -3], vec![3, -1]]);
    assert_eq!(solver.solve(), true);
    let v1 = solver.value(Literal::from_dimacs(1)).unwrap();
    let v2 = solver.value(Literal::from_dimacs(2)).unwrap();
    let v3 = solver.value(Literal::from_dimacs(3)).unwrap();
    assert_eq!(v1, v2);
    assert_eq!(v2, v3);
}

#[test]
fn test_model_satisfies_formula() {
    let clauses = vec![
        vec![1, 2, -3],
        vec![-1, 3, 4],
        vec![-2, -4],
        vec![2, 3, 4],
        vec![-1, -2, -3, -4],
    ];
    let mut solver = Solver::from_clauses(clauses.clone());
    assert_eq!(solver.solve(), true);
    for clause in &clauses {
        assert!(clause
            .iter()
            .any(|&l| solver.value(Literal::from_dimacs(l)) == Some(true)));
    }
}

#[test]
fn test_value_consistency_after_solve() {
    let mut solver = Solver::from_clauses(vec![vec![1, 2], vec![-1, 2], vec![3, -2]]);
    assert_eq!(solver.solve(), true);
    for v in 1..=3 {
        let l = Literal::from_dimacs(v);
        let pos = solver.value(l);
        let neg = solver.value(l.negate());
        match (pos, neg) {
            (Some(x), Some(y)) => assert_eq!(x, !y),
            (None, None) => {}
            _ => panic!("one polarity assigned without the other"),
        }
    }
}

#[test]
fn test_assignment_sorted_and_true() {
    let mut solver = Solver::from_clauses(vec![vec![3, 1], vec![-1], vec![2]]);
    assert_eq!(solver.solve(), true);
    let model = solver.assignment();
    for w in model.windows(2) {
        assert!(w[0].variable().index() < w[1].variable().index());
    }
    for l in &model {
        assert_eq!(solver.value(*l), Some(true));
    }
}

#[test]
fn test_tautology_is_discarded() {
    // a clause with both polarities of a variable constrains nothing
    let mut solver = Solver::from_clauses(vec![vec![1, -1], vec![2]]);
    assert_eq!(solver.solve(), true);
    assert_eq!(solver.value(Literal::from_dimacs(2)), Some(true));
}

#[test]
fn test_duplicate_literals_are_merged() {
    let mut solver = Solver::from_clauses(vec![vec![1, 1, 1], vec![-1, -1, 2, 2, 2]]);
    assert_eq!(solver.solve(), true);
    assert_eq!(solver.value(Literal::from_dimacs(1)), Some(true));
    assert_eq!(solver.value(Literal::from_dimacs(2)), Some(true));
}

#[test]
fn test_empty_clause_unsat() {
    let mut solver = Solver::from_clauses(vec![vec![1, 2], vec![]]);
    assert_eq!(solver.solve(), false);
}

#[test]
fn test_add_clause_and_init_explicitly() {
    let mut solver = Solver::default();
    let clause: Vec<Literal> = vec![Literal::from_dimacs(1), Literal::from_dimacs(2)];
    solver.add_clause(&clause);
    let unit: Vec<Literal> = vec![Literal::from_dimacs(-1)];
    solver.add_clause(&unit);
    solver.init();
    // init is idempotent
    solver.init();
    assert_eq!(solver.solve(), true);
    assert_eq!(solver.value(Literal::from_dimacs(1)), Some(false));
    assert_eq!(solver.value(Literal::from_dimacs(2)), Some(true));
}

/// Evaluates a formula under the assignment encoded by the bits of `bits`.
fn formula_holds(clauses: &[Vec<i32>], var_count: u32, bits: u32) -> bool {
    clauses.iter().all(|clause| {
        clause.iter().any(|&l| {
            let var = (l.unsigned_abs() - 1) as u32;
            assert!(var < var_count);
            let value = bits & (1 << var) != 0;
            if l > 0 {
                value
            } else {
                !value
            }
        })
    })
}

/// A brute-force satisfiability oracle over all 2^V assignments.
fn brute_force_sat(clauses: &[Vec<i32>], var_count: u32) -> bool {
    (0..(1u32 << var_count)).any(|bits| formula_holds(clauses, var_count, bits))
}

#[test]
fn test_verdict_agrees_with_truth_table_oracle() {
    // a deterministic family of small formulas over up to 4 variables
    let pool: Vec<Vec<i32>> = vec![
        vec![1, 2],
        vec![-1, 3],
        vec![-2, -3],
        vec![2, 3, 4],
        vec![-3, -4],
        vec![1, -2, 3],
        vec![-1, 2, -4],
        vec![4],
        vec![-1, -2, -3, -4],
        vec![1, 2, 3, 4],
    ];
    // walk over many subsets of the pool, chosen by a simple bit counter
    for selector in 0u32..1024 {
        let clauses: Vec<Vec<i32>> = pool
            .iter()
            .enumerate()
            .filter(|(k, _)| selector & (1 << k) != 0)
            .map(|(_, c)| c.clone())
            .collect();
        let expected = brute_force_sat(&clauses, 4);
        let mut solver = Solver::from_clauses(clauses.clone());
        let got = solver.solve();
        assert_eq!(got, expected, "verdict differs on {clauses:?}");
        if got {
            // the model must satisfy every clause
            for clause in &clauses {
                assert!(clause
                    .iter()
                    .any(|&l| solver.value(Literal::from_dimacs(l)) == Some(true)));
            }
        }
    }
}

#[test]
fn test_six_variable_verdicts_agree_with_oracle() {
    let pool: Vec<Vec<i32>> = vec![
        vec![1, -5],
        vec![5, 6],
        vec![-6, 2],
        vec![-1, -2, 5],
        vec![3, -4, 6],
        vec![-3, 4],
        vec![4, 5, -6],
        vec![-1, -4, -5],
        vec![2, 3, -5, 6],
        vec![1, 2, 3, 4, 5, 6],
        vec![-1, -2, -3, -4, -5, -6],
    ];
    for selector in 0u32..2048 {
        let clauses: Vec<Vec<i32>> = pool
            .iter()
            .enumerate()
            .filter(|(k, _)| selector & (1 << k) != 0)
            .map(|(_, c)| c.clone())
            .collect();
        let expected = brute_force_sat(&clauses, 6);
        let mut solver = Solver::from_clauses(clauses.clone());
        let got = solver.solve();
        assert_eq!(got, expected, "verdict differs on {clauses:?}");
    }
}
