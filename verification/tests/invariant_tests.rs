use satori::bcp::check_two_watch_invariant;
use satori::literal::Literal;
use satori::search::{search, SearchContext};
use satori::trail::Reason;

fn lits(clause: &[i32]) -> Vec<Literal> {
    clause.iter().map(|&l| Literal::from_dimacs(l)).collect()
}

/// Checks, on the spot, the dynamic trail invariants: no variable twice on
/// the trail, and strictly increasing decision-level boundaries.
fn assert_trail_invariants(ctx: &SearchContext) {
    let entries = &ctx.bcp.trail.entries;
    for i in 0..entries.len() {
        for j in (i + 1)..entries.len() {
            assert_ne!(
                entries[i].literal.variable().index(),
                entries[j].literal.variable().index(),
                "variable appears twice on the trail"
            );
        }
    }
    let boundaries = &ctx.bcp.trail.boundaries;
    for w in boundaries.windows(2) {
        assert!(w[0] < w[1], "decision-level boundaries not strictly increasing");
    }
}

/// Runs the search loop by hand, checking the trail invariants between
/// steps and the two-watch invariant at every propagation fixpoint — that
/// is, outside the body of BCP, whenever no enqueued literal still awaits
/// its watch-list scan.
fn solve_with_invariant_checks(clauses: &[Vec<i32>]) -> bool {
    let mut ctx = SearchContext::default();
    for c in clauses {
        ctx.bcp.add_clause(&lits(c));
    }
    ctx.bcp.init();
    ctx.dlis.init(&ctx.bcp.binary_clauses, &ctx.bcp.long_clauses);
    let queue_drained =
        |ctx: &SearchContext| ctx.bcp.trail.queue_head == ctx.bcp.trail.entries.len();
    if queue_drained(&ctx) {
        assert!(check_two_watch_invariant(&ctx.bcp), "two-watch invariant broken after init");
    }
    assert_trail_invariants(&ctx);
    loop {
        let step = search(&mut ctx);
        // right after a conflict is analyzed, the freshly asserted literal
        // still sits in the propagation queue; the invariant is due only
        // once the queue is drained
        if queue_drained(&ctx) {
            assert!(
                check_two_watch_invariant(&ctx.bcp),
                "two-watch invariant broken at a propagation fixpoint"
            );
        }
        assert_trail_invariants(&ctx);
        if let Some(result) = step {
            return result;
        }
    }
}

#[test]
fn test_two_watch_invariant_on_sat_formula() {
    let sat = solve_with_invariant_checks(&[
        vec![1, 2, -3],
        vec![-1, 3, 4],
        vec![-2, -4, 5],
        vec![2, 3, 4, -5],
        vec![-1, -2, -3, -4, -5],
    ]);
    assert!(sat);
}

#[test]
fn test_two_watch_invariant_on_unsat_formula() {
    // the pigeonhole-style square over three variables, unsatisfiable
    let sat = solve_with_invariant_checks(&[
        vec![1, 2, 3],
        vec![1, 2, -3],
        vec![1, -2, 3],
        vec![1, -2, -3],
        vec![-1, 2, 3],
        vec![-1, 2, -3],
        vec![-1, -2, 3],
        vec![-1, -2, -3],
    ]);
    assert!(!sat);
}

#[test]
fn test_learned_clause_is_asserting() {
    // decide 1 and 2; the clauses (-1 -2 3) and (-1 -2 -3) then conflict,
    // and analysis must learn {-2, -1}, backjump to level 1, and assert -2
    // there — the learned clause being unit under the restored assignment
    let mut ctx = SearchContext::default();
    ctx.bcp.add_clause(&lits(&[-1, -2, 3]));
    ctx.bcp.add_clause(&lits(&[-1, -2, -3]));
    ctx.bcp.init();

    satori::trail::decide_and_assign(&mut ctx.bcp, Literal::from_dimacs(1));
    assert!(satori::bcp::propagate(&mut ctx.bcp).is_ok());
    satori::trail::decide_and_assign(&mut ctx.bcp, Literal::from_dimacs(2));
    let conflict = satori::bcp::propagate(&mut ctx.bcp);
    let conflict = conflict.expect_err("deciding 1 and 2 must conflict");

    satori::analyze::analyze(conflict, &mut ctx.conflict_analysis, &mut ctx.bcp);

    // backjumped from level 2 to level 1
    assert_eq!(ctx.bcp.trail.current_decision_level(), 1);
    // the UIP literal -2 is asserted by the learned binary clause {-2, -1}
    let last = ctx.bcp.trail.entries.last().expect("the UIP must be asserted");
    assert_eq!(last.literal, Literal::from_dimacs(-2));
    assert!(
        matches!(last.reason, Reason::Binary(partner) if partner == Literal::from_dimacs(-1)),
        "the learned clause must be the reason of the asserted UIP"
    );
    assert_eq!(last.level, 1);
}

#[test]
fn test_learned_long_clause_is_asserting() {
    // three decisions; the clauses (-1 -2 -3 4) and (-1 -2 -3 -4) conflict
    // at level 3, and analysis must learn {-3, -2, -1}, backjump to level 2,
    // and assert -3 with the learned clause as reason
    let mut ctx = SearchContext::default();
    ctx.bcp.add_clause(&lits(&[-1, -2, -3, 4]));
    ctx.bcp.add_clause(&lits(&[-1, -2, -3, -4]));
    ctx.bcp.init();

    for d in [1, 2] {
        satori::trail::decide_and_assign(&mut ctx.bcp, Literal::from_dimacs(d));
        assert!(satori::bcp::propagate(&mut ctx.bcp).is_ok());
    }
    satori::trail::decide_and_assign(&mut ctx.bcp, Literal::from_dimacs(3));
    let conflict = satori::bcp::propagate(&mut ctx.bcp).expect_err("level 3 must conflict");

    let clauses_before = ctx.bcp.long_clauses.clauses.len();
    satori::analyze::analyze(conflict, &mut ctx.conflict_analysis, &mut ctx.bcp);

    assert_eq!(ctx.bcp.trail.current_decision_level(), 2);
    assert_eq!(ctx.bcp.long_clauses.clauses.len(), clauses_before + 1);
    let learned = ctx.bcp.long_clauses.clauses.last().unwrap();
    assert_eq!(learned.literals(), &lits(&[-3, -2, -1]));
    // the learned clause is asserting: its lead literal was forced by it
    let last = ctx.bcp.trail.entries.last().expect("the UIP must be asserted");
    assert_eq!(last.literal, Literal::from_dimacs(-3));
    assert!(matches!(last.reason, Reason::Long(ci) if ci == clauses_before));
    // every other literal of the learned clause is false
    for &l in &learned.literals()[1..] {
        assert_eq!(
            ctx.bcp.assignment.literal_value(l),
            satori::assignment::AssignedValue::False
        );
    }
}
