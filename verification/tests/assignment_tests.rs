use satori::assignment::{AssignedValue, VariableAssignment};
use satori::literal::Literal;

#[test]
fn test_get_value_for_variable() {
    let mut assignments = VariableAssignment::default();
    assignments.resize(1);

    let lit = Literal::from_dimacs(1);
    let var = lit.variable();

    assert_eq!(AssignedValue::Unknown, assignments.value(var));
    assignments.assign_true(lit);
    assert_eq!(AssignedValue::True, assignments.value(var));
    assignments.assign_true(lit.negate());
    assert_eq!(AssignedValue::False, assignments.value(var));
    assignments.assign_unknown(var);
    assert_eq!(AssignedValue::Unknown, assignments.value(var));
}

#[test]
fn test_get_value_for_literal() {
    let mut assignments = VariableAssignment::default();
    assignments.resize(1);

    let a = Literal::from_dimacs(1);

    // a = ?
    assert_eq!(AssignedValue::Unknown, assignments.literal_value(a));
    assert_eq!(AssignedValue::Unknown, assignments.literal_value(a.negate()));
    // a = true
    assignments.assign_true(a);
    assert_eq!(AssignedValue::True, assignments.literal_value(a));
    assert_eq!(AssignedValue::False, assignments.literal_value(a.negate()));
    // !a = true
    assignments.assign_true(a.negate());
    assert_eq!(AssignedValue::False, assignments.literal_value(a));
    assert_eq!(AssignedValue::True, assignments.literal_value(a.negate()));
}

#[test]
fn test_partial() {
    let mut assignments = VariableAssignment::default();
    assignments.resize(5);

    assignments.assign_true(Literal::from_dimacs(1));
    assignments.assign_true(Literal::from_dimacs(-2));
    assignments.assign_true(Literal::from_dimacs(-3));
    assignments.assign_true(Literal::from_dimacs(4));
    assignments.assign_unknown(Literal::from_dimacs(5).variable());

    assert_eq!(
        assignments.partial(),
        vec![
            Literal::from_dimacs(1),
            Literal::from_dimacs(-2),
            Literal::from_dimacs(-3),
            Literal::from_dimacs(4)
        ]
    )
}

#[test]
fn test_unassigned() {
    let mut assignments = VariableAssignment::default();
    assignments.resize(3);
    assignments.assign_true(Literal::from_dimacs(2));
    let free = assignments.unassigned();
    assert_eq!(free.len(), 2);
    assert_eq!(free[0].index(), 0);
    assert_eq!(free[1].index(), 2);
}

#[test]
fn test_literal_encoding() {
    let a = Literal::from_dimacs(3);
    assert_eq!(a.variable().index(), 2);
    assert!(a.is_positive());
    assert_eq!(a.index(), 4);
    let na = a.negate();
    assert_eq!(na.variable().index(), 2);
    assert!(!na.is_positive());
    assert_eq!(na.index(), 5);
    assert_eq!(na.negate(), a);
    assert_eq!(Literal::from_dimacs(-3), na);
    assert_eq!(Literal::from_index(2, true), a);
    assert_eq!(Literal::from_index(2, false), na);
}

#[test]
fn test_assigned_value_negation() {
    assert_eq!(AssignedValue::True.not(), AssignedValue::False);
    assert_eq!(AssignedValue::False.not(), AssignedValue::True);
    assert_eq!(AssignedValue::Unknown.not(), AssignedValue::Unknown);
}
