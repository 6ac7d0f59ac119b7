use bool_logic::ast::{all, any, const_, var, Expr};
use bool_logic::simplify_by_short_circuit::SimplifyByShortCircuit;

#[test]
fn test_simplify_any_with_duplicates() {
    let mut expr_val = any(vec![var(1), var(2), var(1), // duplicate
        all(vec![var(3), var(1)])]);

    SimplifyByShortCircuit.visit_mut_expr(&mut expr_val);

    let any_val = match &expr_val {
        Expr::Any(list) => list,
        _ => panic!("not a disjunction"),
    };
    assert_eq!(any_val[2], const_(false)); // duplicate replaced
    // Check that var(1) in nested All is also replaced
    let all_val = match &any_val[3] {
        Expr::All(list) => list,
        _ => panic!("not a conjunction"),
    };
    assert_eq!(all_val[1], const_(false));
}

#[test]
fn test_simplify_all_with_duplicates() {
    let mut expr_val = all(vec![var(1), var(2), var(1), // duplicate
        any(vec![var(3), var(1)])]);

    SimplifyByShortCircuit.visit_mut_expr(&mut expr_val);

    let all_val = match &expr_val {
        Expr::All(list) => list,
        _ => panic!("not a conjunction"),
    };
    assert_eq!(all_val[2], const_(true)); // duplicate replaced
    // Check that var(1) in nested Any is also replaced
    let any_val = match &all_val[3] {
        Expr::Any(list) => list,
        _ => panic!("not a disjunction"),
    };
    assert_eq!(any_val[1], const_(true));
}

#[test]
fn test_no_duplicates() {
    let mut expr_val = any(vec![var(1), var(2), var(3)]);
    let original = expr_val.deep_copy();

    SimplifyByShortCircuit.visit_mut_expr(&mut expr_val);

    assert_eq!(expr_val, original);
}

#[test]
fn no_substitution_without_repeat() {
    let mut list: Vec<Expr<u32>> = vec![var(1), all(vec![var(1), var(2)])];
    SimplifyByShortCircuit.visit_mut_any(&mut list);
    assert_eq!(list, vec![var(1), all(vec![var(1), var(2)])]);
}

#[test]
fn substitution_of_repeated_only() {
    let mut list: Vec<Expr<u32>> = vec![var(1), var(2), var(1), any(vec![var(1), var(2)])];
    SimplifyByShortCircuit.visit_mut_all(&mut list);
    assert_eq!(list, vec![var(1), var(2), const_(true), any(vec![const_(true), var(2)])]);
}
