use bool_logic::ast::{all, any, const_, not, var, Expr};
use bool_logic::simplify_all_not_any::SimplifyAllNotAny;

#[test]
fn simplify_all_not_any_basic() {
    let mut x = all(vec![not(any(vec![var(1), var(2)])), any(vec![var(1), var(3)])]);
    let expected = all(vec![not(any(vec![var(1), var(2)])), any(vec![var(3)])]);

    SimplifyAllNotAny.visit_mut_expr(&mut x);

    assert_eq!(x, expected);
}

#[test]
fn simplify_all_not_any_reverse_order() {
    let mut x = all(vec![any(vec![var(1), var(3)]), not(any(vec![var(1), var(2)]))]);
    let expected = all(vec![any(vec![var(3)]), not(any(vec![var(1), var(2)]))]);

    SimplifyAllNotAny.visit_mut_expr(&mut x);

    assert_eq!(x, expected);
}

#[test]
fn simplify_all_not_any_complete_overlap() {
    let mut x = all(vec![not(any(vec![var(1), var(2)])), any(vec![var(1), var(2)])]);
    let expected = all(vec![not(any(vec![var(1), var(2)])), any(vec![])]);

    SimplifyAllNotAny.visit_mut_expr(&mut x);

    assert_eq!(x, expected);
}

#[test]
fn simplify_all_not_any_no_overlap() {
    let mut x = all(vec![not(any(vec![var(1), var(2)])), any(vec![var(3), var(4)])]);
    let expected = all(vec![not(any(vec![var(1), var(2)])), any(vec![var(3), var(4)])]);

    SimplifyAllNotAny.visit_mut_expr(&mut x);

    assert_eq!(x, expected);
}

#[test]
fn simplify_all_not_expr_direct() {
    let mut x = all(vec![not(var(1)), any(vec![var(1), var(2)])]);
    let expected = all(vec![not(var(1)), any(vec![var(2)])]);

    SimplifyAllNotAny.visit_mut_expr(&mut x);

    assert_eq!(x, expected);
}

#[test]
fn no_simplify_wrong_pattern() {
    let mut x = all(vec![var(1), var(2), var(3)]);
    let expected = all(vec![var(1), var(2), var(3)]);

    SimplifyAllNotAny.visit_mut_expr(&mut x);

    assert_eq!(x, expected);
}

#[test]
fn no_simplify_single_expr() {
    let mut x = all(vec![not(any(vec![var(1), var(2)]))]);
    let expected = all(vec![not(any(vec![var(1), var(2)]))]);

    SimplifyAllNotAny.visit_mut_expr(&mut x);

    assert_eq!(x, expected);
}

#[test]
fn simplify_partial_overlap() {
    let mut x = all(vec![not(any(vec![var(1), var(2), var(3)])), any(vec![var(1), var(4), var(5)])]);
    let expected = all(vec![not(any(vec![var(1), var(2), var(3)])), any(vec![var(4), var(5)])]);

    SimplifyAllNotAny.visit_mut_expr(&mut x);

    assert_eq!(x, expected);
}

#[test]
fn no_simplify_beside_negated_conjunction() {
    let mut x: Expr<u32> = all(vec![
        any(vec![all(vec![var(1), var(2)]), var(3)]),
        not(all(vec![var(1), var(2)])),
    ]);
    let expected: Expr<u32> = all(vec![
        any(vec![all(vec![var(1), var(2)]), var(3)]),
        not(all(vec![var(1), var(2)])),
    ]);
    SimplifyAllNotAny.visit_mut_expr(&mut x);
    assert_eq!(x, expected);
}

#[test]
fn no_simplify_beside_negated_constant() {
    let mut list: Vec<Expr<u32>> = vec![any(vec![const_(true), var(1)]), not(const_(true))];
    SimplifyAllNotAny.visit_mut_all(&mut list);
    assert_eq!(list, vec![any(vec![const_(true), var(1)]), not(const_(true))]);
}
