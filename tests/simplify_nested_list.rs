use bool_logic::ast::{all, any, not, var, Expr};
use bool_logic::simplify_nested_list::{contains_cross_same, SimplifyNestedList};

#[test]
fn simplify_any_with_nested_all_containing_same_element() {
    // any(x0, all(x0, x1), x2) => any(x0, x2)
    let mut x: Expr<u32> = any(vec![var(1), all(vec![var(1), var(2)]), var(3)]);
    let expected: Expr<u32> = any(vec![var(1), var(3)]);

    SimplifyNestedList.visit_mut_expr(&mut x);

    assert_eq!(x, expected);
}

#[test]
fn simplify_all_with_nested_any_containing_same_element() {
    // all(x0, any(x0, x1), x2) => all(x0, x2)
    let mut x: Expr<u32> = all(vec![var(1), any(vec![var(1), var(2)]), var(3)]);
    let expected: Expr<u32> = all(vec![var(1), var(3)]);

    SimplifyNestedList.visit_mut_expr(&mut x);

    assert_eq!(x, expected);
}

#[test]
fn no_simplify_any_with_nested_all_no_common_elements() {
    // any(x0, all(x1, x2), x3) should not be simplified
    let mut x: Expr<u32> = any(vec![var(1), all(vec![var(2), var(4)]), var(3)]);
    let expected: Expr<u32> = any(vec![var(1), all(vec![var(2), var(4)]), var(3)]);

    SimplifyNestedList.visit_mut_expr(&mut x);

    assert_eq!(x, expected);
}

#[test]
fn no_simplify_all_with_nested_any_no_common_elements() {
    // all(x0, any(x1, x2), x3) should not be simplified
    let mut x: Expr<u32> = all(vec![var(1), any(vec![var(2), var(4)]), var(3)]);
    let expected: Expr<u32> = all(vec![var(1), any(vec![var(2), var(4)]), var(3)]);

    SimplifyNestedList.visit_mut_expr(&mut x);

    assert_eq!(x, expected);
}

#[test]
fn simplify_multiple_nested_expressions_in_any() {
    // any(x0, all(x0, x1), all(x0, x2), x3) => any(x0, x3)
    let mut x: Expr<u32> = any(vec![var(1), all(vec![var(1), var(2)]), all(vec![var(1), var(4)]), var(3)]);
    let expected: Expr<u32> = any(vec![var(1), var(3)]);

    SimplifyNestedList.visit_mut_expr(&mut x);

    assert_eq!(x, expected);
}

#[test]
fn simplify_multiple_nested_expressions_in_all() {
    // all(x0, any(x0, x1), any(x0, x2), x3) => all(x0, x3)
    let mut x: Expr<u32> = all(vec![var(1), any(vec![var(1), var(2)]), any(vec![var(1), var(4)]), var(3)]);
    let expected: Expr<u32> = all(vec![var(1), var(3)]);

    SimplifyNestedList.visit_mut_expr(&mut x);

    assert_eq!(x, expected);
}

#[test]
fn simplify_nested_with_mixed_content() {
    // any(x0, all(x0, x1), not(x2)) => any(x0, not(x2))
    let mut x: Expr<u32> = any(vec![var(1), all(vec![var(1), var(2)]), not(var(3))]);
    let expected: Expr<u32> = any(vec![var(1), not(var(3))]);

    SimplifyNestedList.visit_mut_expr(&mut x);

    assert_eq!(x, expected);
}

#[test]
fn simplify_deeply_nested_expressions() {
    // any(x0, all(x0, any(x1, x2))) => any(x0)
    let mut x: Expr<u32> = any(vec![var(1), all(vec![var(1), any(vec![var(2), var(3)])])]);
    let expected: Expr<u32> = any(vec![var(1)]);

    SimplifyNestedList.visit_mut_expr(&mut x);

    assert_eq!(x, expected);
}

#[test]
fn no_change_when_no_simplification_possible() {
    // any(all(x0, x1), all(x2, x3)) should remain unchanged
    let mut x: Expr<u32> = any(vec![all(vec![var(1), var(2)]), all(vec![var(3), var(4)])]);
    let expected: Expr<u32> = any(vec![all(vec![var(1), var(2)]), all(vec![var(3), var(4)])]);

    SimplifyNestedList.visit_mut_expr(&mut x);

    assert_eq!(x, expected);
}

#[test]
fn contains_cross_same_function_test() {
    assert!(contains_cross_same(&[1, 2, 3], &[3, 4, 5]));
    assert!(contains_cross_same(&[1, 2], &[2, 3]));
    assert!(!contains_cross_same(&[1, 2], &[3, 4]));
    assert!(!contains_cross_same(&[], &[1, 2]));
    assert!(!contains_cross_same(&[1, 2], &[]));
}

#[test]
fn cross_list_hooks() {
    let mut a: Vec<Expr<u32>> = vec![var(1), all(vec![var(1), var(2)]), var(3)];
    SimplifyNestedList.visit_mut_any(&mut a);
    assert_eq!(a, vec![var(1), var(3)]);
    let mut b: Vec<Expr<u32>> = vec![var(1), any(vec![var(1), var(2)]), var(3)];
    SimplifyNestedList.visit_mut_all(&mut b);
    assert_eq!(b, vec![var(1), var(3)]);
}
