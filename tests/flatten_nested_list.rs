use bool_logic::ast::{all, any, const_, not, var, Expr};
use bool_logic::flatten_nested_list::FlattenNestedList;

#[test]
fn flatten_nested_any() {
    let mut x: Expr<u32> = any(vec![any(vec![var(1), var(2)]), any(vec![var(3), var(4)])]);
    let expected: Expr<u32> = any(vec![var(1), var(2), var(3), var(4)]);

    FlattenNestedList.visit_mut_expr(&mut x);

    assert_eq!(x, expected);
}

#[test]
fn flatten_nested_all() {
    let mut x: Expr<u32> = all(vec![all(vec![var(1), var(2)]), all(vec![var(3), var(4)])]);
    let expected: Expr<u32> = all(vec![var(1), var(2), var(3), var(4)]);

    FlattenNestedList.visit_mut_expr(&mut x);

    assert_eq!(x, expected);
}

#[test]
fn flatten_mixed_nested() {
    let mut x: Expr<u32> = any(vec![any(vec![var(1), var(2)]), var(3), any(vec![var(4), var(5)])]);
    let expected: Expr<u32> = any(vec![var(1), var(2), var(3), var(4), var(5)]);

    FlattenNestedList.visit_mut_expr(&mut x);

    assert_eq!(x, expected);
}

#[test]
fn flatten_deep_nested() {
    let mut x: Expr<u32> = any(vec![any(vec![any(vec![var(1), var(2)]), var(3)]), any(vec![var(4), var(5)])]);
    let expected: Expr<u32> = any(vec![var(1), var(2), var(3), var(4), var(5)]);

    FlattenNestedList.visit_mut_expr(&mut x);

    assert_eq!(x, expected);
}

#[test]
fn no_flatten_mixed_types() {
    let mut x: Expr<u32> = any(vec![all(vec![var(1), var(2)]), var(3)]);
    let expected: Expr<u32> = any(vec![all(vec![var(1), var(2)]), var(3)]);

    FlattenNestedList.visit_mut_expr(&mut x);

    assert_eq!(x, expected);
}

#[test]
fn flatten_single_nested() {
    let mut x: Expr<u32> = any(vec![any(vec![var(1), var(2)])]);
    let expected: Expr<u32> = any(vec![var(1), var(2)]);

    FlattenNestedList.visit_mut_expr(&mut x);

    assert_eq!(x, expected);
}

#[test]
fn flatten_complex_expression() {
    let mut x: Expr<u32> = all(vec![all(vec![var(1), not(var(2))]), all(vec![const_(true), var(3)]), var(4)]);
    let expected: Expr<u32> = all(vec![var(1), not(var(2)), const_(true), var(3), var(4)]);

    FlattenNestedList.visit_mut_expr(&mut x);

    assert_eq!(x, expected);
}

#[test]
fn flatten_list_hooks() {
    let mut a: Vec<Expr<u32>> = vec![any(vec![var(1), any(vec![var(2)])]), all(vec![var(3)])];
    FlattenNestedList.visit_mut_any(&mut a);
    assert_eq!(a, vec![var(1), var(2), all(vec![var(3)])]);
    let mut b: Vec<Expr<u32>> = vec![all(vec![var(1)]), any(vec![var(2)])];
    FlattenNestedList.visit_mut_all(&mut b);
    assert_eq!(b, vec![var(1), any(vec![var(2)])]);
}
