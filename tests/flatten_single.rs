use bool_logic::ast::{all, any, const_, not, var, Expr};
use bool_logic::flatten_single::FlattenSingle;

#[test]
fn flatten_empty_any() {
    let mut x: Expr<u32> = any(vec![]);
    let expected: Expr<u32> = const_(false);

    FlattenSingle.visit_mut_expr(&mut x);

    assert_eq!(x, expected);
}

#[test]
fn flatten_empty_all() {
    let mut x: Expr<u32> = all(vec![]);
    let expected: Expr<u32> = const_(true);

    FlattenSingle.visit_mut_expr(&mut x);

    assert_eq!(x, expected);
}

#[test]
fn flatten_single_any() {
    let mut x: Expr<u32> = any(vec![var(1)]);
    let expected: Expr<u32> = var(1);

    FlattenSingle.visit_mut_expr(&mut x);

    assert_eq!(x, expected);
}

#[test]
fn flatten_single_all() {
    let mut x: Expr<u32> = all(vec![var(1)]);
    let expected: Expr<u32> = var(1);

    FlattenSingle.visit_mut_expr(&mut x);

    assert_eq!(x, expected);
}

#[test]
fn flatten_double_negation() {
    let mut x: Expr<u32> = not(not(var(1)));
    let expected: Expr<u32> = var(1);

    FlattenSingle.visit_mut_expr(&mut x);

    assert_eq!(x, expected);
}

#[test]
fn no_flatten_multiple_any() {
    let mut x: Expr<u32> = any(vec![var(1), var(2)]);
    let expected: Expr<u32> = any(vec![var(1), var(2)]);

    FlattenSingle.visit_mut_expr(&mut x);

    assert_eq!(x, expected);
}

#[test]
fn no_flatten_multiple_all() {
    let mut x: Expr<u32> = all(vec![var(1), var(2)]);
    let expected: Expr<u32> = all(vec![var(1), var(2)]);

    FlattenSingle.visit_mut_expr(&mut x);

    assert_eq!(x, expected);
}

#[test]
fn no_flatten_single_negation() {
    let mut x: Expr<u32> = not(var(1));
    let expected: Expr<u32> = not(var(1));

    FlattenSingle.visit_mut_expr(&mut x);

    assert_eq!(x, expected);
}

#[test]
fn flatten_nested_expressions() {
    let mut x: Expr<u32> = any(vec![all(vec![var(1)])]);
    let expected: Expr<u32> = var(1);

    FlattenSingle.visit_mut_expr(&mut x);

    assert_eq!(x, expected);
}
