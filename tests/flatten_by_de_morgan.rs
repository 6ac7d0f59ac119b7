use bool_logic::ast::{all, any, const_, not, var, Expr};
use bool_logic::flatten_by_de_morgan::FlattenByDeMorgan;

#[test]
fn de_morgan_not_any_to_all() {
    // not(any(a, b)) -> all(not(a), not(b))
    let mut x: Expr<u32> = not(any(vec![var(1), var(2)]));
    let expected: Expr<u32> = all(vec![not(var(1)), not(var(2))]);

    FlattenByDeMorgan.visit_mut_expr(&mut x);

    assert_eq!(x, expected);
}

#[test]
fn de_morgan_not_all_to_any() {
    // not(all(a, b)) -> any(not(a), not(b))
    let mut x: Expr<u32> = not(all(vec![var(1), var(2)]));
    let expected: Expr<u32> = any(vec![not(var(1)), not(var(2))]);

    FlattenByDeMorgan.visit_mut_expr(&mut x);

    assert_eq!(x, expected);
}

#[test]
fn de_morgan_not_empty_any() {
    // not(any()) -> all()
    let mut x: Expr<u32> = not(any(vec![]));
    let expected: Expr<u32> = all(vec![]);

    FlattenByDeMorgan.visit_mut_expr(&mut x);

    assert_eq!(x, expected);
}

#[test]
fn de_morgan_not_empty_all() {
    // not(all()) -> any()
    let mut x: Expr<u32> = not(all(vec![]));
    let expected: Expr<u32> = any(vec![]);

    FlattenByDeMorgan.visit_mut_expr(&mut x);

    assert_eq!(x, expected);
}

#[test]
fn de_morgan_not_single_any() {
    // not(any(a)) -> all(not(a))
    let mut x: Expr<u32> = not(any(vec![var(1)]));
    let expected: Expr<u32> = all(vec![not(var(1))]);

    FlattenByDeMorgan.visit_mut_expr(&mut x);

    assert_eq!(x, expected);
}

#[test]
fn de_morgan_not_single_all() {
    // not(all(a)) -> any(not(a))
    let mut x: Expr<u32> = not(all(vec![var(1)]));
    let expected: Expr<u32> = any(vec![not(var(1))]);

    FlattenByDeMorgan.visit_mut_expr(&mut x);

    assert_eq!(x, expected);
}

#[test]
fn de_morgan_not_multiple_any() {
    // not(any(a, b, c)) -> all(not(a), not(b), not(c))
    let mut x: Expr<u32> = not(any(vec![var(1), var(2), var(3)]));
    let expected: Expr<u32> = all(vec![not(var(1)), not(var(2)), not(var(3))]);

    FlattenByDeMorgan.visit_mut_expr(&mut x);

    assert_eq!(x, expected);
}

#[test]
fn de_morgan_not_multiple_all() {
    // not(all(a, b, c)) -> any(not(a), not(b), not(c))
    let mut x: Expr<u32> = not(all(vec![var(1), var(2), var(3)]));
    let expected: Expr<u32> = any(vec![not(var(1)), not(var(2)), not(var(3))]);

    FlattenByDeMorgan.visit_mut_expr(&mut x);

    assert_eq!(x, expected);
}

#[test]
fn no_change_not_variable() {
    // not(a) -> not(a) (no change)
    let mut x: Expr<u32> = not(var(1));
    let expected: Expr<u32> = not(var(1));

    FlattenByDeMorgan.visit_mut_expr(&mut x);

    assert_eq!(x, expected);
}

#[test]
fn no_change_not_const() {
    // not(true) -> not(true) (no change)
    let mut x: Expr<u32> = not(const_(true));
    let expected: Expr<u32> = not(const_(true));

    FlattenByDeMorgan.visit_mut_expr(&mut x);

    assert_eq!(x, expected);
}

#[test]
fn de_morgan_nested() {
    // not(any(all(a, b), c)) -> all(not(all(a, b)), not(c)) -> all(any(not(a), not(b)), not(c))
    let mut x: Expr<u32> = not(any(vec![all(vec![var(1), var(2)]), var(3)]));
    let expected: Expr<u32> = all(vec![any(vec![not(var(1)), not(var(2))]), not(var(3))]);

    FlattenByDeMorgan.visit_mut_expr(&mut x);

    assert_eq!(x, expected);
}

#[test]
fn de_morgan_complex_nested() {
    // not(all(any(a, b), any(c, d))) -> any(not(any(a, b)), not(any(c, d))) -> any(all(not(a), not(b)), all(not(c), not(d)))
    let mut x: Expr<u32> = not(all(vec![any(vec![var(1), var(2)]), any(vec![var(3), var(4)])]));
    let expected: Expr<u32> = any(vec![all(vec![not(var(1)), not(var(2))]), all(vec![not(var(3)), not(var(4))])]);

    FlattenByDeMorgan.visit_mut_expr(&mut x);

    assert_eq!(x, expected);
}
