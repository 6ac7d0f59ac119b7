use bool_logic::ast::{all, any, const_, not, var, Expr};
use bool_logic::eval_const::EvalConst;

#[test]
fn eval_any_with_false() {
    let mut x: Expr<u32> = any(vec![const_(false), var(1)]);
    let expected: Expr<u32> = any(vec![var(1)]);

    EvalConst.visit_mut_expr(&mut x);

    assert_eq!(x, expected);
}

#[test]
fn eval_any_with_true() {
    let mut x: Expr<u32> = any(vec![var(1), const_(true), var(2)]);
    let expected: Expr<u32> = const_(true);

    EvalConst.visit_mut_expr(&mut x);

    assert_eq!(x, expected);
}

#[test]
fn eval_any_all_false() {
    let mut x: Expr<u32> = any(vec![const_(false), const_(false)]);
    let expected: Expr<u32> = const_(false);

    EvalConst.visit_mut_expr(&mut x);

    assert_eq!(x, expected);
}

#[test]
fn eval_all_with_true() {
    let mut x: Expr<u32> = all(vec![const_(true), var(1)]);
    let expected: Expr<u32> = all(vec![var(1)]);

    EvalConst.visit_mut_expr(&mut x);

    assert_eq!(x, expected);
}

#[test]
fn eval_all_with_false() {
    let mut x: Expr<u32> = all(vec![var(1), const_(false), var(2)]);
    let expected: Expr<u32> = const_(false);

    EvalConst.visit_mut_expr(&mut x);

    assert_eq!(x, expected);
}

#[test]
fn eval_all_all_true() {
    let mut x: Expr<u32> = all(vec![const_(true), const_(true)]);
    let expected: Expr<u32> = const_(true);

    EvalConst.visit_mut_expr(&mut x);

    assert_eq!(x, expected);
}

#[test]
fn eval_not_true() {
    let mut x: Expr<u32> = not(const_(true));
    let expected: Expr<u32> = const_(false);

    EvalConst.visit_mut_expr(&mut x);

    assert_eq!(x, expected);
}

#[test]
fn eval_not_false() {
    let mut x: Expr<u32> = not(const_(false));
    let expected: Expr<u32> = const_(true);

    EvalConst.visit_mut_expr(&mut x);

    assert_eq!(x, expected);
}

#[test]
fn no_eval_not_variable() {
    let mut x: Expr<u32> = not(var(1));
    let expected: Expr<u32> = not(var(1));

    EvalConst.visit_mut_expr(&mut x);

    assert_eq!(x, expected);
}

#[test]
fn eval_nested_expressions() {
    let mut x: Expr<u32> = any(vec![all(vec![const_(true), var(1)]), const_(false)]);
    let expected: Expr<u32> = any(vec![all(vec![var(1)])]);

    EvalConst.visit_mut_expr(&mut x);

    assert_eq!(x, expected);
}

#[test]
fn eval_complex_nested() {
    let mut x: Expr<u32> = not(all(vec![const_(false), var(1)]));
    let expected: Expr<u32> = const_(true);

    EvalConst.visit_mut_expr(&mut x);

    assert_eq!(x, expected);
}

#[test]
fn no_change_for_variables_only() {
    let mut x: Expr<u32> = any(vec![var(1), var(2)]);
    let expected: Expr<u32> = any(vec![var(1), var(2)]);

    EvalConst.visit_mut_expr(&mut x);

    assert_eq!(x, expected);
}
