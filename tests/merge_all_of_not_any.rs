use bool_logic::ast::{all, any, not, var, Expr};
use bool_logic::merge_all_of_not_any::MergeAllOfNotAny;

#[test]
fn merge_multiple_not_any() {
    let mut x: Expr<u32> = all(vec![not(any(vec![var(1), var(2)])), not(any(vec![var(3), var(4)])), var(5)]);
    let expected: Expr<u32> = all(vec![not(any(vec![var(1), var(2), var(3), var(4)])), var(5)]);

    MergeAllOfNotAny.visit_mut_expr(&mut x);

    assert_eq!(x, expected);
}

#[test]
fn merge_not_var_into_not_any() {
    let mut x: Expr<u32> = all(vec![not(any(vec![var(1), var(2)])), not(var(3)), var(4)]);
    let expected: Expr<u32> = all(vec![not(any(vec![var(1), var(2), var(3)])), var(4)]);

    MergeAllOfNotAny.visit_mut_expr(&mut x);

    assert_eq!(x, expected);
}

#[test]
fn merge_multiple_not_any_and_not_var() {
    let mut x: Expr<u32> = all(vec![not(any(vec![var(1)])), not(any(vec![var(2)])), not(var(3)), not(var(4)), var(5)]);
    let expected: Expr<u32> = all(vec![not(any(vec![var(1), var(2), var(3), var(4)])), var(5)]);

    MergeAllOfNotAny.visit_mut_expr(&mut x);

    assert_eq!(x, expected);
}

#[test]
fn single_not_any_with_not_var() {
    let mut x: Expr<u32> = all(vec![not(any(vec![var(1)])), not(var(2)), var(3)]);
    let expected: Expr<u32> = all(vec![not(any(vec![var(1), var(2)])), var(3)]);

    MergeAllOfNotAny.visit_mut_expr(&mut x);

    assert_eq!(x, expected);
}

#[test]
fn no_merge_when_no_not_any() {
    let mut x: Expr<u32> = all(vec![var(1), var(2), not(var(3))]);
    let expected: Expr<u32> = all(vec![var(1), var(2), not(var(3))]);

    MergeAllOfNotAny.visit_mut_expr(&mut x);

    assert_eq!(x, expected);
}

#[test]
fn no_merge_when_single_not_any_no_not_var() {
    let mut x: Expr<u32> = all(vec![not(any(vec![var(1), var(2)])), var(3)]);
    let expected: Expr<u32> = all(vec![not(any(vec![var(1), var(2)])), var(3)]);

    MergeAllOfNotAny.visit_mut_expr(&mut x);

    assert_eq!(x, expected);
}

#[test]
fn merge_empty_not_any() {
    let mut x: Expr<u32> = all(vec![not(any(vec![var(1)])), not(any(vec![])), var(2)]);
    let expected: Expr<u32> = all(vec![not(any(vec![var(1)])), var(2)]);

    MergeAllOfNotAny.visit_mut_expr(&mut x);

    assert_eq!(x, expected);
}

#[test]
fn complex_merge_scenario() {
    let mut x: Expr<u32> = all(vec![not(any(vec![var(1), var(2)])), var(3), not(any(vec![var(4)])), not(var(5)), not(any(vec![var(6), var(7)])), not(var(8))]);
    let expected: Expr<u32> = all(vec![not(any(vec![var(1), var(2), var(4), var(6), var(7), var(5), var(8)])), var(3)]);

    MergeAllOfNotAny.visit_mut_expr(&mut x);

    assert_eq!(x, expected);
}
