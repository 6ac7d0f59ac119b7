use bool_logic::ast::{all, any, const_, not, var, Expr};
use bool_logic::dedup_list::DedupList;

#[test]
fn dedup_any_with_duplicates() {
    let mut x: Expr<u32> = any(vec![var(1), var(2), var(1), var(3), var(2)]);
    let expected: Expr<u32> = any(vec![var(1), var(2), var(3)]);

    DedupList.visit_mut_expr(&mut x);

    assert_eq!(x, expected);
}

#[test]
fn dedup_all_with_duplicates() {
    let mut x: Expr<u32> = all(vec![var(1), var(2), var(1), var(3), var(2)]);
    let expected: Expr<u32> = all(vec![var(1), var(2), var(3)]);

    DedupList.visit_mut_expr(&mut x);

    assert_eq!(x, expected);
}

#[test]
fn dedup_no_duplicates() {
    let mut x: Expr<u32> = any(vec![var(1), var(2), var(3)]);
    let expected: Expr<u32> = any(vec![var(1), var(2), var(3)]);

    DedupList.visit_mut_expr(&mut x);

    assert_eq!(x, expected);
}

#[test]
fn dedup_empty_list() {
    let mut x: Expr<u32> = any(vec![]);
    let expected: Expr<u32> = any(vec![]);

    DedupList.visit_mut_expr(&mut x);

    assert_eq!(x, expected);
}

#[test]
fn dedup_single_element() {
    let mut x: Expr<u32> = any(vec![var(1)]);
    let expected: Expr<u32> = any(vec![var(1)]);

    DedupList.visit_mut_expr(&mut x);

    assert_eq!(x, expected);
}

#[test]
fn dedup_all_same_elements() {
    let mut x: Expr<u32> = any(vec![var(1), var(1), var(1), var(1)]);
    let expected: Expr<u32> = any(vec![var(1)]);

    DedupList.visit_mut_expr(&mut x);

    assert_eq!(x, expected);
}

#[test]
fn dedup_nested_expressions() {
    let mut x: Expr<u32> = any(vec![all(vec![var(1), var(2)]), var(3), all(vec![var(1), var(2)]), var(3)]);
    let expected: Expr<u32> = any(vec![all(vec![var(1), var(2)]), var(3)]);

    DedupList.visit_mut_expr(&mut x);

    assert_eq!(x, expected);
}

#[test]
fn dedup_with_constants() {
    let mut x: Expr<u32> = any(vec![const_(true), var(1), const_(true), const_(false)]);
    let expected: Expr<u32> = any(vec![const_(true), var(1), const_(false)]);

    DedupList.visit_mut_expr(&mut x);

    assert_eq!(x, expected);
}

#[test]
fn dedup_preserves_order() {
    let mut x: Expr<u32> = any(vec![var(3), var(1), var(2), var(1), var(3)]);
    let expected: Expr<u32> = any(vec![var(3), var(1), var(2)]);

    DedupList.visit_mut_expr(&mut x);

    assert_eq!(x, expected);
}

#[test]
fn dedup_non_list_expression() {
    let mut x: Expr<u32> = not(var(1));
    let expected: Expr<u32> = not(var(1));

    DedupList.visit_mut_expr(&mut x);

    assert_eq!(x, expected);
}
