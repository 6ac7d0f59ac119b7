use bool_logic::ast::{all, any, var, Expr};
use bool_logic::merge_all_of_any::MergeAllOfAny;

#[test]
fn merge_subset_any() {
    // all(any(a, b), any(a)) -> all(any(a))
    // any(a) is subset of any(a,b), so any(a,b) is redundant
    let mut x: Expr<u32> = all(vec![any(vec![var(1), var(2)]), any(vec![var(1)])]);
    let expected: Expr<u32> = all(vec![any(vec![var(1)])]);

    if let Expr::All(list) = &mut x {
        MergeAllOfAny.visit_mut_all(list);
    } else {
        panic!("not a conjunction");
    }

    assert_eq!(x, expected);
}

#[test]
fn merge_equal_any() {
    // all(any(a, b), any(a, b)) -> all(any(a, b))
    let mut x: Expr<u32> = all(vec![any(vec![var(1), var(2)]), any(vec![var(1), var(2)])]);
    let expected: Expr<u32> = all(vec![any(vec![var(1), var(2)])]);

    if let Expr::All(list) = &mut x {
        MergeAllOfAny.visit_mut_all(list);
    } else {
        panic!("not a conjunction");
    }

    assert_eq!(x, expected);
}

#[test]
fn merge_multiple_subsets() {
    // all(any(a, b, c), any(a, b), any(a)) -> all(any(a))
    // any(a) ⊆ any(a,b) ⊆ any(a,b,c), so keep the smallest
    let mut x: Expr<u32> = all(vec![any(vec![var(1), var(2), var(3)]), any(vec![var(1), var(2)]), any(vec![var(1)])]);
    let expected: Expr<u32> = all(vec![any(vec![var(1)])]);

    if let Expr::All(list) = &mut x {
        MergeAllOfAny.visit_mut_all(list);
    } else {
        panic!("not a conjunction");
    }

    assert_eq!(x, expected);
}

#[test]
fn no_merge_non_subset() {
    // all(any(a, b), any(c, d)) -> all(any(a, b), any(c, d))
    let mut x: Expr<u32> = all(vec![any(vec![var(1), var(2)]), any(vec![var(3), var(4)])]);
    let expected: Expr<u32> = all(vec![any(vec![var(1), var(2)]), any(vec![var(3), var(4)])]);

    if let Expr::All(list) = &mut x {
        MergeAllOfAny.visit_mut_all(list);
    } else {
        panic!("not a conjunction");
    }

    assert_eq!(x, expected);
}

#[test]
fn merge_with_mixed_expressions() {
    // all(var(1), any(a, b), any(a)) -> all(var(1), any(a))
    let mut x: Expr<u32> = all(vec![var(1), any(vec![var(2), var(3)]), any(vec![var(2)])]);
    let expected: Expr<u32> = all(vec![var(1), any(vec![var(2)])]);

    if let Expr::All(list) = &mut x {
        MergeAllOfAny.visit_mut_all(list);
    } else {
        panic!("not a conjunction");
    }

    assert_eq!(x, expected);
}

#[test]
fn merge_empty_subset() {
    // all(any(a, b), any()) -> all(any())
    // Empty any is subset of any non-empty any
    let mut x: Expr<u32> = all(vec![any(vec![var(1), var(2)]), any(vec![])]);
    let expected: Expr<u32> = all(vec![any(vec![])]);

    if let Expr::All(list) = &mut x {
        MergeAllOfAny.visit_mut_all(list);
    } else {
        panic!("not a conjunction");
    }

    assert_eq!(x, expected);
}
