use bool_logic::ast::{all, any, const_, not, var, Expr};
use bool_logic::eval_const::EvalConst;
use bool_logic::merge_all_of_any::{is_subset_of, MergeAllOfAny};
use bool_logic::merge_all_of_not_any::MergeAllOfNotAny;
use bool_logic::utils::{drain_filter, remove_if};

#[test]
fn remove_if_keeps_order() {
    let mut v = vec![1, 2, 3, 4, 5, 6];
    remove_if(&mut v, |x: &i32| *x % 2 == 0);
    assert_eq!(v, vec![1, 3, 5]);
}

#[test]
fn remove_if_empty_and_none() {
    let mut v: Vec<i32> = vec![];
    remove_if(&mut v, |_x: &i32| true);
    assert!(v.is_empty());
    let mut w = vec![3, 1, 2];
    remove_if(&mut w, |_x: &i32| false);
    assert_eq!(w, vec![3, 1, 2]);
}

#[test]
fn drain_filter_splits_in_order() {
    let mut v = vec![5, 8, 1, 6, 7, 2];
    let removed = drain_filter(&mut v, |x: &i32| *x > 5);
    assert_eq!(removed, vec![8, 6, 7]);
    assert_eq!(v, vec![5, 1, 2]);
}

#[test]
fn eval_any_values() {
    let mut v: Vec<Expr<u32>> = vec![const_(false), var(1), const_(false)];
    assert_eq!(EvalConst::eval_any(&mut v), None);
    assert_eq!(v, vec![var(1)]);
    let mut w: Vec<Expr<u32>> = vec![const_(false)];
    assert_eq!(EvalConst::eval_any(&mut w), Some(false));
    let mut u: Vec<Expr<u32>> = vec![var(2), const_(true)];
    assert_eq!(EvalConst::eval_any(&mut u), Some(true));
}

#[test]
fn eval_all_and_not_values() {
    let mut v: Vec<Expr<u32>> = vec![const_(true), var(1)];
    assert_eq!(EvalConst::eval_all(&mut v), None);
    assert_eq!(v, vec![var(1)]);
    let mut w: Vec<Expr<u32>> = vec![var(1), const_(false)];
    assert_eq!(EvalConst::eval_all(&mut w), Some(false));
    assert_eq!(EvalConst::eval_not(&const_::<u32>(true)), Some(false));
    assert_eq!(EvalConst::eval_not(&var(3u32)), None);
}

#[test]
fn subset_check() {
    let a: Vec<Expr<u32>> = vec![var(1), var(2)];
    let b: Vec<Expr<u32>> = vec![var(2), var(3), var(1)];
    assert!(is_subset_of(&a, &b));
    assert!(!is_subset_of(&b, &a));
    assert!(is_subset_of(&vec![], &a));
}

#[test]
fn merge_all_of_any_equal_lists_keep_first() {
    let mut x: Expr<u32> = all(vec![
        any(vec![var(1), var(2)]),
        var(9),
        any(vec![var(2), var(1)]),
    ]);
    MergeAllOfAny.visit_mut_expr(&mut x);
    assert_eq!(x, all(vec![any(vec![var(1), var(2)]), var(9)]));
}

#[test]
fn merge_all_empty_not_any_does_not_panic() {
    let mut x: Expr<u32> = all(vec![not(any(vec![])), not(any(vec![])), not(var(1))]);
    MergeAllOfNotAny.visit_mut_expr(&mut x);
    assert_eq!(x, all(vec![not(var(1))]));
}

#[test]
fn merge_all_of_not_any_nested() {
    let mut x: Expr<u32> = any(vec![
        var(7),
        all(vec![not(var(1)), not(any(vec![var(2)])), not(any(vec![var(3)]))]),
    ]);
    MergeAllOfNotAny.visit_mut_expr(&mut x);
    assert_eq!(
        x,
        any(vec![var(7), all(vec![not(any(vec![var(2), var(3), var(1)]))])])
    );
}
