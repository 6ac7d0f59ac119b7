use bool_logic::ast::{all, any, const_, not, var, Expr};
use bool_logic::driver::{apply_pass, simplify, NotConverged};

fn value(e: &Expr<u32>, env: &dyn Fn(u32) -> bool) -> bool {
    match e {
        Expr::Any(list) => list.iter().any(|x| value(x, env)),
        Expr::All(list) => list.iter().all(|x| value(x, env)),
        Expr::Not(b) => !value(b, env),
        Expr::Var(x) => env(*x),
        Expr::Const(c) => *c,
    }
}

fn same_table(a: &Expr<u32>, b: &Expr<u32>, vars: u32) -> bool {
    (0..(1u32 << vars)).all(|bits| {
        let env = move |x: u32| (bits >> (x - 1)) & 1 == 1;
        value(a, &env) == value(b, &env)
    })
}

fn sample() -> Expr<u32> {
    all(vec![
        not(any(vec![var(1), var(2)])),
        any(vec![var(1), var(3), const_(false)]),
        any(vec![any(vec![var(3)]), var(3), var(4)]),
        not(not(var(4))),
    ])
}

#[test]
fn simplify_de_morgan_fully_normalizes() {
    let x: Expr<u32> = not(all(vec![any(vec![var(1), var(2)]), any(vec![var(3), var(4)])]));
    let expected: Expr<u32> = any(vec![
        all(vec![not(var(1)), not(var(2))]),
        all(vec![not(var(3)), not(var(4))]),
    ]);
    assert_eq!(simplify(x, false, 16), Ok(expected));
}

#[test]
fn simplify_is_idempotent() {
    let once = simplify(sample(), false, 32).unwrap();
    let twice = simplify(once.deep_copy(), false, 1).unwrap();
    assert_eq!(once, twice);
}

#[test]
fn simplify_keeps_truth_table() {
    let once = simplify(sample(), false, 32).unwrap();
    assert!(same_table(&sample(), &once, 4));
    let with_short_circuit = simplify(sample(), true, 32).unwrap();
    assert!(same_table(&sample(), &with_short_circuit, 4));
}

#[test]
fn simplify_sample_result() {
    // not(a | b) & (a | c) & (c | d) & d
    let expected: Expr<u32> = all(vec![
        not(any(vec![var(1), var(2)])),
        var(3),
        var(4),
    ]);
    let got = simplify(sample(), false, 32).unwrap();
    assert!(same_table(&got, &expected, 4));
}

#[test]
fn simplify_reports_no_convergence() {
    assert_eq!(simplify(sample(), false, 0), Err(NotConverged { rounds: 0 }));
}

#[test]
fn simplify_empty_lists() {
    assert_eq!(simplify(any::<u32>(vec![]), false, 4), Ok(const_(false)));
    assert_eq!(simplify(all::<u32>(vec![]), false, 4), Ok(const_(true)));
    assert_eq!(simplify(any(vec![var(7u32)]), false, 4), Ok(var(7)));
}

#[test]
fn one_pass_keeps_truth_table() {
    let mut x = sample();
    apply_pass(&mut x, true);
    assert!(same_table(&sample(), &x, 4));
}

#[test]
fn short_circuit_truth_table() {
    let x: Expr<u32> = any(vec![
        var(1),
        all(vec![var(2), not(var(1))]),
        var(1),
        all(vec![any(vec![var(1), var(3)]), var(2)]),
    ]);
    let mut y = x.deep_copy();
    bool_logic::simplify_by_short_circuit::SimplifyByShortCircuit.visit_mut_expr(&mut y);
    assert!(same_table(&x, &y, 3));
    assert_ne!(x, y);
}
