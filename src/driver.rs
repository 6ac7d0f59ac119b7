use vstd::prelude::*;
use crate::ast::{eval, Atom, Expr, Formula};
use crate::dedup_list::DedupList;
use crate::eval_const::EvalConst;
use crate::flatten_by_de_morgan::FlattenByDeMorgan;
use crate::flatten_nested_list::FlattenNestedList;
use crate::flatten_single::FlattenSingle;
use crate::merge_all_of_any::MergeAllOfAny;
use crate::merge_all_of_not_any::MergeAllOfNotAny;
use crate::simplify_all_not_any::SimplifyAllNotAny;
use crate::simplify_by_short_circuit::{lemma_short_circuit_sound, SimplifyByShortCircuit};
use crate::simplify_nested_list::SimplifyNestedList;
use crate::visit_mut::{lemma_rewritten_sound, rewritten};

verus! {

/// One pass of every rule, in this order: negations pushed down, lists flattened,
/// singletons collapsed, constants folded, repeats removed, redundant nested lists
/// dropped, negated disjunctions merged, subsumed elements dropped, weaker
/// disjunctions dropped, and, when `short_circuit` is set, repeated variables
/// replaced by their short-circuit constants.
pub open spec fn pass<T: Atom>(f: Formula<T>, short_circuit: bool) -> Formula<T> {
    let f1 = rewritten::<T, FlattenByDeMorgan>(f);
    let f2 = rewritten::<T, FlattenNestedList>(f1);
    let f3 = rewritten::<T, FlattenSingle>(f2);
    let f4 = rewritten::<T, EvalConst>(f3);
    let f5 = rewritten::<T, DedupList>(f4);
    let f6 = rewritten::<T, SimplifyNestedList>(f5);
    let f7 = rewritten::<T, MergeAllOfNotAny>(f6);
    let f8 = rewritten::<T, SimplifyAllNotAny>(f7);
    let f9 = rewritten::<T, MergeAllOfAny>(f8);
    if short_circuit {
        crate::simplify_by_short_circuit::short_circuit(f9)
    } else {
        f9
    }
}

/// Runs passes from `f`, at most `rounds` of them: the formula that the first pass
/// leaves unchanged, or `None` when each of them changes it.
pub open spec fn run<T: Atom>(f: Formula<T>, short_circuit: bool, rounds: nat) -> Option<Formula<T>>
    decreases rounds,
{
    if rounds == 0 {
        None
    } else if pass(f, short_circuit) == f {
        Some(f)
    } else {
        run(pass(f, short_circuit), short_circuit, (rounds - 1) as nat)
    }
}

/// The passes did not reach a fixed point within the allowed number of rounds: the
/// rules interact in a way that they should not.
#[derive(Debug, PartialEq, Eq)]
pub struct NotConverged {
    pub rounds: usize,
}

/// Applies one pass of every rule to `expr`.
pub fn apply_pass<T: Atom>(expr: &mut Expr<T>, short_circuit: bool)
    ensures
        final(expr)@ == pass(old(expr)@, short_circuit),
{
    FlattenByDeMorgan.visit_mut_expr(expr);
    FlattenNestedList.visit_mut_expr(expr);
    FlattenSingle.visit_mut_expr(expr);
    EvalConst.visit_mut_expr(expr);
    DedupList.visit_mut_expr(expr);
    SimplifyNestedList.visit_mut_expr(expr);
    MergeAllOfNotAny.visit_mut_expr(expr);
    SimplifyAllNotAny.visit_mut_expr(expr);
    MergeAllOfAny.visit_mut_expr(expr);
    if short_circuit {
        SimplifyByShortCircuit.visit_mut_expr(expr);
    }
}

/// Applies passes of every rule until one leaves the tree unchanged, and returns
/// that tree; fails when `max_rounds` passes do not get there.
pub fn simplify<T: Atom>(expr: Expr<T>, short_circuit: bool, max_rounds: usize) -> (r: Result<
    Expr<T>,
    NotConverged,
>)
    ensures
        r is Ok <==> run(expr@, short_circuit, max_rounds as nat) is Some,
        r is Ok ==> run(expr@, short_circuit, max_rounds as nat) == Some(r->Ok_0@),
        r is Err ==> r->Err_0 == (NotConverged { rounds: max_rounds }),
{
    let mut e = expr;
    let mut round: usize = 0;
    while round < max_rounds
        invariant
            0 <= round <= max_rounds,
            run(e@, short_circuit, (max_rounds - round) as nat) == run(
                expr@,
                short_circuit,
                max_rounds as nat,
            ),
        decreases max_rounds - round,
    {
        let before = e.deep_copy();
        apply_pass(&mut e, short_circuit);
        if e.same(&before) {
            return Ok(e);
        }
        round = round + 1;
    }
    Err(NotConverged { rounds: max_rounds })
}

/// A pass keeps the value of the formula under every assignment.
pub proof fn lemma_pass_sound<T: Atom>(f: Formula<T>, short_circuit: bool, env: spec_fn(T) -> bool)
    ensures
        eval(pass(f, short_circuit), env) == eval(f, env),
{
    let f1 = rewritten::<T, FlattenByDeMorgan>(f);
    let f2 = rewritten::<T, FlattenNestedList>(f1);
    let f3 = rewritten::<T, FlattenSingle>(f2);
    let f4 = rewritten::<T, EvalConst>(f3);
    let f5 = rewritten::<T, DedupList>(f4);
    let f6 = rewritten::<T, SimplifyNestedList>(f5);
    let f7 = rewritten::<T, MergeAllOfNotAny>(f6);
    let f8 = rewritten::<T, SimplifyAllNotAny>(f7);
    let f9 = rewritten::<T, MergeAllOfAny>(f8);
    lemma_rewritten_sound::<T, FlattenByDeMorgan>(f, env);
    lemma_rewritten_sound::<T, FlattenNestedList>(f1, env);
    lemma_rewritten_sound::<T, FlattenSingle>(f2, env);
    lemma_rewritten_sound::<T, EvalConst>(f3, env);
    lemma_rewritten_sound::<T, DedupList>(f4, env);
    lemma_rewritten_sound::<T, SimplifyNestedList>(f5, env);
    lemma_rewritten_sound::<T, MergeAllOfNotAny>(f6, env);
    lemma_rewritten_sound::<T, SimplifyAllNotAny>(f7, env);
    lemma_rewritten_sound::<T, MergeAllOfAny>(f8, env);
    lemma_short_circuit_sound(f9, env);
}

/// What `run` returns is a fixed point of a pass.
pub proof fn lemma_run_fixed<T: Atom>(f: Formula<T>, short_circuit: bool, rounds: nat)
    ensures
        run(f, short_circuit, rounds) matches Some(g) ==> pass(g, short_circuit) == g,
    decreases rounds,
{
    if rounds > 0 && pass(f, short_circuit) != f {
        lemma_run_fixed(pass(f, short_circuit), short_circuit, (rounds - 1) as nat);
    }
}

/// Simplifying keeps the value of the formula under every assignment.
pub proof fn lemma_simplify_sound<T: Atom>(
    f: Formula<T>,
    short_circuit: bool,
    rounds: nat,
    env: spec_fn(T) -> bool,
)
    ensures
        run(f, short_circuit, rounds) matches Some(g) ==> eval(g, env) == eval(f, env),
    decreases rounds,
{
    if rounds > 0 && pass(f, short_circuit) != f {
        lemma_pass_sound(f, short_circuit, env);
        lemma_simplify_sound(pass(f, short_circuit), short_circuit, (rounds - 1) as nat, env);
    }
}

/// Simplifying a simplified formula again, with any number of rounds allowed, gives
/// it back unchanged.
pub proof fn lemma_simplify_idempotent<T: Atom>(
    f: Formula<T>,
    short_circuit: bool,
    rounds: nat,
    again: nat,
)
    requires
        run(f, short_circuit, rounds) is Some,
        again >= 1,
    ensures
        run(run(f, short_circuit, rounds)->Some_0, short_circuit, again) == run(
            f,
            short_circuit,
            rounds,
        ),
{
    lemma_run_fixed(f, short_circuit, rounds);
}

} // verus!
