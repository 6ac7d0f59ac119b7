use vstd::prelude::*;
use crate::ast::{
    eval, lemma_eval_lists, lemma_models_map, lemma_select_sound, model, models, Expr, Formula,
};
use crate::visit_mut::{everywhere, lemma_rewritten_fixed, rewritten, walk_in_place, Rewrite};
use crate::utils::{lemma_select_all, lemma_select_map, remove_if, select};

verus! {

broadcast use vstd::std_specs::vec::group_vec_axioms;

/// Marks the elements of `s` that are the constant `b`.
pub open spec fn const_hits<T>(s: Seq<Formula<T>>, b: bool) -> Seq<bool> {
    s.map_values(|x: Formula<T>| x == Formula::<T>::Const(b))
}

/// The sequence without its elements equal to the constant `b`.
pub open spec fn drop_const<T>(s: Seq<Formula<T>>, b: bool) -> Seq<Formula<T>> {
    select(s, const_hits(s, b), false)
}

/// Drops `false` from a disjunction and `true` from a conjunction; a disjunction
/// left empty is `false`, one holding `true` is `true` (dually for conjunctions);
/// the negation of a constant is the opposite constant.
pub open spec fn fold_node<T>(f: Formula<T>) -> Formula<T> {
    match f {
        Formula::Any(s) => {
            let c = drop_const(s, false);
            if c.len() == 0 {
                Formula::Const(false)
            } else if c.contains(Formula::Const(true)) {
                Formula::Const(true)
            } else {
                Formula::Any(c)
            }
        },
        Formula::All(s) => {
            let c = drop_const(s, true);
            if c.len() == 0 {
                Formula::Const(true)
            } else if c.contains(Formula::Const(false)) {
                Formula::Const(false)
            } else {
                Formula::All(c)
            }
        },
        Formula::Not(b) => match *b {
            Formula::Const(v) => Formula::Const(!v),
            _ => f,
        },
        _ => f,
    }
}

proof fn lemma_drop_const_sound<T>(s: Seq<Formula<T>>, env: spec_fn(T) -> bool)
    ensures
        eval(Formula::Any(drop_const(s, false)), env) == eval(Formula::Any(s), env),
        eval(Formula::All(drop_const(s, true)), env) == eval(Formula::All(s), env),
{
    lemma_select_sound(s, const_hits(s, false), env);
    lemma_select_sound(s, const_hits(s, true), env);
}

/// At this node, no list is empty or holds a constant, and no negation negates a
/// constant.
pub open spec fn const_free_at<T>(f: Formula<T>) -> bool {
    match f {
        Formula::Any(s) => s.len() > 0 && forall|i: int| 0 <= i < s.len() ==> !(#[trigger] s[i] is Const),
        Formula::All(s) => s.len() > 0 && forall|i: int| 0 <= i < s.len() ==> !(#[trigger] s[i] is Const),
        Formula::Not(b) => !(*b is Const),
        _ => true,
    }
}

proof fn lemma_drop_const_none<T>(s: Seq<Formula<T>>, b: bool)
    requires
        forall|i: int| 0 <= i < s.len() ==> !(#[trigger] s[i] is Const),
    ensures
        drop_const(s, b) == s,
{
    lemma_select_all(s, const_hits(s, b), false);
}

/// A tree with no empty list, no constant in a list and no negated constant is left
/// unchanged.
pub proof fn lemma_fold_const_idempotent<T>(f: Formula<T>)
    requires
        everywhere(f, |g: Formula<T>| const_free_at(g)),
    ensures
        rewritten::<T, EvalConst>(f) == f,
{
    assert forall|g: Formula<T>| #[trigger] const_free_at(g) implies <EvalConst as Rewrite<T>>::node(g) == g by {
        match g {
            Formula::Any(s) => {
                lemma_drop_const_none(s, false);
                if s.contains(Formula::Const(true)) {
                    let j = choose|j: int| 0 <= j < s.len() && s[j] == Formula::<T>::Const(true);
                    assert(s[j] is Const);
                }
            },
            Formula::All(s) => {
                lemma_drop_const_none(s, true);
                if s.contains(Formula::Const(false)) {
                    let j = choose|j: int| 0 <= j < s.len() && s[j] == Formula::<T>::Const(false);
                    assert(s[j] is Const);
                }
            },
            _ => {},
        }
    }
    lemma_rewritten_fixed::<T, EvalConst>(f, |g: Formula<T>| const_free_at(g));
}

fn is_const<T>(x: &Expr<T>, b: bool) -> (r: bool)
    ensures
        r == (model(*x) == Formula::<T>::Const(b)),
{
    match x {
        Expr::Const(c) => *c == b,
        _ => false,
    }
}

/// Whether the list holds the constant `b`.
fn has_const<T>(v: &Vec<Expr<T>>, b: bool) -> (r: bool)
    ensures
        r == models(*v).contains(Formula::Const(b)),
{
    let mut i: usize = 0;
    while i < v.len()
        invariant
            0 <= i <= v.len(),
            forall|j: int| 0 <= j < i ==> models(*v)[j] != Formula::<T>::Const(b),
        decreases v.len() - i,
    {
        if is_const(&v[i], b) {
            assert(models(*v)[i as int] == Formula::<T>::Const(b));
            return true;
        }
        i = i + 1;
    }
    false
}

/// Removes every constant `b` from the list.
fn drop_const_vec<T>(v: &mut Vec<Expr<T>>, b: bool)
    ensures
        models(*final(v)) == drop_const(models(*old(v)), b),
{
    let ghost v0 = *v;
    let pred = |x: &Expr<T>| -> (r: bool)
        ensures
            r == (model(*x) == Formula::<T>::Const(b)),
        { is_const(x, b) };
    remove_if(v, pred);
    proof {
        let hits = choose|hits: Seq<bool>|
            {
                &&& hits.len() == v0.len()
                &&& forall|i: int|
                    0 <= i < hits.len() ==> pred.ensures((&v0[i],), #[trigger] hits[i])
                &&& v@ == select(v0@, hits, false)
            };
        assert(hits =~= const_hits(models(v0), b));
        lemma_models_map(v0);
        lemma_models_map(*v);
        lemma_select_map(v0@, hits, false, |e: Expr<T>| model(e));
    }
}

/// Evaluates constants: drops neutral constants from lists, and replaces a list or a
/// negation whose value the constants decide by that value.
pub struct EvalConst;

impl<T> Rewrite<T> for EvalConst {
    open spec fn node(f: Formula<T>) -> Formula<T> {
        fold_node(f)
    }

    proof fn lemma_node_sound(f: Formula<T>, env: spec_fn(T) -> bool) {
        match f {
            Formula::Any(s) => {
                lemma_drop_const_sound(s, env);
                let c = drop_const(s, false);
                lemma_eval_lists(c, env);
                if c.contains(Formula::Const(true)) {
                    let j = choose|j: int| 0 <= j < c.len() && c[j] == Formula::<T>::Const(true);
                    assert(eval(c[j], env));
                }
            },
            Formula::All(s) => {
                lemma_drop_const_sound(s, env);
                let c = drop_const(s, true);
                lemma_eval_lists(c, env);
                if c.contains(Formula::Const(false)) {
                    let j = choose|j: int| 0 <= j < c.len() && c[j] == Formula::<T>::Const(false);
                    assert(!eval(c[j], env));
                }
            },
            Formula::Not(b) => match *b {
                Formula::Const(v) => {
                    assert(eval(*b, env) == v);
                },
                _ => {},
            },
            _ => {},
        }
    }

    fn rewrite_node(&self, e: Expr<T>) -> (r: Expr<T>) {
        let ghost fe = e@;
        match e {
            Expr::Any(mut w) => {
                assert(fe == Formula::Any(models(w)));
                match EvalConst::eval_any(&mut w) {
                    Some(c) => Expr::Const(c),
                    None => Expr::Any(w),
                }
            },
            Expr::All(mut w) => {
                assert(fe == Formula::All(models(w)));
                match EvalConst::eval_all(&mut w) {
                    Some(c) => Expr::Const(c),
                    None => Expr::All(w),
                }
            },
            Expr::Not(b) => {
                assert(fe == Formula::Not(Box::new(model(*b))));
                match EvalConst::eval_not(&*b) {
                    Some(v) => Expr::Const(v),
                    None => Expr::Not(b),
                }
            },
            e => e,
        }
    }
}

impl EvalConst {
    /// Drops `false` from a disjunction's list, then gives the disjunction's value if
    /// the constants decide it.
    pub fn eval_any<T>(any: &mut Vec<Expr<T>>) -> (r: Option<bool>)
        ensures
            models(*final(any)) == drop_const(models(*old(any)), false),
            r == if models(*final(any)).len() == 0 {
                Some(false)
            } else if models(*final(any)).contains(Formula::Const(true)) {
                Some(true)
            } else {
                None::<bool>
            },
    {
        drop_const_vec(any, false);
        if any.len() == 0 {
            return Some(false);
        }
        if has_const(any, true) {
            return Some(true);
        }
        None
    }

    /// Drops `true` from a conjunction's list, then gives the conjunction's value if
    /// the constants decide it.
    pub fn eval_all<T>(all: &mut Vec<Expr<T>>) -> (r: Option<bool>)
        ensures
            models(*final(all)) == drop_const(models(*old(all)), true),
            r == if models(*final(all)).len() == 0 {
                Some(true)
            } else if models(*final(all)).contains(Formula::Const(false)) {
                Some(false)
            } else {
                None::<bool>
            },
    {
        drop_const_vec(all, true);
        if all.len() == 0 {
            return Some(true);
        }
        if has_const(all, false) {
            return Some(false);
        }
        None
    }

    /// The value of a negation of `not`, if `not` is a constant.
    pub fn eval_not<T>(not: &Expr<T>) -> (r: Option<bool>)
        ensures
            r == match model(*not) {
                Formula::Const(c) => Some(!c),
                _ => None::<bool>,
            },
    {
        match not {
            Expr::Const(c) => Some(!*c),
            _ => None,
        }
    }

    pub fn visit_mut_expr<T>(&mut self, expr: &mut Expr<T>)
        ensures
            final(expr)@ == rewritten::<T, EvalConst>(old(expr)@),
    {
        walk_in_place(self, expr);
    }
}

} // verus!
