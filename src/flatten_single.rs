use vstd::prelude::*;
use crate::ast::{eval, lemma_eval_lists, model, models, take_at, Expr, Formula};
use crate::visit_mut::{everywhere, lemma_rewritten_fixed, rewritten, walk_in_place, Rewrite};

verus! {

/// An empty disjunction becomes `false`, an empty conjunction `true`, a one-element
/// list its element, and a double negation what it negates.
pub open spec fn collapse_node<T>(f: Formula<T>) -> Formula<T> {
    match f {
        Formula::Any(c) => if c.len() == 0 {
            Formula::Const(false)
        } else if c.len() == 1 {
            c[0]
        } else {
            f
        },
        Formula::All(c) => if c.len() == 0 {
            Formula::Const(true)
        } else if c.len() == 1 {
            c[0]
        } else {
            f
        },
        Formula::Not(b) => match *b {
            Formula::Not(d) => *d,
            _ => f,
        },
        _ => f,
    }
}

/// No list of fewer than two elements and no double negation at this node.
pub open spec fn collapsed_at<T>(f: Formula<T>) -> bool {
    match f {
        Formula::Any(s) => s.len() >= 2,
        Formula::All(s) => s.len() >= 2,
        Formula::Not(b) => !(*b is Not),
        _ => true,
    }
}

/// A tree with no list of fewer than two elements and no double negation is left
/// unchanged.
pub proof fn lemma_collapse_idempotent<T>(f: Formula<T>)
    requires
        everywhere(f, |g: Formula<T>| collapsed_at(g)),
    ensures
        rewritten::<T, FlattenSingle>(f) == f,
{
    lemma_rewritten_fixed::<T, FlattenSingle>(f, |g: Formula<T>| collapsed_at(g));
}

/// Collapses empty and one-element lists and double negations.
pub struct FlattenSingle;

impl<T> Rewrite<T> for FlattenSingle {
    open spec fn node(f: Formula<T>) -> Formula<T> {
        collapse_node(f)
    }

    proof fn lemma_node_sound(f: Formula<T>, env: spec_fn(T) -> bool) {
        match f {
            Formula::Any(c) => {
                lemma_eval_lists(c, env);
                if c.len() == 1 {
                    assert(eval(c[0], env) ==> eval(f, env));
                }
            },
            Formula::All(c) => {
                lemma_eval_lists(c, env);
                if c.len() == 1 {
                    assert(!eval(c[0], env) ==> !eval(f, env));
                }
            },
            Formula::Not(b) => {
                match *b {
                    Formula::Not(d) => {
                        assert(eval(*b, env) == !eval(*d, env));
                    },
                    _ => {},
                }
            },
            _ => {},
        }
    }

    fn rewrite_node(&self, e: Expr<T>) -> (r: Expr<T>) {
        let ghost fe = e@;
        match e {
            Expr::Any(mut w) => {
                assert(fe == Formula::Any(models(w)));
                let n = w.len();
                if n == 0 {
                    Expr::Const(false)
                } else if n == 1 {
                    take_at(&mut w, 0)
                } else {
                    Expr::Any(w)
                }
            },
            Expr::All(mut w) => {
                assert(fe == Formula::All(models(w)));
                let n = w.len();
                if n == 0 {
                    Expr::Const(true)
                } else if n == 1 {
                    take_at(&mut w, 0)
                } else {
                    Expr::All(w)
                }
            },
            Expr::Not(b) => {
                assert(fe == Formula::Not(Box::new(model(*b))));
                match *b {
                    Expr::Not(d) => {
                        assert(model(*b) == Formula::Not(Box::new(model(*d))));
                        *d
                    },
                    c => Expr::Not(Box::new(c)),
                }
            },
            e => e,
        }
    }
}

impl FlattenSingle {
    pub fn visit_mut_expr<T>(&mut self, expr: &mut Expr<T>)
        ensures
            final(expr)@ == rewritten::<T, FlattenSingle>(old(expr)@),
    {
        walk_in_place(self, expr);
    }
}

} // verus!
