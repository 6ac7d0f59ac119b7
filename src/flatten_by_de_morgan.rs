use vstd::prelude::*;
use crate::ast::{eval, lemma_eval_lists, model, models, take_at, Expr, Formula};
use crate::visit_mut::{everywhere, lemma_rewritten_fixed, rewritten, walk_in_place, Rewrite};

verus! {

broadcast use vstd::std_specs::vec::group_vec_axioms;

/// Negates every formula of the sequence, element by element.
pub open spec fn negate_list<T>(s: Seq<Formula<T>>) -> Seq<Formula<T>>
    decreases s,
{
    Seq::new(
        s.len(),
        |i: int|
            if 0 <= i < s.len() {
                negate(s[i])
            } else {
                Formula::Const(false)
            },
    )
}

/// The negation of `f`, carried by De Morgan's laws through every list at its top:
/// a disjunction becomes the conjunction of the negated elements and dually; any
/// other formula is wrapped in a negation.
pub open spec fn negate<T>(f: Formula<T>) -> Formula<T>
    decreases f,
{
    match f {
        Formula::Any(s) => Formula::All(negate_list(s)),
        Formula::All(s) => Formula::Any(negate_list(s)),
        _ => Formula::Not(Box::new(f)),
    }
}

/// The negation of a disjunction or conjunction is pushed into its elements by De
/// Morgan's laws, as deep as lists reach.
pub open spec fn de_morgan_node<T>(f: Formula<T>) -> Formula<T> {
    match f {
        Formula::Not(b) => negate(*b),
        _ => f,
    }
}

/// `negate` gives a formula of the opposite value.
pub proof fn lemma_negate_sound<T>(f: Formula<T>, env: spec_fn(T) -> bool)
    ensures
        eval(negate(f), env) == !eval(f, env),
    decreases f,
{
    match f {
        Formula::Any(s) => {
            let c = negate_list(s);
            assert forall|i: int| 0 <= i < s.len() implies eval(#[trigger] c[i], env) == !eval(
                s[i],
                env,
            ) by {
                lemma_negate_sound(s[i], env);
            }
            lemma_eval_lists(s, env);
            lemma_eval_lists(c, env);
            if !eval(Formula::All(c), env) {
                let i = choose|i: int| 0 <= i < c.len() && !eval(#[trigger] c[i], env);
                assert(eval(s[i], env));
            }
            if eval(Formula::Any(s), env) {
                let i = choose|i: int| 0 <= i < s.len() && eval(#[trigger] s[i], env);
                assert(!eval(c[i], env));
            }
        },
        Formula::All(s) => {
            let c = negate_list(s);
            assert forall|i: int| 0 <= i < s.len() implies eval(#[trigger] c[i], env) == !eval(
                s[i],
                env,
            ) by {
                lemma_negate_sound(s[i], env);
            }
            lemma_eval_lists(s, env);
            lemma_eval_lists(c, env);
            if !eval(Formula::All(s), env) {
                let i = choose|i: int| 0 <= i < s.len() && !eval(#[trigger] s[i], env);
                assert(eval(c[i], env));
            }
            if eval(Formula::Any(c), env) {
                let i = choose|i: int| 0 <= i < c.len() && eval(#[trigger] c[i], env);
                assert(!eval(s[i], env));
            }
        },
        _ => {},
    }
}

fn negate_vec<T>(v: Vec<Expr<T>>) -> (w: Vec<Expr<T>>)
    ensures
        models(w) == negate_list(models(v)),
    decreases v,
{
    let mut w = v;
    let n = w.len();
    let mut i: usize = 0;
    while i < n
        invariant
            w.len() == n == v.len(),
            0 <= i <= n,
            forall|j: int| 0 <= j < i ==> model(#[trigger] w[j]) == negate(model(v[j])),
            forall|j: int| i <= j < n ==> #[trigger] w[j] == v[j],
        decreases n - i,
    {
        let x = take_at(&mut w, i);
        proof {
            assert(decreases_to!(v => v[i as int]));
        }
        let y = negate_expr(x);
        w[i] = y;
        i = i + 1;
    }
    proof {
        assert(models(w) =~= negate_list(models(v)));
    }
    w
}

fn negate_expr<T>(e: Expr<T>) -> (r: Expr<T>)
    ensures
        r@ == negate(e@),
    decreases e,
{
    match e {
        Expr::Any(v) => Expr::All(negate_vec(v)),
        Expr::All(v) => Expr::Any(negate_vec(v)),
        e => Expr::Not(Box::new(e)),
    }
}

/// A negation at this node negates a variable or a constant only.
pub open spec fn negation_normal_at<T>(f: Formula<T>) -> bool {
    match f {
        Formula::Not(b) => *b is Var || *b is Const,
        _ => true,
    }
}

/// A tree whose negations all negate variables or constants is left unchanged.
pub proof fn lemma_de_morgan_idempotent<T>(f: Formula<T>)
    requires
        everywhere(f, |g: Formula<T>| negation_normal_at(g)),
    ensures
        rewritten::<T, FlattenByDeMorgan>(f) == f,
{
    lemma_rewritten_fixed::<T, FlattenByDeMorgan>(f, |g: Formula<T>| negation_normal_at(g));
}

/// Pushes negations of lists down by De Morgan's laws.
pub struct FlattenByDeMorgan;

impl<T> Rewrite<T> for FlattenByDeMorgan {
    open spec fn node(f: Formula<T>) -> Formula<T> {
        de_morgan_node(f)
    }

    proof fn lemma_node_sound(f: Formula<T>, env: spec_fn(T) -> bool) {
        match f {
            Formula::Not(b) => lemma_negate_sound(*b, env),
            _ => {},
        }
    }

    fn rewrite_node(&self, e: Expr<T>) -> (r: Expr<T>) {
        let ghost fe = e@;
        match e {
            Expr::Not(b) => {
                assert(fe == Formula::Not(Box::new(model(*b))));
                negate_expr(*b)
            },
            e => e,
        }
    }
}

impl FlattenByDeMorgan {
    pub fn visit_mut_expr<T>(&mut self, expr: &mut Expr<T>)
        ensures
            final(expr)@ == rewritten::<T, FlattenByDeMorgan>(old(expr)@),
    {
        walk_in_place(self, expr);
    }
}

} // verus!
