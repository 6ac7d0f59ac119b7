use vstd::prelude::*;
use crate::ast::{eval, lemma_pointwise, model, models, take_at, Expr, Formula};

verus! {

broadcast use vstd::std_specs::vec::group_vec_axioms;

/// A rewrite rule, given by what it does to one node whose children it has already
/// rewritten. The walkers below apply it bottom-up to a whole tree.
pub trait Rewrite<T>: Sized {
    /// The node that the rule makes of `f`.
    spec fn node(f: Formula<T>) -> Formula<T>;

    /// The rule keeps the value of a node under every assignment.
    proof fn lemma_node_sound(f: Formula<T>, env: spec_fn(T) -> bool)
        ensures
            eval(Self::node(f), env) == eval(f, env),
    ;

    /// Rewrites one node whose children are already rewritten.
    fn rewrite_node(&self, e: Expr<T>) -> (r: Expr<T>)
        ensures
            r@ == Self::node(e@),
    ;
}

/// The rule `R` applied bottom-up: children first, then the node.
pub open spec fn rewritten<T, R: Rewrite<T>>(f: Formula<T>) -> Formula<T>
    decreases f,
{
    R::node(
        match f {
            Formula::Any(s) => Formula::Any(rewritten_list::<T, R>(s)),
            Formula::All(s) => Formula::All(rewritten_list::<T, R>(s)),
            Formula::Not(b) => Formula::Not(Box::new(rewritten::<T, R>(*b))),
            _ => f,
        },
    )
}

/// `rewritten` on every formula of the sequence, element by element.
pub open spec fn rewritten_list<T, R: Rewrite<T>>(s: Seq<Formula<T>>) -> Seq<Formula<T>>
    decreases s,
{
    Seq::new(
        s.len(),
        |i: int|
            if 0 <= i < s.len() {
                rewritten::<T, R>(s[i])
            } else {
                Formula::Const(false)
            },
    )
}

/// A rule that keeps the value of every node keeps the value of every tree.
pub proof fn lemma_rewritten_sound<T, R: Rewrite<T>>(f: Formula<T>, env: spec_fn(T) -> bool)
    ensures
        eval(rewritten::<T, R>(f), env) == eval(f, env),
    decreases f,
{
    let inner = match f {
        Formula::Any(s) => Formula::Any(rewritten_list::<T, R>(s)),
        Formula::All(s) => Formula::All(rewritten_list::<T, R>(s)),
        Formula::Not(b) => Formula::Not(Box::new(rewritten::<T, R>(*b))),
        _ => f,
    };
    R::lemma_node_sound(inner, env);
    match f {
        Formula::Any(s) => {
            lemma_rewritten_list_sound::<T, R>(s, env);
        },
        Formula::All(s) => {
            lemma_rewritten_list_sound::<T, R>(s, env);
        },
        Formula::Not(b) => {
            lemma_rewritten_sound::<T, R>(*b, env);
        },
        _ => {},
    }
}

proof fn lemma_rewritten_list_sound<T, R: Rewrite<T>>(s: Seq<Formula<T>>, env: spec_fn(T) -> bool)
    ensures
        eval(Formula::Any(rewritten_list::<T, R>(s)), env) == eval(Formula::Any(s), env),
        eval(Formula::All(rewritten_list::<T, R>(s)), env) == eval(Formula::All(s), env),
    decreases s,
{
    let c = rewritten_list::<T, R>(s);
    assert forall|i: int| 0 <= i < s.len() implies eval(#[trigger] s[i], env) == eval(c[i], env) by {
        lemma_rewritten_sound::<T, R>(s[i], env);
    }
    lemma_pointwise(s, c, env);
}

/// `p` holds at every node of `f`.
pub open spec fn everywhere<T>(f: Formula<T>, p: spec_fn(Formula<T>) -> bool) -> bool
    decreases f,
{
    p(f) && match f {
        Formula::Any(s) => everywhere_list(s, p),
        Formula::All(s) => everywhere_list(s, p),
        Formula::Not(b) => everywhere(*b, p),
        _ => true,
    }
}

/// `p` holds at every node of every formula of the sequence.
pub open spec fn everywhere_list<T>(s: Seq<Formula<T>>, p: spec_fn(Formula<T>) -> bool) -> bool
    decreases s,
{
    s.len() == 0 || (everywhere_list(s.drop_last(), p) && everywhere(s.last(), p))
}

proof fn lemma_everywhere_list<T>(s: Seq<Formula<T>>, p: spec_fn(Formula<T>) -> bool)
    requires
        everywhere_list(s, p),
    ensures
        forall|i: int| 0 <= i < s.len() ==> everywhere(#[trigger] s[i], p),
    decreases s.len(),
{
    if s.len() > 0 {
        let q = s.drop_last();
        lemma_everywhere_list(q, p);
        assert forall|i: int| 0 <= i < s.len() implies everywhere(#[trigger] s[i], p) by {
            if i < q.len() {
                assert(q[i] == s[i]);
            }
        }
    }
}

/// A rule that leaves unchanged every node where `p` holds leaves unchanged every
/// tree where `p` holds at every node.
pub proof fn lemma_rewritten_fixed<T, R: Rewrite<T>>(f: Formula<T>, p: spec_fn(Formula<T>) -> bool)
    requires
        forall|g: Formula<T>| #[trigger] p(g) ==> R::node(g) == g,
        everywhere(f, p),
    ensures
        rewritten::<T, R>(f) == f,
    decreases f,
{
    match f {
        Formula::Any(s) => {
            lemma_rewritten_list_fixed::<T, R>(s, p);
        },
        Formula::All(s) => {
            lemma_rewritten_list_fixed::<T, R>(s, p);
        },
        Formula::Not(b) => {
            lemma_rewritten_fixed::<T, R>(*b, p);
        },
        _ => {},
    }
}

proof fn lemma_rewritten_list_fixed<T, R: Rewrite<T>>(
    s: Seq<Formula<T>>,
    p: spec_fn(Formula<T>) -> bool,
)
    requires
        forall|g: Formula<T>| #[trigger] p(g) ==> R::node(g) == g,
        everywhere_list(s, p),
    ensures
        rewritten_list::<T, R>(s) == s,
    decreases s,
{
    lemma_everywhere_list(s, p);
    assert forall|i: int| 0 <= i < s.len() implies rewritten::<T, R>(#[trigger] s[i]) == s[i] by {
        lemma_rewritten_fixed::<T, R>(s[i], p);
    }
    assert(rewritten_list::<T, R>(s) =~= s);
}

/// Rewrites every element of the list bottom-up.
pub fn walk_mut_expr_list<T, R: Rewrite<T>>(rule: &R, list: &mut Vec<Expr<T>>)
    ensures
        models(*final(list)) == rewritten_list::<T, R>(models(*old(list))),
{
    let mut v: Vec<Expr<T>> = Vec::new();
    std::mem::swap(list, &mut v);
    *list = walk_list(rule, v);
}

fn walk_list<T, R: Rewrite<T>>(rule: &R, v: Vec<Expr<T>>) -> (w: Vec<Expr<T>>)
    ensures
        models(w) == rewritten_list::<T, R>(models(v)),
    decreases v,
{
    let mut w = v;
    let n = w.len();
    let mut i: usize = 0;
    while i < n
        invariant
            w.len() == n == v.len(),
            0 <= i <= n,
            forall|j: int| 0 <= j < i ==> model(#[trigger] w[j]) == rewritten::<T, R>(model(v[j])),
            forall|j: int| i <= j < n ==> #[trigger] w[j] == v[j],
        decreases n - i,
    {
        let x = take_at(&mut w, i);
        proof {
            assert(decreases_to!(v => v[i as int]));
        }
        let y = walk_mut_expr(rule, x);
        w[i] = y;
        i = i + 1;
    }
    proof {
        assert(models(w) =~= rewritten_list::<T, R>(models(v)));
    }
    w
}

/// Rewrites the whole tree bottom-up: each node after its children.
pub fn walk_mut_expr<T, R: Rewrite<T>>(rule: &R, e: Expr<T>) -> (r: Expr<T>)
    ensures
        r@ == rewritten::<T, R>(e@),
    decreases e,
{
    let inner = match e {
        Expr::Any(v) => Expr::Any(walk_list(rule, v)),
        Expr::All(v) => Expr::All(walk_list(rule, v)),
        Expr::Not(b) => Expr::Not(Box::new(walk_mut_expr(rule, *b))),
        e => e,
    };
    rule.rewrite_node(inner)
}

/// Rewrites the tree behind `expr` bottom-up, in place.
pub fn walk_in_place<T, R: Rewrite<T>>(rule: &R, expr: &mut Expr<T>)
    ensures
        final(expr)@ == rewritten::<T, R>(old(expr)@),
{
    let mut e = Expr::Const(false);
    std::mem::swap(expr, &mut e);
    *expr = walk_mut_expr(rule, e);
}

} // verus!
