use vstd::prelude::*;
use crate::ast::{eval, lemma_concat, lemma_eval_lists, lemma_single, model, models, take_at, Expr, Formula};
use crate::visit_mut::{
    everywhere, lemma_rewritten_fixed, rewritten, rewritten_list, walk_in_place, walk_mut_expr_list,
    Rewrite,
};

verus! {

broadcast use vstd::std_specs::vec::group_vec_axioms;

/// The elements of a disjunction's list, with each direct disjunction replaced by its
/// own elements, in order.
pub open spec fn splice_any<T>(s: Seq<Formula<T>>) -> Seq<Formula<T>>
    decreases s.len(),
{
    if s.len() == 0 {
        Seq::empty()
    } else {
        splice_any(s.drop_last()) + match s.last() {
            Formula::Any(t) => t,
            x => seq![x],
        }
    }
}

/// The elements of a conjunction's list, with each direct conjunction replaced by its
/// own elements, in order.
pub open spec fn splice_all<T>(s: Seq<Formula<T>>) -> Seq<Formula<T>>
    decreases s.len(),
{
    if s.len() == 0 {
        Seq::empty()
    } else {
        splice_all(s.drop_last()) + match s.last() {
            Formula::All(t) => t,
            x => seq![x],
        }
    }
}

/// A disjunction nested directly in a disjunction (a conjunction in a conjunction)
/// is spliced into its parent.
pub open spec fn flatten_node<T>(f: Formula<T>) -> Formula<T> {
    match f {
        Formula::Any(s) => Formula::Any(splice_any(s)),
        Formula::All(s) => Formula::All(splice_all(s)),
        _ => f,
    }
}

/// No disjunction at this node holds a disjunction directly, and no conjunction a
/// conjunction.
pub open spec fn flat_at<T>(f: Formula<T>) -> bool {
    match f {
        Formula::Any(s) => forall|i: int| 0 <= i < s.len() ==> !(#[trigger] s[i] is Any),
        Formula::All(s) => forall|i: int| 0 <= i < s.len() ==> !(#[trigger] s[i] is All),
        _ => true,
    }
}

proof fn lemma_splice_flat<T>(s: Seq<Formula<T>>)
    ensures
        (forall|i: int| 0 <= i < s.len() ==> !(#[trigger] s[i] is Any)) ==> splice_any(s) == s,
        (forall|i: int| 0 <= i < s.len() ==> !(#[trigger] s[i] is All)) ==> splice_all(s) == s,
    decreases s.len(),
{
    if s.len() > 0 {
        let p = s.drop_last();
        lemma_splice_flat(p);
        assert(p + seq![s.last()] =~= s);
        assert forall|i: int| 0 <= i < p.len() implies #[trigger] p[i] == s[i] by {}
    }
}

/// A tree with no list nested directly in a list of its kind is left unchanged.
pub proof fn lemma_flatten_idempotent<T>(f: Formula<T>)
    requires
        everywhere(f, |g: Formula<T>| flat_at(g)),
    ensures
        rewritten::<T, FlattenNestedList>(f) == f,
{
    assert forall|g: Formula<T>| #[trigger] flat_at(g) implies <FlattenNestedList as Rewrite<T>>::node(g) == g by {
        match g {
            Formula::Any(s) => lemma_splice_flat(s),
            Formula::All(s) => lemma_splice_flat(s),
            _ => {},
        }
    }
    lemma_rewritten_fixed::<T, FlattenNestedList>(f, |g: Formula<T>| flat_at(g));
}

proof fn lemma_splice_sound<T>(s: Seq<Formula<T>>, env: spec_fn(T) -> bool)
    ensures
        eval(Formula::Any(splice_any(s)), env) == eval(Formula::Any(s), env),
        eval(Formula::All(splice_all(s)), env) == eval(Formula::All(s), env),
    decreases s.len(),
{
    if s.len() == 0 {
        lemma_eval_lists(s, env);
        lemma_eval_lists(splice_any(s), env);
        lemma_eval_lists(splice_all(s), env);
    } else {
        let p = s.drop_last();
        let x = s.last();
        lemma_splice_sound(p, env);
        assert(s =~= p + seq![x]);
        lemma_concat(p, seq![x], env);
        lemma_single(x, env);
        let pa = match x {
            Formula::Any(t) => t,
            y => seq![y],
        };
        let pl = match x {
            Formula::All(t) => t,
            y => seq![y],
        };
        lemma_concat(splice_any(p), pa, env);
        lemma_concat(splice_all(p), pl, env);
    }
}

/// Splices the direct children of the kind `conj` (conjunctions when true,
/// disjunctions when false) into the list.
fn splice_vec<T>(v: Vec<Expr<T>>, conj: bool) -> (w: Vec<Expr<T>>)
    ensures
        conj ==> models(w) == splice_all(models(v)),
        !conj ==> models(w) == splice_any(models(v)),
{
    let mut v = v;
    let ghost v0 = v;
    let n = v.len();
    let mut w: Vec<Expr<T>> = Vec::new();
    let mut i: usize = 0;
    while i < n
        invariant
            v.len() == n == v0.len(),
            0 <= i <= n,
            forall|j: int| i <= j < n ==> #[trigger] v[j] == v0[j],
            conj ==> models(w) == splice_all(models(v0).subrange(0, i as int)),
            !conj ==> models(w) == splice_any(models(v0).subrange(0, i as int)),
        decreases n - i,
    {
        let x = take_at(&mut v, i);
        let ghost w0 = w;
        let ghost pre = models(v0).subrange(0, i as int);
        proof {
            assert(models(v0).subrange(0, i + 1).drop_last() =~= pre);
            assert(models(v0).subrange(0, i + 1).last() == model(x));
        }
        match x {
            Expr::Any(mut t) if !conj => {
                let ghost t0 = t;
                w.append(&mut t);
                proof {
                    assert(models(w) =~= models(w0) + models(t0));
                }
            },
            Expr::All(mut t) if conj => {
                let ghost t0 = t;
                w.append(&mut t);
                proof {
                    assert(models(w) =~= models(w0) + models(t0));
                }
            },
            x => {
                let ghost mx = model(x);
                w.push(x);
                proof {
                    assert(models(w) =~= models(w0) + seq![mx]);
                }
            },
        }
        i = i + 1;
    }
    proof {
        assert(models(v0).subrange(0, n as int) =~= models(v0));
    }
    w
}

/// Splices nested lists of the same kind into their parents.
pub struct FlattenNestedList;

impl<T> Rewrite<T> for FlattenNestedList {
    open spec fn node(f: Formula<T>) -> Formula<T> {
        flatten_node(f)
    }

    proof fn lemma_node_sound(f: Formula<T>, env: spec_fn(T) -> bool) {
        match f {
            Formula::Any(s) => lemma_splice_sound(s, env),
            Formula::All(s) => lemma_splice_sound(s, env),
            _ => {},
        }
    }

    fn rewrite_node(&self, e: Expr<T>) -> (r: Expr<T>) {
        let ghost fe = e@;
        match e {
            Expr::Any(v) => {
                assert(fe == Formula::Any(models(v)));
                Expr::Any(splice_vec(v, false))
            },
            Expr::All(v) => {
                assert(fe == Formula::All(models(v)));
                Expr::All(splice_vec(v, true))
            },
            e => e,
        }
    }
}

impl FlattenNestedList {
    /// Rewrites the elements of a disjunction's list, then splices its direct
    /// disjunctions into it.
    pub fn visit_mut_any<T>(&mut self, list: &mut Vec<Expr<T>>)
        ensures
            models(*final(list)) == splice_any(
                rewritten_list::<T, FlattenNestedList>(models(*old(list))),
            ),
    {
        walk_mut_expr_list(self, list);
        let mut v: Vec<Expr<T>> = Vec::new();
        std::mem::swap(list, &mut v);
        *list = splice_vec(v, false);
    }

    /// Rewrites the elements of a conjunction's list, then splices its direct
    /// conjunctions into it.
    pub fn visit_mut_all<T>(&mut self, list: &mut Vec<Expr<T>>)
        ensures
            models(*final(list)) == splice_all(
                rewritten_list::<T, FlattenNestedList>(models(*old(list))),
            ),
    {
        walk_mut_expr_list(self, list);
        let mut v: Vec<Expr<T>> = Vec::new();
        std::mem::swap(list, &mut v);
        *list = splice_vec(v, true);
    }

    pub fn visit_mut_expr<T>(&mut self, expr: &mut Expr<T>)
        ensures
            final(expr)@ == rewritten::<T, FlattenNestedList>(old(expr)@),
    {
        walk_in_place(self, expr);
    }
}

} // verus!
