use vstd::prelude::*;
use crate::ast::{
    contains_expr, eval, lemma_eval_lists, lemma_models_map, lemma_select_sound, model, models,
    take_at, Atom, Expr, Formula,
};
use crate::visit_mut::{rewritten, rewritten_list, walk_in_place, walk_mut_expr_list, Rewrite};
use crate::utils::{lemma_select_map, remove_if, select};

verus! {

broadcast use vstd::std_specs::vec::group_vec_axioms;

/// The rule fires beside a negated disjunction or a negated variable only.
pub open spec fn negates_any_or_var<T>(n: Formula<T>) -> bool {
    n is Any || n is Var
}

/// The formulas that a negation `Not(n)` declares false: the elements of `n` when
/// it is a disjunction, else `n` itself (a variable, where the rule fires).
pub open spec fn negated_items<T>(n: Formula<T>) -> Seq<Formula<T>> {
    match n {
        Formula::Any(s) => s,
        _ => seq![n],
    }
}

/// Marks the elements of `pos` that occur in `neg`.
pub open spec fn hits_in<T>(pos: Seq<Formula<T>>, neg: Seq<Formula<T>>) -> Seq<bool> {
    pos.map_values(|x: Formula<T>| neg.contains(x))
}

/// `pos` without the elements that occur in `neg`.
pub open spec fn drop_in<T>(pos: Seq<Formula<T>>, neg: Seq<Formula<T>>) -> Seq<Formula<T>> {
    select(pos, hits_in(pos, neg), false)
}

/// A conjunction's list of exactly a disjunction and the negation of a disjunction
/// or of a variable (in either order) loses from the disjunction every element that
/// the negation declares false. Any other list is left as it is.
pub open spec fn subsume_node<T>(c: Seq<Formula<T>>) -> Seq<Formula<T>> {
    if c.len() == 2 {
        match (c[0], c[1]) {
            (Formula::Any(pos), Formula::Not(n)) => if negates_any_or_var(*n) {
                seq![Formula::Any(drop_in(pos, negated_items(*n))), c[1]]
            } else {
                c
            },
            (Formula::Not(n), Formula::Any(pos)) => if negates_any_or_var(*n) {
                seq![c[0], Formula::Any(drop_in(pos, negated_items(*n)))]
            } else {
                c
            },
            _ => c,
        }
    } else {
        c
    }
}

/// `subsume_node` on a conjunction's list.
pub open spec fn subsume_all<T>(f: Formula<T>) -> Formula<T> {
    match f {
        Formula::All(s) => Formula::All(subsume_node(s)),
        _ => f,
    }
}

/// When `Not(n)` holds, dropping from `pos` what `n` declares false keeps the value
/// of the disjunction of `pos`.
proof fn lemma_drop_in_sound<T>(pos: Seq<Formula<T>>, n: Formula<T>, env: spec_fn(T) -> bool)
    requires
        !eval(n, env),
    ensures
        eval(Formula::Any(drop_in(pos, negated_items(n))), env) == eval(Formula::Any(pos), env),
{
    let neg = negated_items(n);
    let hits = hits_in(pos, neg);
    lemma_eval_lists(neg, env);
    assert forall|i: int| 0 <= i < pos.len() && #[trigger] hits[i] implies !eval(pos[i], env) by {
        assert(neg.contains(pos[i]));
        let j = choose|j: int| 0 <= j < neg.len() && neg[j] == pos[i];
        match n {
            Formula::Any(s) => {},
            _ => {
                assert(neg[j] == n);
            },
        }
    }
    lemma_select_sound(pos, hits, env);
}

proof fn lemma_subsume_node_sound<T>(c: Seq<Formula<T>>, env: spec_fn(T) -> bool)
    ensures
        eval(Formula::All(subsume_node(c)), env) == eval(Formula::All(c), env),
{
    let d = subsume_node(c);
    lemma_eval_lists(c, env);
    lemma_eval_lists(d, env);
    if c.len() == 2 {
        match (c[0], c[1]) {
            (Formula::Any(pos), Formula::Not(n)) => {
                if !eval(*n, env) {
                    lemma_drop_in_sound(pos, *n, env);
                }
                assert(d[1] == c[1]);
            },
            (Formula::Not(n), Formula::Any(pos)) => {
                if !eval(*n, env) {
                    lemma_drop_in_sound(pos, *n, env);
                }
                assert(d[0] == c[0]);
            },
            _ => {},
        }
    }
}

/// Whether `x` is among the formulas that the negation of `n` declares false.
fn in_negated<T: Atom>(n: &Expr<T>, x: &Expr<T>) -> (r: bool)
    requires
        negates_any_or_var(model(*n)),
    ensures
        r == negated_items(model(*n)).contains(model(*x)),
{
    match n {
        Expr::Any(neg) => contains_expr(neg, x),
        _ => {
            let r = n.same(x);
            proof {
                let s = negated_items(model(*n));
                assert(s[0] == model(*n));
                if s.contains(model(*x)) {
                    let j = choose|j: int| 0 <= j < s.len() && s[j] == model(*x);
                }
            }
            r
        },
    }
}

/// Drops from `pos` every element that the negation of `n` declares false.
fn drop_negated<T: Atom>(pos: &mut Vec<Expr<T>>, n: &Expr<T>)
    requires
        negates_any_or_var(model(*n)),
    ensures
        models(*final(pos)) == drop_in(models(*old(pos)), negated_items(model(*n))),
{
    let ghost v0 = *pos;
    let pred = |x: &Expr<T>| -> (r: bool)
        ensures
            r == negated_items(model(*n)).contains(model(*x)),
        { in_negated(n, x) };
    remove_if(pos, pred);
    proof {
        let hits = choose|hits: Seq<bool>|
            {
                &&& hits.len() == v0.len()
                &&& forall|i: int|
                    0 <= i < hits.len() ==> pred.ensures((&v0[i],), #[trigger] hits[i])
                &&& pos@ == select(v0@, hits, false)
            };
        assert(hits =~= hits_in(models(v0), negated_items(model(*n))));
        lemma_models_map(v0);
        lemma_models_map(*pos);
        lemma_select_map(v0@, hits, false, |e: Expr<T>| model(e));
    }
}

/// Whether `n` is a disjunction or a variable.
fn is_any_or_var<T>(n: &Expr<T>) -> (r: bool)
    ensures
        r == negates_any_or_var(model(*n)),
{
    match n {
        Expr::Any(_) => true,
        Expr::Var(_) => true,
        _ => false,
    }
}

/// Rewrites one conjunction's list whose elements are already rewritten.
fn subsume_node_vec<T: Atom>(all: &mut Vec<Expr<T>>)
    ensures
        models(*final(all)) == subsume_node(models(*old(all))),
{
    if all.len() != 2 {
        return;
    }
    let ghost c = models(*all);
    let b = take_at(all, 1);
    let a = take_at(all, 0);
    let ghost ma = model(a);
    let ghost mb = model(b);
    assert(c[0] == ma && c[1] == mb);
    let mut out: Vec<Expr<T>> = Vec::new();
    match (a, b) {
        (Expr::Any(mut pos), Expr::Not(n)) => {
            assert(mb == Formula::Not(Box::new(model(*n))));
            if is_any_or_var(&*n) {
                drop_negated(&mut pos, &*n);
            }
            out.push(Expr::Any(pos));
            out.push(Expr::Not(n));
        },
        (Expr::Not(n), Expr::Any(mut pos)) => {
            assert(ma == Formula::Not(Box::new(model(*n))));
            if is_any_or_var(&*n) {
                drop_negated(&mut pos, &*n);
            }
            out.push(Expr::Not(n));
            out.push(Expr::Any(pos));
        },
        (a, b) => {
            out.push(a);
            out.push(b);
        },
    }
    proof {
        assert(models(out) =~= subsume_node(c));
    }
    *all = out;
}

/// In a conjunction of a disjunction and a negation, drops from the disjunction what
/// the negation declares false.
pub struct SimplifyAllNotAny;

impl<T: Atom> Rewrite<T> for SimplifyAllNotAny {
    open spec fn node(f: Formula<T>) -> Formula<T> {
        subsume_all(f)
    }

    proof fn lemma_node_sound(f: Formula<T>, env: spec_fn(T) -> bool) {
        match f {
            Formula::All(s) => lemma_subsume_node_sound(s, env),
            _ => {},
        }
    }

    fn rewrite_node(&self, e: Expr<T>) -> (r: Expr<T>) {
        let ghost fe = e@;
        match e {
            Expr::All(mut w) => {
                assert(fe == Formula::All(models(w)));
                subsume_node_vec(&mut w);
                Expr::All(w)
            },
            e => e,
        }
    }
}

impl SimplifyAllNotAny {
    /// Rewrites the elements of a conjunction's list, then the list itself.
    pub fn visit_mut_all<T: Atom>(&mut self, all: &mut Vec<Expr<T>>)
        ensures
            models(*final(all)) == subsume_node(
                rewritten_list::<T, SimplifyAllNotAny>(models(*old(all))),
            ),
    {
        walk_mut_expr_list(self, all);
        subsume_node_vec(all);
    }

    pub fn visit_mut_expr<T: Atom>(&mut self, expr: &mut Expr<T>)
        ensures
            final(expr)@ == rewritten::<T, SimplifyAllNotAny>(old(expr)@),
    {
        walk_in_place(self, expr);
    }
}

} // verus!
