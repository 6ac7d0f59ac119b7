use vstd::prelude::*;
use crate::ast::{contains_expr, eval, lemma_remove, models, Atom, Expr, Formula};
use crate::visit_mut::{rewritten, rewritten_list, walk_in_place, walk_mut_expr_list, Rewrite};

verus! {

broadcast use vstd::std_specs::vec::group_vec_axioms;

/// Some element of `lhs` occurs in `rhs`.
pub open spec fn shares<T>(lhs: Seq<T>, rhs: Seq<T>) -> bool {
    exists|i: int| 0 <= i < lhs.len() && rhs.contains(#[trigger] lhs[i])
}

/// Whether some element of `lhs` occurs in `rhs`.
pub fn contains_cross_same<T: Atom>(lhs: &[T], rhs: &[T]) -> (r: bool)
    ensures
        r == shares(lhs@, rhs@),
{
    let mut i: usize = 0;
    while i < lhs.len()
        invariant
            0 <= i <= lhs.len(),
            forall|k: int| 0 <= k < i ==> !rhs@.contains(#[trigger] lhs@[k]),
        decreases lhs.len() - i,
    {
        let mut j: usize = 0;
        while j < rhs.len()
            invariant
                0 <= i < lhs.len(),
                0 <= j <= rhs.len(),
                forall|k: int| 0 <= k < j ==> rhs@[k] != lhs@[i as int],
            decreases rhs.len() - j,
        {
            if lhs[i].same(&rhs[j]) {
                assert(rhs@[j as int] == lhs@[i as int]);
                assert(rhs@.contains(lhs@[i as int]));
                return true;
            }
            j = j + 1;
        }
        i = i + 1;
    }
    false
}

/// Whether some element of the list `lhs` is structurally equal to one of `rhs`.
fn lists_share<T: Atom>(lhs: &Vec<Expr<T>>, rhs: &Vec<Expr<T>>) -> (r: bool)
    ensures
        r == shares(models(*lhs), models(*rhs)),
{
    let mut i: usize = 0;
    while i < lhs.len()
        invariant
            0 <= i <= lhs.len(),
            forall|k: int| 0 <= k < i ==> !models(*rhs).contains(#[trigger] models(*lhs)[k]),
        decreases lhs.len() - i,
    {
        if contains_expr(rhs, &lhs[i]) {
            assert(models(*rhs).contains(models(*lhs)[i as int]));
            return true;
        }
        i = i + 1;
    }
    false
}

/// The element at `i` is a list of the kind opposite to its parent's (a
/// conjunction in a disjunction when `conj` is false, a disjunction in a
/// conjunction when it is true) that shares an element with the parent's list.
pub open spec fn redundant_at<T>(s: Seq<Formula<T>>, i: int, conj: bool) -> bool {
    if conj {
        s[i] is Any && shares(s[i]->Any_0, s)
    } else {
        s[i] is All && shares(s[i]->All_0, s)
    }
}

/// Scans the list from position `i` and removes each redundant element, judged
/// against the list as it stands when it is reached.
pub open spec fn prune<T>(s: Seq<Formula<T>>, i: int, conj: bool) -> Seq<Formula<T>>
    decreases s.len() - i,
{
    if i < 0 || i >= s.len() {
        s
    } else if redundant_at(s, i, conj) {
        prune(s.remove(i), i, conj)
    } else {
        prune(s, i + 1, conj)
    }
}

/// In a disjunction, a conjunction element that shares an element with the
/// disjunction is dropped; dually in a conjunction.
pub open spec fn cross_node<T>(f: Formula<T>) -> Formula<T> {
    match f {
        Formula::Any(s) => Formula::Any(prune(s, 0, false)),
        Formula::All(s) => Formula::All(prune(s, 0, true)),
        _ => f,
    }
}

proof fn lemma_prune_sound<T>(s: Seq<Formula<T>>, i: int, env: spec_fn(T) -> bool)
    ensures
        eval(Formula::Any(prune(s, i, false)), env) == eval(Formula::Any(s), env),
        eval(Formula::All(prune(s, i, true)), env) == eval(Formula::All(s), env),
    decreases s.len() - i,
{
    if 0 <= i < s.len() {
        if redundant_at(s, i, false) {
            lemma_removal_any(s, i, env);
            lemma_prune_sound(s.remove(i), i, env);
        } else {
            lemma_prune_sound(s, i + 1, env);
        }
        if redundant_at(s, i, true) {
            lemma_removal_all(s, i, env);
            lemma_prune_sound(s.remove(i), i, env);
        } else {
            lemma_prune_sound(s, i + 1, env);
        }
    }
}

proof fn lemma_removal_any<T>(s: Seq<Formula<T>>, i: int, env: spec_fn(T) -> bool)
    requires
        0 <= i < s.len(),
        redundant_at(s, i, false),
    ensures
        eval(Formula::Any(s.remove(i)), env) == eval(Formula::Any(s), env),
{
    let inner = s[i]->All_0;
    let k = choose|k: int| 0 <= k < inner.len() && s.contains(#[trigger] inner[k]);
    let j = choose|j: int| 0 <= j < s.len() && s[j] == inner[k];
    assert(decreases_to!(s[i] => inner[k]));
    assert(j != i);
    lemma_remove(s, i, env);
    crate::ast::lemma_eval_lists(inner, env);
    crate::ast::lemma_eval_lists(s.remove(i), env);
    if eval(s[i], env) {
        assert(eval(inner[k], env));
        if j < i {
            assert(s.remove(i)[j] == s[j]);
        } else {
            assert(s.remove(i)[j - 1] == s[j]);
        }
    }
}

proof fn lemma_removal_all<T>(s: Seq<Formula<T>>, i: int, env: spec_fn(T) -> bool)
    requires
        0 <= i < s.len(),
        redundant_at(s, i, true),
    ensures
        eval(Formula::All(s.remove(i)), env) == eval(Formula::All(s), env),
{
    let inner = s[i]->Any_0;
    let k = choose|k: int| 0 <= k < inner.len() && s.contains(#[trigger] inner[k]);
    let j = choose|j: int| 0 <= j < s.len() && s[j] == inner[k];
    assert(decreases_to!(s[i] => inner[k]));
    assert(j != i);
    lemma_remove(s, i, env);
    crate::ast::lemma_eval_lists(inner, env);
    crate::ast::lemma_eval_lists(s.remove(i), env);
    if eval(Formula::All(s.remove(i)), env) {
        if j < i {
            assert(s.remove(i)[j] == s[j]);
        } else {
            assert(s.remove(i)[j - 1] == s[j]);
        }
        assert(eval(inner[k], env));
    }
}

/// Removes the redundant elements of a list whose elements are already rewritten.
fn prune_vec<T: Atom>(v: &mut Vec<Expr<T>>, conj: bool)
    ensures
        models(*final(v)) == prune(models(*old(v)), 0, conj),
{
    let mut i: usize = 0;
    while i < v.len()
        invariant
            0 <= i <= v.len(),
            prune(models(*v), i as int, conj) == prune(models(*old(v)), 0, conj),
        decreases v.len() - i,
    {
        let red = match &v[i] {
            Expr::All(inner) => !conj && lists_share(inner, v),
            Expr::Any(inner) => conj && lists_share(inner, v),
            _ => false,
        };
        if red {
            let ghost m = models(*v);
            v.remove(i);
            assert(models(*v) =~= m.remove(i as int));
        } else {
            i = i + 1;
        }
    }
}

/// Drops a conjunction from a disjunction (a disjunction from a conjunction) when it
/// shares an element with its siblings' list.
pub struct SimplifyNestedList;

impl<T: Atom> Rewrite<T> for SimplifyNestedList {
    open spec fn node(f: Formula<T>) -> Formula<T> {
        cross_node(f)
    }

    proof fn lemma_node_sound(f: Formula<T>, env: spec_fn(T) -> bool) {
        match f {
            Formula::Any(s) => lemma_prune_sound(s, 0, env),
            Formula::All(s) => lemma_prune_sound(s, 0, env),
            _ => {},
        }
    }

    fn rewrite_node(&self, e: Expr<T>) -> (r: Expr<T>) {
        let ghost fe = e@;
        match e {
            Expr::Any(mut w) => {
                assert(fe == Formula::Any(models(w)));
                prune_vec(&mut w, false);
                Expr::Any(w)
            },
            Expr::All(mut w) => {
                assert(fe == Formula::All(models(w)));
                prune_vec(&mut w, true);
                Expr::All(w)
            },
            e => e,
        }
    }
}

impl SimplifyNestedList {
    /// Rewrites the elements of a disjunction's list, then drops its redundant
    /// conjunctions.
    pub fn visit_mut_any<T: Atom>(&mut self, list: &mut Vec<Expr<T>>)
        ensures
            models(*final(list)) == prune(
                rewritten_list::<T, SimplifyNestedList>(models(*old(list))),
                0,
                false,
            ),
    {
        walk_mut_expr_list(self, list);
        prune_vec(list, false);
    }

    /// Rewrites the elements of a conjunction's list, then drops its redundant
    /// disjunctions.
    pub fn visit_mut_all<T: Atom>(&mut self, list: &mut Vec<Expr<T>>)
        ensures
            models(*final(list)) == prune(
                rewritten_list::<T, SimplifyNestedList>(models(*old(list))),
                0,
                true,
            ),
    {
        walk_mut_expr_list(self, list);
        prune_vec(list, true);
    }

    pub fn visit_mut_expr<T: Atom>(&mut self, expr: &mut Expr<T>)
        ensures
            final(expr)@ == rewritten::<T, SimplifyNestedList>(old(expr)@),
    {
        walk_in_place(self, expr);
    }
}

} // verus!
