use vstd::prelude::*;
use crate::ast::{
    contains_expr, eval, lemma_eval_lists, lemma_models_map, lemma_select_sound, model, models,
    Atom, Expr, Formula,
};
use crate::visit_mut::{rewritten, rewritten_list, walk_in_place, walk_mut_expr_list, Rewrite};
use crate::utils::{lemma_select_index, lemma_select_map, remove_if, select, select_index};

verus! {

broadcast use vstd::std_specs::vec::group_vec_axioms;

/// Every element of `a` occurs in `b`.
pub open spec fn subset<T>(a: Seq<T>, b: Seq<T>) -> bool {
    forall|k: int| 0 <= k < a.len() ==> b.contains(#[trigger] a[k])
}

/// The disjunction that holds only `true`, which marks a dropped disjunction.
pub open spec fn true_any<T>() -> Formula<T> {
    Formula::Any(seq![Formula::Const(true)])
}

/// For the pair `(i, j)`: when both elements are disjunctions and the elements of
/// the `i`-th all occur in the `j`-th, the `j`-th becomes `true_any()`.
pub open spec fn merge_step<T>(s: Seq<Formula<T>>, i: int, j: int) -> Seq<Formula<T>> {
    if i != j && s[i] is Any && s[j] is Any && subset(s[i]->Any_0, s[j]->Any_0) {
        s.update(j, true_any())
    } else {
        s
    }
}

/// `merge_step` for the pairs `(i, j)`, ..., `(i, n - 1)`, in turn.
pub open spec fn merge_row<T>(s: Seq<Formula<T>>, i: int, j: int, n: int) -> Seq<Formula<T>>
    decreases n - j,
{
    if j < 0 || j >= n {
        s
    } else {
        merge_row(merge_step(s, i, j), i, j + 1, n)
    }
}

/// `merge_row` for the rows `i`, ..., `n - 1`, in turn.
pub open spec fn merge_rows<T>(s: Seq<Formula<T>>, i: int, n: int) -> Seq<Formula<T>>
    decreases n - i,
{
    if i < 0 || i >= n {
        s
    } else {
        merge_rows(merge_row(s, i, 0, n), i + 1, n)
    }
}

/// Marks the elements equal to `true_any()`.
pub open spec fn true_any_hits<T>(s: Seq<Formula<T>>) -> Seq<bool> {
    s.map_values(|x: Formula<T>| x == true_any::<T>())
}

/// A conjunction's list after every pair of its disjunctions has been compared, in
/// order, and the weaker of each pair marked, without the marked elements.
pub open spec fn merge_node<T>(s: Seq<Formula<T>>) -> Seq<Formula<T>> {
    let m = merge_rows(s, 0, s.len() as int);
    select(m, true_any_hits(m), false)
}

/// `merge_node` on a conjunction's list.
pub open spec fn merge_subsets_node<T>(f: Formula<T>) -> Formula<T> {
    match f {
        Formula::All(s) => Formula::All(merge_node(s)),
        _ => f,
    }
}

proof fn lemma_true_any<T>(env: spec_fn(T) -> bool)
    ensures
        eval(true_any::<T>(), env),
{
    crate::ast::lemma_single(Formula::<T>::Const(true), env);
}

proof fn lemma_step_sound<T>(s: Seq<Formula<T>>, i: int, j: int, env: spec_fn(T) -> bool)
    requires
        0 <= i < s.len(),
        0 <= j < s.len(),
    ensures
        merge_step(s, i, j).len() == s.len(),
        eval(Formula::All(merge_step(s, i, j)), env) == eval(Formula::All(s), env),
{
    let t = merge_step(s, i, j);
    if t != s {
        lemma_true_any::<T>(env);
        lemma_eval_lists(s, env);
        lemma_eval_lists(t, env);
        if eval(Formula::All(t), env) {
            assert(eval(t[i], env));
            let a = s[i]->Any_0;
            let b = s[j]->Any_0;
            lemma_eval_lists(a, env);
            lemma_eval_lists(b, env);
            let k = choose|k: int| 0 <= k < a.len() && eval(#[trigger] a[k], env);
            assert(b.contains(a[k]));
            let l = choose|l: int| 0 <= l < b.len() && b[l] == a[k];
            assert(eval(b[l], env));
            assert forall|x: int| 0 <= x < s.len() implies eval(#[trigger] s[x], env) by {
                if x != j {
                    assert(eval(t[x], env));
                }
            }
        }
        if eval(Formula::All(s), env) {
            assert forall|x: int| 0 <= x < t.len() implies eval(#[trigger] t[x], env) by {
                if x != j {
                    assert(eval(s[x], env));
                }
            }
        }
    }
}

proof fn lemma_row_sound<T>(s: Seq<Formula<T>>, i: int, j: int, n: int, env: spec_fn(T) -> bool)
    requires
        0 <= i < n,
        n == s.len(),
        0 <= j,
    ensures
        merge_row(s, i, j, n).len() == s.len(),
        eval(Formula::All(merge_row(s, i, j, n)), env) == eval(Formula::All(s), env),
    decreases n - j,
{
    if j < n {
        lemma_step_sound(s, i, j, env);
        lemma_row_sound(merge_step(s, i, j), i, j + 1, n, env);
    }
}

proof fn lemma_rows_sound<T>(s: Seq<Formula<T>>, i: int, n: int, env: spec_fn(T) -> bool)
    requires
        n == s.len(),
        0 <= i,
    ensures
        merge_rows(s, i, n).len() == s.len(),
        eval(Formula::All(merge_rows(s, i, n)), env) == eval(Formula::All(s), env),
    decreases n - i,
{
    if i < n {
        lemma_row_sound(s, i, 0, n, env);
        lemma_rows_sound(merge_row(s, i, 0, n), i + 1, n, env);
    }
}

proof fn lemma_merge_node_sound<T>(s: Seq<Formula<T>>, env: spec_fn(T) -> bool)
    ensures
        eval(Formula::All(merge_node(s)), env) == eval(Formula::All(s), env),
{
    let m = merge_rows(s, 0, s.len() as int);
    lemma_rows_sound(s, 0, s.len() as int, env);
    lemma_true_any::<T>(env);
    lemma_select_sound(m, true_any_hits(m), env);
}

/// The `k`-th element of `s0` may be dropped: it is a disjunction, and another
/// disjunction of the list has elements that all occur in it, or it holds `true`.
pub open spec fn droppable<T>(s0: Seq<Formula<T>>, k: int) -> bool {
    &&& s0[k] is Any
    &&& (exists|i: int|
        0 <= i < s0.len() && i != k && s0[i] is Any && subset(
            s0[i]->Any_0,
            #[trigger] s0[k]->Any_0,
        )) || s0[k]->Any_0.contains(Formula::Const(true))
}

/// Each element of `s` is that of `s0`, or a marked droppable one.
pub open spec fn evolved<T>(s: Seq<Formula<T>>, s0: Seq<Formula<T>>) -> bool {
    &&& s.len() == s0.len()
    &&& forall|k: int|
        0 <= k < s.len() ==> #[trigger] s[k] == s0[k] || (s[k] == true_any::<T>() && droppable(
            s0,
            k,
        ))
}

/// The pair `(a, b)` no longer fires: one of them is marked, or the elements of the
/// `a`-th do not all occur in the `b`-th.
pub open spec fn settled<T>(s: Seq<Formula<T>>, a: int, b: int) -> bool {
    a != b ==> (s[a] == true_any::<T>() || s[b] == true_any::<T>() || !(s[a] is Any && s[b] is Any
        && subset(s[a]->Any_0, s[b]->Any_0)))
}

proof fn lemma_step_evolves<T>(s: Seq<Formula<T>>, s0: Seq<Formula<T>>, i: int, j: int)
    requires
        evolved(s, s0),
        0 <= i < s.len(),
        0 <= j < s.len(),
    ensures
        evolved(merge_step(s, i, j), s0),
        settled(merge_step(s, i, j), i, j),
        forall|a: int, b: int|
            0 <= a < s.len() && 0 <= b < s.len() && settled(s, a, b) ==> #[trigger] settled(
                merge_step(s, i, j),
                a,
                b,
            ),
{
    let t = merge_step(s, i, j);
    if i != j && s[i] is Any && s[j] is Any && subset(s[i]->Any_0, s[j]->Any_0) {
        if s[j] == s0[j] {
            if s[i] == s0[i] {
                assert(droppable(s0, j));
            } else {
                assert(s[i]->Any_0[0] == Formula::<T>::Const(true));
                assert(s0[j]->Any_0.contains(Formula::Const(true)));
            }
        }
        assert forall|k: int| 0 <= k < t.len() implies #[trigger] t[k] == s0[k] || (t[k]
            == true_any::<T>() && droppable(s0, k)) by {
            if k != j {
                assert(t[k] == s[k]);
            }
        }
    }
}

proof fn lemma_row_evolves<T>(s: Seq<Formula<T>>, s0: Seq<Formula<T>>, i: int, j: int, n: int)
    requires
        evolved(s, s0),
        n == s.len(),
        0 <= i < n,
        0 <= j <= n,
        forall|a: int, b: int|
            0 <= a < n && 0 <= b < n && (a < i || (a == i && b < j)) ==> #[trigger] settled(s, a, b),
    ensures
        evolved(merge_row(s, i, j, n), s0),
        forall|a: int, b: int|
            0 <= a < n && 0 <= b < n && a <= i ==> #[trigger] settled(merge_row(s, i, j, n), a, b),
    decreases n - j,
{
    if j < n {
        let t = merge_step(s, i, j);
        lemma_step_evolves(s, s0, i, j);
        lemma_row_evolves(t, s0, i, j + 1, n);
    }
}

proof fn lemma_rows_evolve<T>(s: Seq<Formula<T>>, s0: Seq<Formula<T>>, i: int, n: int)
    requires
        evolved(s, s0),
        n == s.len(),
        0 <= i <= n,
        forall|a: int, b: int| 0 <= a < n && 0 <= b < n && a < i ==> #[trigger] settled(s, a, b),
    ensures
        evolved(merge_rows(s, i, n), s0),
        forall|a: int, b: int| 0 <= a < n && 0 <= b < n ==> #[trigger] settled(merge_rows(s, i, n), a, b),
    decreases n - i,
{
    if i < n {
        lemma_row_evolves(s, s0, i, 0, n);
        lemma_rows_evolve(merge_row(s, i, 0, n), s0, i + 1, n);
    }
}

/// The subset rule, stated directly: of the disjunctions that remain, none has
/// elements that all occur in another; an element that is not a droppable
/// disjunction remains; and nothing new appears.
pub proof fn lemma_merge_node_rule<T>(s: Seq<Formula<T>>)
    ensures
        forall|p: int, q: int|
            0 <= p < merge_node(s).len() && 0 <= q < merge_node(s).len() && p != q && (
            #[trigger] merge_node(s)[p]) is Any && (#[trigger] merge_node(s)[q]) is Any ==> !subset(
                merge_node(s)[p]->Any_0,
                merge_node(s)[q]->Any_0,
            ),
        forall|k: int| 0 <= k < s.len() && !droppable(s, k) ==> merge_node(s).contains(#[trigger] s[k]),
        forall|x: Formula<T>| merge_node(s).contains(x) ==> s.contains(x),
{
    let n = s.len() as int;
    assert(evolved(s, s));
    lemma_rows_evolve(s, s, 0, n);
    let m = merge_rows(s, 0, n);
    let h = true_any_hits(m);
    let r = merge_node(s);
    lemma_select_index(m, h, false);
    crate::ast::lemma_select_members(m, h, false);
    let idx = select_index(h, false);
    assert forall|p: int, q: int|
        0 <= p < r.len() && 0 <= q < r.len() && p != q && (#[trigger] r[p]) is Any && (
        #[trigger] r[q]) is Any implies !subset(r[p]->Any_0, r[q]->Any_0) by {
        let a = idx[p];
        let b = idx[q];
        if p < q {
            assert(idx[p] < idx[q]);
        } else {
            assert(idx[q] < idx[p]);
        }
        assert(settled(m, a, b));
    }
    assert forall|k: int| 0 <= k < s.len() && !droppable(s, k) implies r.contains(#[trigger] s[k]) by {
        assert(m[k] == s[k] || (m[k] == true_any::<T>() && droppable(s, k)));
        if m[k] == true_any::<T>() {
            assert(s[k]->Any_0[0] == Formula::<T>::Const(true));
            assert(s[k]->Any_0.contains(Formula::Const(true)));
        }
        assert(r.contains(m[k]));
    }
    assert forall|x: Formula<T>| r.contains(x) implies s.contains(x) by {
        let i = choose|i: int| 0 <= i < m.len() && h[i] == false && #[trigger] m[i] == x;
        assert(m[i] == s[i] || m[i] == true_any::<T>());
    }
}

/// Whether every element of `lhs` is structurally equal to one of `rhs`.
pub fn is_subset_of<T: Atom>(lhs: &Vec<Expr<T>>, rhs: &Vec<Expr<T>>) -> (r: bool)
    ensures
        r == subset(models(*lhs), models(*rhs)),
{
    let mut i: usize = 0;
    while i < lhs.len()
        invariant
            0 <= i <= lhs.len(),
            forall|k: int| 0 <= k < i ==> models(*rhs).contains(#[trigger] models(*lhs)[k]),
        decreases lhs.len() - i,
    {
        if !contains_expr(rhs, &lhs[i]) {
            assert(!models(*rhs).contains(models(*lhs)[i as int]));
            return false;
        }
        i = i + 1;
    }
    true
}

/// Whether the `i`-th element is a disjunction whose elements all occur in the
/// `j`-th, itself a disjunction.
fn pair_subsumes<T: Atom>(v: &Vec<Expr<T>>, i: usize, j: usize) -> (r: bool)
    requires
        i < v.len(),
        j < v.len(),
    ensures
        r == (models(*v)[i as int] is Any && models(*v)[j as int] is Any && subset(
            models(*v)[i as int]->Any_0,
            models(*v)[j as int]->Any_0,
        )),
{
    match (&v[i], &v[j]) {
        (Expr::Any(a), Expr::Any(b)) => is_subset_of(a, b),
        _ => false,
    }
}

fn is_true_any<T>(x: &Expr<T>) -> (r: bool)
    ensures
        r == (model(*x) == true_any::<T>()),
{
    match x {
        Expr::Any(a) => {
            if a.len() == 1 {
                let r = match &a[0] {
                    Expr::Const(c) => *c,
                    _ => false,
                };
                proof {
                    if r {
                        assert(models(*a) =~= seq![Formula::<T>::Const(true)]);
                    } else {
                        assert(models(*a)[0] != Formula::<T>::Const(true));
                        assert(seq![Formula::<T>::Const(true)][0] == Formula::<T>::Const(true));
                    }
                }
                r
            } else {
                proof {
                    assert(models(*a).len() != seq![Formula::<T>::Const(true)].len());
                }
                false
            }
        },
        _ => false,
    }
}

fn merge_node_vec<T: Atom>(v: &mut Vec<Expr<T>>)
    ensures
        models(*final(v)) == merge_node(models(*old(v))),
{
    let n = v.len();
    let ghost s0 = models(*v);
    let mut i: usize = 0;
    while i < n
        invariant
            v.len() == n == s0.len(),
            0 <= i <= n,
            merge_rows(models(*v), i as int, n as int) == merge_rows(s0, 0, n as int),
        decreases n - i,
    {
        let ghost row_start = models(*v);
        let mut j: usize = 0;
        while j < n
            invariant
                v.len() == n,
                0 <= i < n,
                0 <= j <= n,
                merge_row(models(*v), i as int, j as int, n as int) == merge_row(
                    row_start,
                    i as int,
                    0,
                    n as int,
                ),
            decreases n - j,
        {
            if i != j && pair_subsumes(v, i, j) {
                let ghost m = models(*v);
                let mut t: Vec<Expr<T>> = Vec::new();
                t.push(Expr::Const(true));
                proof {
                    assert(models(t) =~= seq![Formula::<T>::Const(true)]);
                }
                v[j] = Expr::Any(t);
                proof {
                    assert(models(*v) =~= m.update(j as int, true_any()));
                }
            }
            j = j + 1;
        }
        i = i + 1;
    }
    let ghost m = models(*v);
    let ghost v0 = *v;
    let pred = |x: &Expr<T>| -> (r: bool)
        ensures
            r == (model(*x) == true_any::<T>()),
        { is_true_any(x) };
    remove_if(v, pred);
    proof {
        let hits = choose|hits: Seq<bool>|
            {
                &&& hits.len() == v0.len()
                &&& forall|i: int|
                    0 <= i < hits.len() ==> pred.ensures((&v0[i],), #[trigger] hits[i])
                &&& v@ == select(v0@, hits, false)
            };
        assert(hits =~= true_any_hits(m));
        lemma_models_map(v0);
        lemma_models_map(*v);
        lemma_select_map(v0@, hits, false, |e: Expr<T>| model(e));
    }
}

/// In a conjunction, drops each disjunction whose elements include all those of
/// another disjunction of the same conjunction.
pub struct MergeAllOfAny;

impl<T: Atom> Rewrite<T> for MergeAllOfAny {
    open spec fn node(f: Formula<T>) -> Formula<T> {
        merge_subsets_node(f)
    }

    proof fn lemma_node_sound(f: Formula<T>, env: spec_fn(T) -> bool) {
        match f {
            Formula::All(s) => lemma_merge_node_sound(s, env),
            _ => {},
        }
    }

    fn rewrite_node(&self, e: Expr<T>) -> (r: Expr<T>) {
        let ghost fe = e@;
        match e {
            Expr::All(mut w) => {
                assert(fe == Formula::All(models(w)));
                merge_node_vec(&mut w);
                Expr::All(w)
            },
            e => e,
        }
    }
}

impl MergeAllOfAny {
    /// Rewrites the elements of a conjunction's list, then the list itself.
    pub fn visit_mut_all<T: Atom>(&mut self, all: &mut Vec<Expr<T>>)
        ensures
            models(*final(all)) == merge_node(rewritten_list::<T, MergeAllOfAny>(models(*old(all)))),
    {
        walk_mut_expr_list(self, all);
        merge_node_vec(all);
    }

    pub fn visit_mut_expr<T: Atom>(&mut self, expr: &mut Expr<T>)
        ensures
            final(expr)@ == rewritten::<T, MergeAllOfAny>(old(expr)@),
    {
        walk_in_place(self, expr);
    }
}

} // verus!
