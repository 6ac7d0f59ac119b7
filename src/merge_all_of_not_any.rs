use vstd::prelude::*;
use crate::ast::{
    eval, lemma_concat, lemma_eval_lists, lemma_models_map, lemma_remove, lemma_select_members,
    lemma_select_sound, model, models, take_at, Expr, Formula,
};
use crate::visit_mut::{rewritten, rewritten_list, walk_in_place, walk_mut_expr_list, Rewrite};
use crate::utils::{drain_filter, lemma_select_map, remove_if, select};

verus! {

broadcast use vstd::std_specs::vec::group_vec_axioms;

/// `x` is the negation of a disjunction.
pub open spec fn is_not_any<T>(x: Formula<T>) -> bool {
    x is Not && *x->Not_0 is Any
}

/// The elements of the disjunction that `x` negates.
pub open spec fn not_any_items<T>(x: Formula<T>) -> Seq<Formula<T>> {
    (*x->Not_0)->Any_0
}

/// `x` is the negation of a variable.
pub open spec fn is_not_var<T>(x: Formula<T>) -> bool {
    x is Not && *x->Not_0 is Var
}

/// The negation of the empty disjunction, which always holds.
pub open spec fn empty_not_any<T>() -> Formula<T> {
    Formula::Not(Box::new(Formula::Any(Seq::empty())))
}

/// The position of the first negated disjunction at or after `i`, or the length.
pub open spec fn first_from<T>(s: Seq<Formula<T>>, i: int) -> int
    decreases s.len() - i,
{
    if i < 0 || i >= s.len() {
        s.len() as int
    } else if is_not_any(s[i]) {
        i
    } else {
        first_from(s, i + 1)
    }
}

/// The elements of all the negated disjunctions of `s`, in order.
pub open spec fn gather<T>(s: Seq<Formula<T>>) -> Seq<Formula<T>>
    decreases s.len(),
{
    if s.len() == 0 {
        Seq::empty()
    } else {
        gather(s.drop_last()) + if is_not_any(s.last()) {
            not_any_items(s.last())
        } else {
            Seq::empty()
        }
    }
}

/// The negated disjunction at `k` takes the elements of all of them; the others are
/// emptied.
pub open spec fn merge_marked<T>(s: Seq<Formula<T>>, k: int) -> Seq<Formula<T>> {
    Seq::new(
        s.len(),
        |i: int|
            if i == k {
                Formula::Not(Box::new(Formula::Any(gather(s))))
            } else if is_not_any(s[i]) {
                empty_not_any()
            } else {
                s[i]
            },
    )
}

/// Marks the elements equal to `empty_not_any()`.
pub open spec fn empty_hits<T>(s: Seq<Formula<T>>) -> Seq<bool> {
    s.map_values(|x: Formula<T>| x == empty_not_any::<T>())
}

/// With two or more negated disjunctions, the first takes the elements of all, and
/// every negated disjunction left empty is dropped.
pub open spec fn merge_phase<T>(s: Seq<Formula<T>>) -> Seq<Formula<T>> {
    let k = first_from(s, 0);
    if exists|j: int| k < j < s.len() && is_not_any(#[trigger] s[j]) {
        let t = merge_marked(s, k);
        select(t, empty_hits(t), false)
    } else {
        s
    }
}

/// Marks the negated variables.
pub open spec fn not_var_hits<T>(s: Seq<Formula<T>>) -> Seq<bool> {
    s.map_values(|x: Formula<T>| is_not_var(x))
}

/// When a negated disjunction remains, each negated variable leaves the list and its
/// variable joins the first negated disjunction, in order.
pub open spec fn fold_phase<T>(t: Seq<Formula<T>>) -> Seq<Formula<T>> {
    if first_from(t, 0) < t.len() {
        let h = not_var_hits(t);
        let rest = select(t, h, false);
        let vars = select(t, h, true).map_values(|x: Formula<T>| *x->Not_0);
        let k = first_from(rest, 0);
        rest.update(k, Formula::Not(Box::new(Formula::Any(not_any_items(rest[k]) + vars))))
    } else {
        t
    }
}

/// A conjunction's list with its negated disjunctions merged into one, which also
/// takes the variables of the negated variables.
pub open spec fn merge_not_node<T>(s: Seq<Formula<T>>) -> Seq<Formula<T>> {
    fold_phase(merge_phase(s))
}

/// `merge_not_node` on a conjunction's list.
pub open spec fn merge_negations_node<T>(f: Formula<T>) -> Formula<T> {
    match f {
        Formula::All(s) => Formula::All(merge_not_node(s)),
        _ => f,
    }
}

proof fn lemma_first_from<T>(s: Seq<Formula<T>>, i: int)
    requires
        0 <= i <= s.len(),
    ensures
        i <= first_from(s, i) <= s.len(),
        first_from(s, i) < s.len() ==> is_not_any(s[first_from(s, i)]),
        forall|j: int| i <= j < first_from(s, i) ==> !is_not_any(#[trigger] s[j]),
    decreases s.len() - i,
{
    if i < s.len() && !is_not_any(s[i]) {
        lemma_first_from(s, i + 1);
    }
}

proof fn lemma_gather<T>(s: Seq<Formula<T>>, env: spec_fn(T) -> bool)
    ensures
        eval(Formula::Any(gather(s)), env) == exists|i: int|
            0 <= i < s.len() && is_not_any(s[i]) && eval(#[trigger] s[i], env) == false,
    decreases s.len(),
{
    lemma_eval_lists(gather(s), env);
    if s.len() > 0 {
        let p = s.drop_last();
        let x = s.last();
        lemma_gather(p, env);
        let tail = if is_not_any(x) {
            not_any_items(x)
        } else {
            Seq::empty()
        };
        lemma_concat(gather(p), tail, env);
        lemma_eval_lists(tail, env);
        if is_not_any(x) {
            assert(eval(x, env) == !eval(Formula::Any(not_any_items(x)), env));
        }
        if exists|i: int| 0 <= i < s.len() && is_not_any(s[i]) && eval(#[trigger] s[i], env) == false {
            let i = choose|i: int|
                0 <= i < s.len() && is_not_any(s[i]) && eval(#[trigger] s[i], env) == false;
            if i < p.len() {
                assert(p[i] == s[i]);
            }
        }
        if exists|i: int| 0 <= i < p.len() && is_not_any(p[i]) && eval(#[trigger] p[i], env) == false {
            let i = choose|i: int|
                0 <= i < p.len() && is_not_any(p[i]) && eval(#[trigger] p[i], env) == false;
            assert(s[i] == p[i]);
        }
    } else {
        lemma_eval_lists(s, env);
    }
}

proof fn lemma_merge_phase_sound<T>(s: Seq<Formula<T>>, env: spec_fn(T) -> bool)
    ensures
        eval(Formula::All(merge_phase(s)), env) == eval(Formula::All(s), env),
{
    let k = first_from(s, 0);
    lemma_first_from(s, 0);
    if exists|j: int| k < j < s.len() && is_not_any(#[trigger] s[j]) {
        let t = merge_marked(s, k);
        lemma_gather(s, env);
        lemma_eval_lists(s, env);
        lemma_eval_lists(t, env);
        lemma_eval_lists(Seq::<Formula<T>>::empty(), env);
        assert(eval(empty_not_any::<T>(), env));
        if eval(Formula::All(s), env) {
            assert forall|i: int| 0 <= i < t.len() implies eval(#[trigger] t[i], env) by {
                assert(eval(s[i], env));
            }
        }
        if eval(Formula::All(t), env) {
            assert(eval(t[k], env));
            assert forall|i: int| 0 <= i < s.len() implies eval(#[trigger] s[i], env) by {
                if !is_not_any(s[i]) {
                    assert(eval(t[i], env));
                }
            }
        }
        lemma_select_sound(t, empty_hits(t), env);
    }
}

/// A conjunction holds when both its selected and its unselected elements do.
proof fn lemma_partition<T>(t: Seq<Formula<T>>, h: Seq<bool>, env: spec_fn(T) -> bool)
    requires
        h.len() == t.len(),
    ensures
        eval(Formula::All(t), env) == (eval(Formula::All(select(t, h, false)), env) && eval(
            Formula::All(select(t, h, true)),
            env,
        )),
{
    let a = select(t, h, false);
    let b = select(t, h, true);
    lemma_select_members(t, h, false);
    lemma_select_members(t, h, true);
    lemma_eval_lists(t, env);
    lemma_eval_lists(a, env);
    lemma_eval_lists(b, env);
    if eval(Formula::All(t), env) {
        assert forall|j: int| 0 <= j < a.len() implies eval(#[trigger] a[j], env) by {
            assert(a.contains(a[j]));
        }
        assert forall|j: int| 0 <= j < b.len() implies eval(#[trigger] b[j], env) by {
            assert(b.contains(b[j]));
        }
    }
    if eval(Formula::All(a), env) && eval(Formula::All(b), env) {
        assert forall|i: int| 0 <= i < t.len() implies eval(#[trigger] t[i], env) by {
            if h[i] {
                assert(b.contains(t[i]));
            } else {
                assert(a.contains(t[i]));
            }
        }
    }
}

proof fn lemma_fold_phase_sound<T>(t: Seq<Formula<T>>, env: spec_fn(T) -> bool)
    ensures
        eval(Formula::All(fold_phase(t)), env) == eval(Formula::All(t), env),
{
    if first_from(t, 0) < t.len() {
        let h = not_var_hits(t);
        let rest = select(t, h, false);
        let removed = select(t, h, true);
        let vars = removed.map_values(|x: Formula<T>| *x->Not_0);
        lemma_first_from(t, 0);
        lemma_select_members(t, h, false);
        lemma_select_members(t, h, true);
        let k0 = first_from(t, 0);
        assert(rest.contains(t[k0]));
        lemma_first_from(rest, 0);
        let k = first_from(rest, 0);
        if k >= rest.len() {
            let j = choose|j: int| 0 <= j < rest.len() && rest[j] == t[k0];
            assert(false);
        }
        lemma_partition(t, h, env);
        lemma_eval_lists(removed, env);
        lemma_eval_lists(vars, env);
        assert forall|j: int| 0 <= j < removed.len() implies eval(#[trigger] removed[j], env) == !eval(
            vars[j],
            env,
        ) by {
            assert(removed.contains(removed[j]));
            let i = choose|i: int| 0 <= i < t.len() && h[i] == true && #[trigger] t[i] == removed[j];
        }
        if eval(Formula::All(removed), env) {
            if eval(Formula::Any(vars), env) {
                let j = choose|j: int| 0 <= j < vars.len() && eval(#[trigger] vars[j], env);
                assert(!eval(removed[j], env));
            }
        }
        if !eval(Formula::All(removed), env) {
            let j = choose|j: int| 0 <= j < removed.len() && !eval(#[trigger] removed[j], env);
            assert(eval(vars[j], env));
        }
        let y = Formula::Not(Box::new(Formula::Any(not_any_items(rest[k]) + vars)));
        let u = rest.update(k, y);
        lemma_concat(not_any_items(rest[k]), vars, env);
        lemma_remove(rest, k, env);
        lemma_remove(u, k, env);
        assert(u.remove(k) =~= rest.remove(k));
    }
}

proof fn lemma_model_not_any<T>(items: Vec<Expr<T>>)
    ensures
        model(Expr::Not(Box::new(Expr::Any(items)))) == Formula::Not(
            Box::new(Formula::Any(models(items))),
        ),
{
    assert(model(Expr::Any(items)) == Formula::Any(models(items)));
}

fn not_any_at<T>(v: &Vec<Expr<T>>, i: usize) -> (r: bool)
    requires
        i < v.len(),
    ensures
        r == is_not_any(models(*v)[i as int]),
{
    let x = &v[i];
    assert(models(*v)[i as int] == model(*x));
    match x {
        Expr::Not(b) => {
            assert(model(*x) == Formula::Not(Box::new(model(**b))));
            match &**b {
                Expr::Any(items) => {
                    assert(model(**b) == Formula::Any(models(*items)));
                    true
                },
                _ => false,
            }
        },
        _ => false,
    }
}

fn is_not_var_expr<T>(x: &Expr<T>) -> (r: bool)
    ensures
        r == is_not_var(model(*x)),
{
    match x {
        Expr::Not(b) => {
            assert(model(*x) == Formula::Not(Box::new(model(**b))));
            match &**b {
                Expr::Var(a) => {
                    assert(model(**b) == Formula::Var(*a));
                    true
                },
                _ => false,
            }
        },
        _ => false,
    }
}

fn is_empty_not_any<T>(x: &Expr<T>) -> (r: bool)
    ensures
        r == (model(*x) == empty_not_any::<T>()),
{
    match x {
        Expr::Not(b) => match &**b {
            Expr::Any(items) => {
                assert(model(*x) == Formula::Not(Box::new(model(**b))));
                assert(model(**b) == Formula::Any(models(*items)));
                proof {
                    if items.len() == 0 {
                        assert(models(*items) =~= Seq::<Formula<T>>::empty());
                    } else {
                        assert(models(*items).len() != Seq::<Formula<T>>::empty().len());
                    }
                }
                items.len() == 0
            },
            _ => {
                assert(model(*x) == Formula::Not(Box::new(model(**b))));
                false
            },
        },
        _ => false,
    }
}

/// The position of the first negated disjunction at or after `i`, or the length.
fn first_not_any<T>(v: &Vec<Expr<T>>, i: usize) -> (r: usize)
    requires
        i <= v.len(),
    ensures
        r == first_from(models(*v), i as int),
{
    let mut k = i;
    while k < v.len()
        invariant
            i <= k <= v.len(),
            first_from(models(*v), k as int) == first_from(models(*v), i as int),
        decreases v.len() - k,
    {
        if not_any_at(v, k) {
            return k;
        }
        k = k + 1;
    }
    k
}

/// The variable that a negated variable negates.
fn unwrap_expr_not_var<T>(expr: Expr<T>) -> (r: Expr<T>)
    requires
        is_not_var(model(expr)),
    ensures
        model(r) == *model(expr)->Not_0,
{
    match expr {
        Expr::Not(b) => *b,
        e => e,
    }
}

/// Moves the elements of every negated disjunction, in order, into one list, leaving
/// each of them empty, then puts them all in the one at `k`.
fn merge_into<T>(all: &mut Vec<Expr<T>>, k: usize)
    requires
        k < old(all).len(),
        is_not_any(models(*old(all))[k as int]),
    ensures
        models(*final(all)) == merge_marked(models(*old(all)), k as int),
{
    let ghost m0 = models(*all);
    let n = all.len();
    let mut merged: Vec<Expr<T>> = Vec::new();
    let mut i: usize = 0;
    while i < n
        invariant
            all.len() == n == m0.len(),
            0 <= i <= n,
            models(merged) == gather(m0.subrange(0, i as int)),
            forall|j: int|
                0 <= j < i ==> #[trigger] models(*all)[j] == if is_not_any(m0[j]) {
                    empty_not_any()
                } else {
                    m0[j]
                },
            forall|j: int| i <= j < n ==> #[trigger] models(*all)[j] == m0[j],
        decreases n - i,
    {
        proof {
            assert(m0.subrange(0, i + 1).drop_last() =~= m0.subrange(0, i as int));
            assert(m0.subrange(0, i + 1).last() == m0[i as int]);
        }
        let ghost m = models(*all);
        assert(m[i as int] == m0[i as int]);
        let x = take_at(all, i);
        let ghost mx = model(x);
        match x {
            Expr::Not(b) => match *b {
                Expr::Any(mut items) => {
                    proof {
                        lemma_model_not_any(items);
                    }
                    assert(mx == Formula::Not(Box::new(Formula::Any(models(items)))));
                    assert(not_any_items(mx) == models(items));
                    let ghost merged0 = models(merged);
                    let ghost items0 = models(items);
                    merged.append(&mut items);
                    let empty: Vec<Expr<T>> = Vec::new();
                    proof {
                        lemma_model_not_any(empty);
                    }
                    all[i] = Expr::Not(Box::new(Expr::Any(empty)));
                    proof {
                        assert(models(merged) =~= merged0 + items0);
                        assert(models(empty) =~= Seq::<Formula<T>>::empty());
                        assert(models(*all) =~= m.update(i as int, empty_not_any()));
                    }
                },
                other => {
                    assert(mx == Formula::Not(Box::new(model(other))));
                    all[i] = Expr::Not(Box::new(other));
                    proof {
                        assert(models(merged) =~= gather(m0.subrange(0, i + 1)));
                        assert(models(*all) =~= m.update(i as int, mx));
                    }
                },
            },
            other => {
                all[i] = other;
                proof {
                    assert(models(merged) =~= gather(m0.subrange(0, i + 1)));
                    assert(models(*all) =~= m.update(i as int, mx));
                }
            },
        }
        i = i + 1;
    }
    let ghost m = models(*all);
    let ghost mm = models(merged);
    proof {
        lemma_model_not_any(merged);
    }
    let nx = Expr::Not(Box::new(Expr::Any(merged)));
    assert(model(nx) == Formula::Not(Box::new(Formula::Any(mm))));
    all[k] = nx;
    proof {
        assert(m0.subrange(0, n as int) =~= m0);
        assert(mm == gather(m0));
        assert(models(*all) =~= m.update(k as int, Formula::Not(Box::new(Formula::Any(mm)))));
        assert(models(*all) =~= merge_marked(m0, k as int));
    }
}

fn merge_not_node_vec<T>(all: &mut Vec<Expr<T>>)
    ensures
        models(*final(all)) == merge_not_node(models(*old(all))),
{
    let ghost m0 = models(*all);
    let k = first_not_any(all, 0);
    proof {
        lemma_first_from(m0, 0);
    }
    if k == all.len() {
        return;
    }
    let second = first_not_any(all, k + 1);
    proof {
        lemma_first_from(m0, k + 1);
        if second < m0.len() {
            assert(is_not_any(m0[second as int]));
        }
    }
    if second < all.len() {
        merge_into(all, k);
        let ghost t = models(*all);
        let ghost v0 = *all;
        let pred = |x: &Expr<T>| -> (r: bool)
            ensures
                r == (model(*x) == empty_not_any::<T>()),
            { is_empty_not_any(x) };
        remove_if(all, pred);
        proof {
            let hits = choose|hits: Seq<bool>|
                {
                    &&& hits.len() == v0.len()
                    &&& forall|i: int|
                        0 <= i < hits.len() ==> pred.ensures((&v0[i],), #[trigger] hits[i])
                    &&& all@ == select(v0@, hits, false)
                };
            assert(hits =~= empty_hits(t));
            lemma_models_map(v0);
            lemma_models_map(*all);
            lemma_select_map(v0@, hits, false, |e: Expr<T>| model(e));
        }
    } else {
        proof {
            assert(!exists|j: int| k < j < m0.len() && is_not_any(#[trigger] m0[j]));
        }
    }
    let ghost t = models(*all);
    assert(t == merge_phase(m0));
    if first_not_any(all, 0) == all.len() {
        return;
    }
    let ghost v0 = *all;
    let pred = |x: &Expr<T>| -> (r: bool)
        ensures
            r == is_not_var(model(*x)),
        { is_not_var_expr(x) };
    let removed = drain_filter(all, pred);
    let ghost h = not_var_hits(t);
    proof {
        let hits = choose|hits: Seq<bool>|
            {
                &&& hits.len() == v0.len()
                &&& forall|i: int|
                    0 <= i < hits.len() ==> pred.ensures((&v0[i],), #[trigger] hits[i])
                &&& all@ == select(v0@, hits, false)
                &&& removed@ == select(v0@, hits, true)
            };
        assert(hits =~= h);
        lemma_models_map(v0);
        lemma_models_map(*all);
        lemma_models_map(removed);
        lemma_select_map(v0@, hits, false, |e: Expr<T>| model(e));
        lemma_select_map(v0@, hits, true, |e: Expr<T>| model(e));
        lemma_select_members(t, h, true);
    }
    let ghost rest = models(*all);
    let ghost rm = models(removed);
    assert(rest == select(t, h, false));
    assert(rm == select(t, h, true));
    let k2 = first_not_any(all, 0);
    proof {
        lemma_first_from(t, 0);
        lemma_select_members(t, h, false);
        let k0 = first_from(t, 0);
        assert(rest.contains(t[k0]));
        lemma_first_from(rest, 0);
        if k2 >= rest.len() {
            let j = choose|j: int| 0 <= j < rest.len() && rest[j] == t[k0];
            assert(false);
        }
    }
    let x = take_at(all, k2);
    assert(model(x) == rest[k2 as int]);
    let mut items = match x {
        Expr::Not(b) => {
            assert(model(x) == Formula::Not(Box::new(model(*b))));
            match *b {
                Expr::Any(items) => {
                    assert(model(x) == Formula::Not(Box::new(Formula::Any(models(items)))));
                    items
                },
                _ => Vec::new(),
            }
        },
        _ => Vec::new(),
    };
    let ghost items0 = models(items);
    assert(items0 == not_any_items(rest[k2 as int]));
    assert(rm.subrange(0, 0).map_values(|x: Formula<T>| *x->Not_0) =~= Seq::<Formula<T>>::empty());
    assert(items0 + Seq::<Formula<T>>::empty() =~= items0);
    proof {
        assert forall|l: int| 0 <= l < rm.len() implies is_not_var(#[trigger] rm[l]) by {
            assert(rm.contains(rm[l]));
            let i = choose|i: int| 0 <= i < t.len() && h[i] == true && #[trigger] t[i] == rm[l];
        }
    }
    let mut removed = removed;
    let rn = removed.len();
    let mut j: usize = 0;
    while j < rn
        invariant
            removed.len() == rn == rm.len(),
            0 <= j <= rn,
            forall|l: int| 0 <= l < rn ==> is_not_var(#[trigger] rm[l]),
            forall|l: int| j <= l < rn ==> model(#[trigger] removed[l]) == rm[l],
            models(items) == items0 + rm.subrange(0, j as int).map_values(
                |x: Formula<T>| *x->Not_0,
            ),
        decreases rn - j,
    {
        let y = take_at(&mut removed, j);
        let var = unwrap_expr_not_var(y);
        let ghost before = models(items);
        items.push(var);
        proof {
            assert(rm.subrange(0, j + 1).map_values(|x: Formula<T>| *x->Not_0) =~= rm.subrange(
                0,
                j as int,
            ).map_values(|x: Formula<T>| *x->Not_0).push(*rm[j as int]->Not_0));
            assert(models(items) =~= before.push(model(var)));
        }
        j = j + 1;
    }
    let ghost mi = models(items);
    proof {
        lemma_model_not_any(items);
    }
    let nx = Expr::Not(Box::new(Expr::Any(items)));
    assert(model(nx) == Formula::Not(Box::new(Formula::Any(mi))));
    all[k2] = nx;
    proof {
        assert(rm.subrange(0, rn as int) =~= rm);
        assert(models(*all) =~= fold_phase(t));
    }
}

/// In a conjunction, merges the negated disjunctions into the first of them, which
/// also takes the variables of the negated variables: `!a & !b == !(a | b)`. When
/// the merged disjunction is empty, the negated variables stay as they are.
pub struct MergeAllOfNotAny;

impl<T> Rewrite<T> for MergeAllOfNotAny {
    open spec fn node(f: Formula<T>) -> Formula<T> {
        merge_negations_node(f)
    }

    proof fn lemma_node_sound(f: Formula<T>, env: spec_fn(T) -> bool) {
        match f {
            Formula::All(s) => {
                lemma_merge_phase_sound(s, env);
                lemma_fold_phase_sound(merge_phase(s), env);
            },
            _ => {},
        }
    }

    fn rewrite_node(&self, e: Expr<T>) -> (r: Expr<T>) {
        let ghost fe = e@;
        match e {
            Expr::All(mut w) => {
                assert(fe == Formula::All(models(w)));
                merge_not_node_vec(&mut w);
                Expr::All(w)
            },
            e => e,
        }
    }
}

impl MergeAllOfNotAny {
    /// Rewrites the elements of a conjunction's list, then the list itself.
    pub fn visit_mut_all<T>(&mut self, all: &mut Vec<Expr<T>>)
        ensures
            models(*final(all)) == merge_not_node(
                rewritten_list::<T, MergeAllOfNotAny>(models(*old(all))),
            ),
    {
        walk_mut_expr_list(self, all);
        merge_not_node_vec(all);
    }

    pub fn visit_mut_expr<T>(&mut self, expr: &mut Expr<T>)
        ensures
            final(expr)@ == rewritten::<T, MergeAllOfNotAny>(old(expr)@),
    {
        walk_in_place(self, expr);
    }
}

} // verus!
