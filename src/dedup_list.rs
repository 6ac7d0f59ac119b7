use vstd::prelude::*;
use crate::ast::{
    contains_expr, eval, lemma_same_members, model, models, take_at, Atom, Expr, Formula,
};
use crate::visit_mut::{everywhere, lemma_rewritten_fixed, rewritten, walk_in_place, Rewrite};

verus! {

broadcast use vstd::std_specs::vec::group_vec_axioms;

/// The first occurrence of each element of `s`, in order.
pub open spec fn first_occurrences<T>(s: Seq<T>) -> Seq<T>
    decreases s.len(),
{
    if s.len() == 0 {
        Seq::empty()
    } else {
        let d = first_occurrences(s.drop_last());
        if d.contains(s.last()) {
            d
        } else {
            d.push(s.last())
        }
    }
}

/// Each list keeps only the first of structurally equal elements.
pub open spec fn dedup_node<T>(f: Formula<T>) -> Formula<T> {
    match f {
        Formula::Any(s) => Formula::Any(first_occurrences(s)),
        Formula::All(s) => Formula::All(first_occurrences(s)),
        _ => f,
    }
}

/// Keeping first occurrences keeps the members, and leaves no element twice.
pub proof fn lemma_first_occurrences<T>(s: Seq<T>)
    ensures
        forall|x: T| first_occurrences(s).contains(x) <==> s.contains(x),
        first_occurrences(s).no_duplicates(),
    decreases s.len(),
{
    if s.len() > 0 {
        let p = s.drop_last();
        lemma_first_occurrences(p);
        let d = first_occurrences(p);
        assert forall|x: T| first_occurrences(s).contains(x) <==> s.contains(x) by {
            if s.contains(x) {
                let i = choose|i: int| 0 <= i < s.len() && s[i] == x;
                if i < p.len() {
                    assert(p[i] == x);
                }
            }
            if p.contains(x) {
                let i = choose|i: int| 0 <= i < p.len() && p[i] == x;
                assert(s[i] == x);
            }
            if !d.contains(s.last()) {
                assert(d.push(s.last())[d.len() as int] == s.last());
                if d.push(s.last()).contains(x) {
                    let j = choose|j: int| 0 <= j < d.len() + 1 && d.push(s.last())[j] == x;
                    if j < d.len() {
                        assert(d[j] == x);
                    }
                }
                if d.contains(x) {
                    let j = choose|j: int| 0 <= j < d.len() && d[j] == x;
                    assert(d.push(s.last())[j] == x);
                }
            }
        }
    }
}

/// Keeps the first of each group of structurally equal elements.
/// Every list at this node holds no element twice.
pub open spec fn distinct_at<T>(f: Formula<T>) -> bool {
    match f {
        Formula::Any(s) => s.no_duplicates(),
        Formula::All(s) => s.no_duplicates(),
        _ => true,
    }
}

proof fn lemma_first_occurrences_distinct<T>(s: Seq<T>)
    requires
        s.no_duplicates(),
    ensures
        first_occurrences(s) == s,
    decreases s.len(),
{
    if s.len() > 0 {
        let p = s.drop_last();
        assert(p.no_duplicates());
        lemma_first_occurrences_distinct(p);
        if p.contains(s.last()) {
            let j = choose|j: int| 0 <= j < p.len() && p[j] == s.last();
            assert(s[j] == s[s.len() - 1]);
        }
        assert(p.push(s.last()) =~= s);
    }
}

/// A tree whose lists hold no element twice is left unchanged.
pub proof fn lemma_dedup_idempotent<T: Atom>(f: Formula<T>)
    requires
        everywhere(f, |g: Formula<T>| distinct_at(g)),
    ensures
        rewritten::<T, DedupList>(f) == f,
{
    assert forall|g: Formula<T>| #[trigger] distinct_at(g) implies <DedupList as Rewrite<T>>::node(g) == g by {
        match g {
            Formula::Any(s) => lemma_first_occurrences_distinct(s),
            Formula::All(s) => lemma_first_occurrences_distinct(s),
            _ => {},
        }
    }
    lemma_rewritten_fixed::<T, DedupList>(f, |g: Formula<T>| distinct_at(g));
}

fn first_occurrences_vec<T: Atom>(v: Vec<Expr<T>>) -> (w: Vec<Expr<T>>)
    ensures
        models(w) == first_occurrences(models(v)),
{
    let mut v = v;
    let ghost v0 = v;
    let n = v.len();
    let mut w: Vec<Expr<T>> = Vec::new();
    let mut i: usize = 0;
    while i < n
        invariant
            v.len() == n == v0.len(),
            0 <= i <= n,
            forall|j: int| i <= j < n ==> #[trigger] v[j] == v0[j],
            models(w) == first_occurrences(models(v0).subrange(0, i as int)),
        decreases n - i,
    {
        let x = take_at(&mut v, i);
        proof {
            assert(models(v0).subrange(0, i + 1).drop_last() =~= models(v0).subrange(0, i as int));
            assert(models(v0).subrange(0, i + 1).last() == model(x));
        }
        if !contains_expr(&w, &x) {
            let ghost w0 = w;
            let ghost mx = model(x);
            w.push(x);
            proof {
                assert(models(w) =~= models(w0).push(mx));
            }
        }
        i = i + 1;
    }
    proof {
        assert(models(v0).subrange(0, n as int) =~= models(v0));
    }
    w
}

/// Removes repeated elements from lists, keeping the first of each.
pub struct DedupList;

impl<T: Atom> Rewrite<T> for DedupList {
    open spec fn node(f: Formula<T>) -> Formula<T> {
        dedup_node(f)
    }

    proof fn lemma_node_sound(f: Formula<T>, env: spec_fn(T) -> bool) {
        match f {
            Formula::Any(s) => {
                lemma_first_occurrences(s);
                lemma_same_members(first_occurrences(s), s, env);
            },
            Formula::All(s) => {
                lemma_first_occurrences(s);
                lemma_same_members(first_occurrences(s), s, env);
            },
            _ => {},
        }
    }

    fn rewrite_node(&self, e: Expr<T>) -> (r: Expr<T>) {
        let ghost fe = e@;
        match e {
            Expr::Any(v) => {
                assert(fe == Formula::Any(models(v)));
                Expr::Any(first_occurrences_vec(v))
            },
            Expr::All(v) => {
                assert(fe == Formula::All(models(v)));
                Expr::All(first_occurrences_vec(v))
            },
            e => e,
        }
    }
}

impl DedupList {
    pub fn visit_mut_expr<T: Atom>(&mut self, expr: &mut Expr<T>)
        ensures
            final(expr)@ == rewritten::<T, DedupList>(old(expr)@),
    {
        walk_in_place(self, expr);
    }
}

} // verus!
