use vstd::prelude::*;
use crate::utils::select;

verus! {

broadcast use vstd::std_specs::vec::group_vec_axioms;

/// An atom type: atoms are compared for equality and copied by these two methods.
pub trait Atom: Sized {
    fn same(&self, other: &Self) -> (r: bool)
        ensures
            r == (*self == *other),
    ;

    fn duplicate(&self) -> (r: Self)
        ensures
            r == *self,
    ;
}

impl Atom for u32 {
    fn same(&self, other: &u32) -> (r: bool) {
        *self == *other
    }

    fn duplicate(&self) -> (r: u32) {
        *self
    }
}

impl Atom for u64 {
    fn same(&self, other: &u64) -> (r: bool) {
        *self == *other
    }

    fn duplicate(&self) -> (r: u64) {
        *self
    }
}

impl Atom for i32 {
    fn same(&self, other: &i32) -> (r: bool) {
        *self == *other
    }

    fn duplicate(&self) -> (r: i32) {
        *self
    }
}

/// A boolean expression tree over atoms of type `T`.
#[derive(Debug, PartialEq, Eq)]
pub enum Expr<T> {
    /// Disjunction of the list; the empty one is false.
    Any(Vec<Expr<T>>),
    /// Conjunction of the list; the empty one is true.
    All(Vec<Expr<T>>),
    /// Negation.
    Not(Box<Expr<T>>),
    /// An atom.
    Var(T),
    /// A constant.
    Const(bool),
}

/// The mathematical model of an [`Expr`]: the same tree with sequences for lists.
pub enum Formula<T> {
    Any(Seq<Formula<T>>),
    All(Seq<Formula<T>>),
    Not(Box<Formula<T>>),
    Var(T),
    Const(bool),
}

/// The model of an expression, with each child list read as a sequence.
pub open spec fn model<T>(e: Expr<T>) -> Formula<T>
    decreases e,
{
    match e {
        Expr::Any(v) => Formula::Any(models(v)),
        Expr::All(v) => Formula::All(models(v)),
        Expr::Not(b) => Formula::Not(Box::new(model(*b))),
        Expr::Var(x) => Formula::Var(x),
        Expr::Const(c) => Formula::Const(c),
    }
}

/// The models of a list of expressions, element by element.
pub open spec fn models<T>(v: Vec<Expr<T>>) -> Seq<Formula<T>>
    decreases v,
{
    Seq::new(
        v.len() as nat,
        |i: int|
            if 0 <= i < v.len() {
                model(v[i])
            } else {
                Formula::Const(false)
            },
    )
}

impl<T> View for Expr<T> {
    type V = Formula<T>;

    open spec fn view(&self) -> Formula<T> {
        model(*self)
    }
}

/// The value of a formula when each atom `x` has the value `env(x)`.
pub open spec fn eval<T>(f: Formula<T>, env: spec_fn(T) -> bool) -> bool
    decreases f,
{
    match f {
        Formula::Any(s) => any_holds(s, env),
        Formula::All(s) => all_hold(s, env),
        Formula::Not(b) => !eval(*b, env),
        Formula::Var(x) => env(x),
        Formula::Const(c) => c,
    }
}

/// Some element of the sequence evaluates to true.
pub open spec fn any_holds<T>(s: Seq<Formula<T>>, env: spec_fn(T) -> bool) -> bool
    decreases s,
{
    if s.len() == 0 {
        false
    } else {
        any_holds(s.drop_last(), env) || eval(s.last(), env)
    }
}

/// Every element of the sequence evaluates to true.
pub open spec fn all_hold<T>(s: Seq<Formula<T>>, env: spec_fn(T) -> bool) -> bool
    decreases s,
{
    if s.len() == 0 {
        true
    } else {
        all_hold(s.drop_last(), env) && eval(s.last(), env)
    }
}

/// A disjunction holds when one of its elements does; a conjunction when all do.
pub proof fn lemma_eval_lists<T>(s: Seq<Formula<T>>, env: spec_fn(T) -> bool)
    ensures
        eval(Formula::Any(s), env) == (exists|i: int| 0 <= i < s.len() && eval(#[trigger] s[i], env)),
        eval(Formula::All(s), env) == (forall|i: int| 0 <= i < s.len() ==> eval(#[trigger] s[i], env)),
    decreases s.len(),
{
    lemma_holds(s, env);
}

proof fn lemma_holds<T>(s: Seq<Formula<T>>, env: spec_fn(T) -> bool)
    ensures
        any_holds(s, env) == (exists|i: int| 0 <= i < s.len() && eval(#[trigger] s[i], env)),
        all_hold(s, env) == (forall|i: int| 0 <= i < s.len() ==> eval(#[trigger] s[i], env)),
    decreases s.len(),
{
    if s.len() > 0 {
        let p = s.drop_last();
        lemma_holds(p, env);
        assert(any_holds(s, env) == (any_holds(p, env) || eval(s.last(), env)));
        assert(all_hold(s, env) == (all_hold(p, env) && eval(s.last(), env)));
        assert forall|i: int| 0 <= i < p.len() implies #[trigger] p[i] == s[i] by {}
        if any_holds(s, env) {
            if any_holds(p, env) {
                let i = choose|i: int| 0 <= i < p.len() && eval(#[trigger] p[i], env);
                assert(eval(s[i], env));
            } else {
                assert(eval(s[s.len() - 1], env));
            }
        }
        if exists|i: int| 0 <= i < s.len() && eval(#[trigger] s[i], env) {
            let i = choose|i: int| 0 <= i < s.len() && eval(#[trigger] s[i], env);
            if i < p.len() {
                assert(eval(p[i], env));
            }
        }
        if !all_hold(s, env) {
            if !all_hold(p, env) {
                let i = choose|i: int| 0 <= i < p.len() && !eval(#[trigger] p[i], env);
                assert(!eval(s[i], env));
            } else {
                assert(!eval(s[s.len() - 1], env));
            }
        }
        if !(forall|i: int| 0 <= i < s.len() ==> eval(#[trigger] s[i], env)) {
            let i = choose|i: int| 0 <= i < s.len() && !eval(#[trigger] s[i], env);
            if i < p.len() {
                assert(!eval(p[i], env));
            }
        }
    }
}

/// Two lists whose elements evaluate alike, position by position, give disjunctions
/// that evaluate alike and conjunctions that evaluate alike.
pub proof fn lemma_pointwise<T>(s: Seq<Formula<T>>, t: Seq<Formula<T>>, env: spec_fn(T) -> bool)
    requires
        s.len() == t.len(),
        forall|i: int| 0 <= i < s.len() ==> eval(#[trigger] s[i], env) == eval(t[i], env),
    ensures
        eval(Formula::Any(s), env) == eval(Formula::Any(t), env),
        eval(Formula::All(s), env) == eval(Formula::All(t), env),
{
    lemma_eval_lists(s, env);
    lemma_eval_lists(t, env);
    if eval(Formula::Any(s), env) {
        let i = choose|i: int| 0 <= i < s.len() && eval(#[trigger] s[i], env);
        assert(eval(t[i], env));
    }
    if eval(Formula::Any(t), env) {
        let i = choose|i: int| 0 <= i < t.len() && eval(#[trigger] t[i], env);
        assert(eval(s[i], env));
    }
    if !eval(Formula::All(s), env) {
        let i = choose|i: int| 0 <= i < s.len() && !eval(#[trigger] s[i], env);
        assert(!eval(t[i], env));
    }
    if !eval(Formula::All(t), env) {
        let i = choose|i: int| 0 <= i < t.len() && !eval(#[trigger] t[i], env);
        assert(!eval(s[i], env));
    }
}

/// A list made of two parts holds as a disjunction when either part does, and as a
/// conjunction when both do.
pub proof fn lemma_concat<T>(a: Seq<Formula<T>>, b: Seq<Formula<T>>, env: spec_fn(T) -> bool)
    ensures
        eval(Formula::Any(a + b), env) == (eval(Formula::Any(a), env) || eval(Formula::Any(b), env)),
        eval(Formula::All(a + b), env) == (eval(Formula::All(a), env) && eval(Formula::All(b), env)),
{
    let c = a + b;
    lemma_eval_lists(a, env);
    lemma_eval_lists(b, env);
    lemma_eval_lists(c, env);
    if eval(Formula::Any(c), env) {
        let i = choose|i: int| 0 <= i < c.len() && eval(#[trigger] c[i], env);
        if i < a.len() {
            assert(eval(a[i], env));
        } else {
            assert(eval(b[i - a.len()], env));
        }
    }
    if eval(Formula::Any(a), env) {
        let i = choose|i: int| 0 <= i < a.len() && eval(#[trigger] a[i], env);
        assert(eval(c[i], env));
    }
    if eval(Formula::Any(b), env) {
        let i = choose|i: int| 0 <= i < b.len() && eval(#[trigger] b[i], env);
        assert(eval(c[i + a.len()], env));
    }
    if !eval(Formula::All(c), env) {
        let i = choose|i: int| 0 <= i < c.len() && !eval(#[trigger] c[i], env);
        if i < a.len() {
            assert(!eval(a[i], env));
        } else {
            assert(!eval(b[i - a.len()], env));
        }
    }
    if !eval(Formula::All(a), env) {
        let i = choose|i: int| 0 <= i < a.len() && !eval(#[trigger] a[i], env);
        assert(!eval(c[i], env));
    }
    if !eval(Formula::All(b), env) {
        let i = choose|i: int| 0 <= i < b.len() && !eval(#[trigger] b[i], env);
        assert(!eval(c[i + a.len()], env));
    }
}

/// A one-element list holds, as either kind of list, exactly when its element does.
pub proof fn lemma_single<T>(x: Formula<T>, env: spec_fn(T) -> bool)
    ensures
        eval(Formula::Any(seq![x]), env) == eval(x, env),
        eval(Formula::All(seq![x]), env) == eval(x, env),
{
    lemma_eval_lists(seq![x], env);
    assert(seq![x][0] == x);
}

/// The models of a list are the models of its elements.
pub proof fn lemma_models_map<T>(v: Vec<Expr<T>>)
    ensures
        models(v) == v@.map_values(|e: Expr<T>| model(e)),
{
    assert(models(v) =~= v@.map_values(|e: Expr<T>| model(e)));
}

/// Each element of a selection comes from a selected position, and each selected
/// position gives an element of the selection.
pub proof fn lemma_select_members<T>(s: Seq<T>, hits: Seq<bool>, b: bool)
    requires
        hits.len() == s.len(),
    ensures
        forall|x: T|
            select(s, hits, b).contains(x) ==> exists|i: int|
                0 <= i < s.len() && hits[i] == b && #[trigger] s[i] == x,
        forall|i: int| 0 <= i < s.len() && hits[i] == b ==> select(s, hits, b).contains(#[trigger] s[i]),
    decreases s.len(),
{
    if s.len() > 0 {
        let p = s.drop_last();
        let h = hits.subrange(0, s.len() - 1);
        lemma_select_members(p, h, b);
        let q = select(p, h, b);
        let r = select(s, hits, b);
        assert forall|x: T| r.contains(x) implies exists|i: int|
            0 <= i < s.len() && hits[i] == b && #[trigger] s[i] == x by {
            let j = choose|j: int| 0 <= j < r.len() && r[j] == x;
            if j < q.len() {
                assert(q[j] == x);
                assert(q.contains(x));
                let i = choose|i: int| 0 <= i < p.len() && h[i] == b && #[trigger] p[i] == x;
                assert(s[i] == x);
            } else {
                assert(s[s.len() - 1] == x);
            }
        }
        assert forall|i: int| 0 <= i < s.len() && hits[i] == b implies r.contains(#[trigger] s[i]) by {
            if i < p.len() {
                assert(p[i] == s[i]);
                assert(h[i] == hits[i]);
                assert(q.contains(p[i]));
                let j = choose|j: int| 0 <= j < q.len() && q[j] == p[i];
                assert(r[j] == s[i]);
            } else {
                assert(r[r.len() - 1] == s[i]);
            }
        }
    }
}

/// Dropping from a disjunction elements that are false, or from a conjunction
/// elements that are true, keeps its value.
pub proof fn lemma_select_sound<T>(s: Seq<Formula<T>>, hits: Seq<bool>, env: spec_fn(T) -> bool)
    requires
        hits.len() == s.len(),
    ensures
        (forall|i: int| 0 <= i < s.len() && #[trigger] hits[i] ==> !eval(s[i], env)) ==> eval(
            Formula::Any(select(s, hits, false)),
            env,
        ) == eval(Formula::Any(s), env),
        (forall|i: int| 0 <= i < s.len() && #[trigger] hits[i] ==> eval(s[i], env)) ==> eval(
            Formula::All(select(s, hits, false)),
            env,
        ) == eval(Formula::All(s), env),
{
    let r = select(s, hits, false);
    lemma_select_members(s, hits, false);
    lemma_eval_lists(s, env);
    lemma_eval_lists(r, env);
    if forall|i: int| 0 <= i < s.len() && #[trigger] hits[i] ==> !eval(s[i], env) {
        if eval(Formula::Any(s), env) {
            let i = choose|i: int| 0 <= i < s.len() && eval(#[trigger] s[i], env);
            assert(r.contains(s[i]));
        }
        if eval(Formula::Any(r), env) {
            let j = choose|j: int| 0 <= j < r.len() && eval(#[trigger] r[j], env);
            assert(r.contains(r[j]));
        }
    }
    if forall|i: int| 0 <= i < s.len() && #[trigger] hits[i] ==> eval(s[i], env) {
        if !eval(Formula::All(s), env) {
            let i = choose|i: int| 0 <= i < s.len() && !eval(#[trigger] s[i], env);
            assert(r.contains(s[i]));
        }
        if !eval(Formula::All(r), env) {
            let j = choose|j: int| 0 <= j < r.len() && !eval(#[trigger] r[j], env);
            assert(r.contains(r[j]));
        }
    }
}

/// Two lists with the same members hold alike, as disjunctions and as conjunctions.
pub proof fn lemma_same_members<T>(s: Seq<Formula<T>>, t: Seq<Formula<T>>, env: spec_fn(T) -> bool)
    requires
        forall|x: Formula<T>| s.contains(x) <==> t.contains(x),
    ensures
        eval(Formula::Any(s), env) == eval(Formula::Any(t), env),
        eval(Formula::All(s), env) == eval(Formula::All(t), env),
{
    lemma_eval_lists(s, env);
    lemma_eval_lists(t, env);
    if eval(Formula::Any(s), env) {
        let i = choose|i: int| 0 <= i < s.len() && eval(#[trigger] s[i], env);
        assert(s.contains(s[i]));
        let j = choose|j: int| 0 <= j < t.len() && t[j] == s[i];
        assert(eval(t[j], env));
    }
    if eval(Formula::Any(t), env) {
        let i = choose|i: int| 0 <= i < t.len() && eval(#[trigger] t[i], env);
        assert(t.contains(t[i]));
        let j = choose|j: int| 0 <= j < s.len() && s[j] == t[i];
        assert(eval(s[j], env));
    }
    if !eval(Formula::All(s), env) {
        let i = choose|i: int| 0 <= i < s.len() && !eval(#[trigger] s[i], env);
        assert(s.contains(s[i]));
        let j = choose|j: int| 0 <= j < t.len() && t[j] == s[i];
        assert(!eval(t[j], env));
    }
    if !eval(Formula::All(t), env) {
        let i = choose|i: int| 0 <= i < t.len() && !eval(#[trigger] t[i], env);
        assert(t.contains(t[i]));
        let j = choose|j: int| 0 <= j < s.len() && s[j] == t[i];
        assert(!eval(s[j], env));
    }
}

/// Whether the list holds an element structurally equal to `x`.
pub fn contains_expr<T: Atom>(v: &Vec<Expr<T>>, x: &Expr<T>) -> (r: bool)
    ensures
        r == models(*v).contains(model(*x)),
{
    let mut i: usize = 0;
    while i < v.len()
        invariant
            0 <= i <= v.len(),
            forall|j: int| 0 <= j < i ==> models(*v)[j] != model(*x),
        decreases v.len() - i,
    {
        if v[i].same(x) {
            assert(models(*v)[i as int] == model(*x));
            return true;
        }
        i = i + 1;
    }
    false
}

/// Removing one element: a disjunction then holds when the rest or that element
/// does, a conjunction when the rest and that element do.
pub proof fn lemma_remove<T>(s: Seq<Formula<T>>, i: int, env: spec_fn(T) -> bool)
    requires
        0 <= i < s.len(),
    ensures
        eval(Formula::Any(s), env) == (eval(Formula::Any(s.remove(i)), env) || eval(s[i], env)),
        eval(Formula::All(s), env) == (eval(Formula::All(s.remove(i)), env) && eval(s[i], env)),
{
    let a = s.subrange(0, i);
    let b = s.subrange(i + 1, s.len() as int);
    assert(s =~= (a + seq![s[i]]) + b);
    assert(s.remove(i) =~= a + b);
    lemma_concat(a + seq![s[i]], b, env);
    lemma_concat(a, seq![s[i]], env);
    lemma_concat(a, b, env);
    lemma_single(s[i], env);
}

/// Builds a disjunction of `list`.
pub fn any<T>(list: Vec<Expr<T>>) -> (r: Expr<T>)
    ensures
        r == Expr::Any(list),
{
    Expr::Any(list)
}

/// Builds a conjunction of `list`.
pub fn all<T>(list: Vec<Expr<T>>) -> (r: Expr<T>)
    ensures
        r == Expr::All(list),
{
    Expr::All(list)
}

/// Builds the negation of `e`.
pub fn not<T>(e: Expr<T>) -> (r: Expr<T>)
    ensures
        r == Expr::Not(Box::new(e)),
{
    Expr::Not(Box::new(e))
}

/// Builds a variable.
pub fn var<T>(x: T) -> (r: Expr<T>)
    ensures
        r == Expr::Var(x),
{
    Expr::Var(x)
}

/// Builds a constant.
pub fn const_<T>(c: bool) -> (r: Expr<T>)
    ensures
        r == Expr::<T>::Const(c),
{
    Expr::Const(c)
}

impl<T: Atom> Expr<T> {
    /// A copy of the whole tree.
    pub fn deep_copy(&self) -> (r: Expr<T>)
        ensures
            r@ == self@,
        decreases self,
    {
        match self {
            Expr::Any(v) => Expr::Any(copy_list(v)),
            Expr::All(v) => Expr::All(copy_list(v)),
            Expr::Not(b) => Expr::Not(Box::new((**b).deep_copy())),
            Expr::Var(x) => Expr::Var(x.duplicate()),
            Expr::Const(c) => Expr::Const(*c),
        }
    }

    /// Structural equality: the two trees have the same shape and the same atoms.
    pub fn same(&self, other: &Expr<T>) -> (r: bool)
        ensures
            r == (self@ == other@),
        decreases self,
    {
        match (self, other) {
            (Expr::Any(a), Expr::Any(b)) => same_list(a, b),
            (Expr::All(a), Expr::All(b)) => same_list(a, b),
            (Expr::Not(a), Expr::Not(b)) => {
                let r = (**a).same(&**b);
                proof {
                    if !r {
                        assert(model(**a) != model(**b));
                        assert(self@->Not_0 != other@->Not_0);
                    }
                }
                r
            },
            (Expr::Var(a), Expr::Var(b)) => a.same(b),
            (Expr::Const(a), Expr::Const(b)) => *a == *b,
            _ => false,
        }
    }
}

/// Moves the element at `i` out of `v`, leaving a constant in its place.
pub fn take_at<T>(v: &mut Vec<Expr<T>>, i: usize) -> (r: Expr<T>)
    requires
        i < old(v).len(),
    ensures
        r == old(v)[i as int],
        final(v)@ == old(v)@.update(i as int, Expr::Const(false)),
{
    let mut x = Expr::Const(false);
    std::mem::swap(&mut v[i], &mut x);
    x
}

/// A copy of each element of the list.
pub fn copy_list<T: Atom>(v: &Vec<Expr<T>>) -> (w: Vec<Expr<T>>)
    ensures
        models(w) == models(*v),
    decreases v,
{
    let mut w: Vec<Expr<T>> = Vec::new();
    let mut i: usize = 0;
    while i < v.len()
        invariant
            0 <= i <= v.len(),
            w.len() == i,
            forall|j: int| 0 <= j < i ==> model(#[trigger] w[j]) == model(v[j]),
        decreases v.len() - i,
    {
        proof {
            assert(decreases_to!(*v => v[i as int]));
        }
        w.push(v[i].deep_copy());
        i = i + 1;
    }
    proof {
        assert(models(w) =~= models(*v));
    }
    w
}

/// Element-wise structural equality of two lists.
pub fn same_list<T: Atom>(a: &Vec<Expr<T>>, b: &Vec<Expr<T>>) -> (r: bool)
    ensures
        r == (models(*a) == models(*b)),
    decreases a,
{
    if a.len() != b.len() {
        proof {
            assert(models(*a).len() != models(*b).len());
        }
        return false;
    }
    let mut i: usize = 0;
    while i < a.len()
        invariant
            a.len() == b.len(),
            0 <= i <= a.len(),
            forall|j: int| 0 <= j < i ==> models(*a)[j] == models(*b)[j],
        decreases a.len() - i,
    {
        proof {
            assert(decreases_to!(*a => a[i as int]));
        }
        if !a[i].same(&b[i]) {
            proof {
                assert(models(*a)[i as int] != models(*b)[i as int]);
            }
            return false;
        }
        i = i + 1;
    }
    proof {
        assert(models(*a) =~= models(*b));
    }
    true
}

} // verus!
