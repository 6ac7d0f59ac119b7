use vstd::prelude::*;
use crate::ast::{
    eval, lemma_eval_lists, lemma_pointwise, model, models, take_at, Atom, Expr, Formula,
};

verus! {

broadcast use vstd::std_specs::vec::group_vec_axioms;

/// The atoms of the direct variables of `s`, each once, in order of first occurrence.
pub open spec fn seen_vars<T>(s: Seq<Formula<T>>) -> Seq<T>
    decreases s.len(),
{
    if s.len() == 0 {
        Seq::empty()
    } else {
        let p = seen_vars(s.drop_last());
        match s.last() {
            Formula::Var(v) => if p.contains(v) {
                p
            } else {
                p.push(v)
            },
            _ => p,
        }
    }
}

/// The atoms that occur as direct variables of `s` at least twice, each once, in
/// order of second occurrence.
pub open spec fn repeated_vars<T>(s: Seq<Formula<T>>) -> Seq<T>
    decreases s.len(),
{
    if s.len() == 0 {
        Seq::empty()
    } else {
        let p = s.drop_last();
        let r = repeated_vars(p);
        match s.last() {
            Formula::Var(v) => if seen_vars(p).contains(v) && !r.contains(v) {
                r.push(v)
            } else {
                r
            },
            _ => r,
        }
    }
}

/// Each direct variable that repeats an earlier direct variable becomes the
/// constant `marker`.
pub open spec fn mark_repeats<T>(s: Seq<Formula<T>>, marker: bool) -> Seq<Formula<T>> {
    Seq::new(
        s.len(),
        |i: int|
            match s[i] {
                Formula::Var(v) => if seen_vars(s.subrange(0, i)).contains(v) {
                    Formula::Const(marker)
                } else {
                    s[i]
                },
                _ => s[i],
            },
    )
}

/// Substitutes the constant `marker` for every variable of `f` whose atom is in `vars`.
pub open spec fn substitute<T>(f: Formula<T>, vars: Seq<T>, marker: bool) -> Formula<T>
    decreases f,
{
    match f {
        Formula::Any(s) => Formula::Any(substitute_list(s, vars, marker)),
        Formula::All(s) => Formula::All(substitute_list(s, vars, marker)),
        Formula::Not(b) => Formula::Not(Box::new(substitute(*b, vars, marker))),
        Formula::Var(v) => if vars.contains(v) {
            Formula::Const(marker)
        } else {
            f
        },
        Formula::Const(_) => f,
    }
}

/// `substitute` on every formula of the sequence, element by element.
pub open spec fn substitute_list<T>(s: Seq<Formula<T>>, vars: Seq<T>, marker: bool) -> Seq<
    Formula<T>,
>
    decreases s,
{
    Seq::new(
        s.len(),
        |i: int|
            if 0 <= i < s.len() {
                substitute(s[i], vars, marker)
            } else {
                Formula::Const(false)
            },
    )
}

/// A list of the kind whose short circuit is `!marker` (a disjunction for `false`):
/// the later occurrences of a repeated direct variable become `marker`, and so do
/// the occurrences of that variable anywhere in the elements that are not variables.
pub open spec fn short_circuit_list<T>(s: Seq<Formula<T>>, marker: bool) -> Seq<Formula<T>> {
    let t = mark_repeats(s, marker);
    let vars = repeated_vars(s);
    Seq::new(
        s.len(),
        |i: int|
            if t[i] is Var {
                t[i]
            } else {
                substitute(t[i], vars, marker)
            },
    )
}

/// Rewrites the first list reached from the top through negations.
pub open spec fn short_circuit<T>(f: Formula<T>) -> Formula<T>
    decreases f,
{
    match f {
        Formula::Any(s) => Formula::Any(short_circuit_list(s, false)),
        Formula::All(s) => Formula::All(short_circuit_list(s, true)),
        Formula::Not(b) => Formula::Not(Box::new(short_circuit(*b))),
        _ => f,
    }
}

/// Substituting for variables the values that they already have changes nothing.
pub proof fn lemma_substitute_sound<T>(
    f: Formula<T>,
    vars: Seq<T>,
    marker: bool,
    env: spec_fn(T) -> bool,
)
    requires
        forall|v: T| vars.contains(v) ==> env(v) == marker,
    ensures
        eval(substitute(f, vars, marker), env) == eval(f, env),
    decreases f,
{
    match f {
        Formula::Any(s) => {
            lemma_substitute_list_sound(s, vars, marker, env);
        },
        Formula::All(s) => {
            lemma_substitute_list_sound(s, vars, marker, env);
        },
        Formula::Not(b) => {
            lemma_substitute_sound(*b, vars, marker, env);
        },
        _ => {},
    }
}

proof fn lemma_substitute_list_sound<T>(
    s: Seq<Formula<T>>,
    vars: Seq<T>,
    marker: bool,
    env: spec_fn(T) -> bool,
)
    requires
        forall|v: T| vars.contains(v) ==> env(v) == marker,
    ensures
        eval(Formula::Any(substitute_list(s, vars, marker)), env) == eval(Formula::Any(s), env),
        eval(Formula::All(substitute_list(s, vars, marker)), env) == eval(Formula::All(s), env),
    decreases s,
{
    let c = substitute_list(s, vars, marker);
    assert forall|i: int| 0 <= i < s.len() implies eval(#[trigger] s[i], env) == eval(c[i], env) by {
        lemma_substitute_sound(s[i], vars, marker, env);
    }
    lemma_pointwise(s, c, env);
}

/// Every atom seen occurs as a direct variable of the list at a position where it
/// was not seen before; and the atoms seen in a prefix are seen in the whole.
proof fn lemma_seen_vars<T>(s: Seq<Formula<T>>)
    ensures
        forall|v: T|
            seen_vars(s).contains(v) ==> exists|i: int|
                0 <= i < s.len() && s[i] == Formula::Var(v) && !#[trigger] seen_vars(
                    s.subrange(0, i),
                ).contains(v),
        forall|i: int, v: T|
            0 <= i <= s.len() && #[trigger] seen_vars(s.subrange(0, i)).contains(v)
                ==> seen_vars(s).contains(v),
    decreases s.len(),
{
    if s.len() > 0 {
        let p = s.drop_last();
        lemma_seen_vars(p);
        assert forall|i: int| 0 <= i <= p.len() implies #[trigger] s.subrange(0, i) == p.subrange(
            0,
            i,
        ) by {
            assert(s.subrange(0, i) =~= p.subrange(0, i));
        }
        assert(s.subrange(0, s.len() as int) =~= s);
        assert(p.subrange(0, p.len() as int) =~= p);
        let q = seen_vars(p);
        assert forall|v: T| seen_vars(s).contains(v) implies exists|i: int|
            0 <= i < s.len() && s[i] == Formula::Var(v) && !#[trigger] seen_vars(
                s.subrange(0, i),
            ).contains(v) by {
            if q.contains(v) {
                let i = choose|i: int|
                    0 <= i < p.len() && p[i] == Formula::Var(v) && !#[trigger] seen_vars(
                        p.subrange(0, i),
                    ).contains(v);
                assert(s[i] == Formula::Var(v));
                assert(s.subrange(0, i) == p.subrange(0, i));
                assert(!seen_vars(s.subrange(0, i)).contains(v));
            } else {
                let n = s.len() - 1;
                assert(s.subrange(0, n) =~= p);
                let r = seen_vars(s);
                let j = choose|j: int| 0 <= j < r.len() && r[j] == v;
                match s.last() {
                    Formula::Var(w) => {
                        if q.contains(w) {
                            assert(false);
                        } else {
                            assert(r == q.push(w));
                            if j < q.len() {
                                assert(q[j] == v);
                                assert(false);
                            }
                            assert(w == v);
                            assert(s[n] == Formula::Var(v));
                            assert(!seen_vars(s.subrange(0, n)).contains(v));
                        }
                    },
                    _ => {
                        assert(false);
                    },
                }
            }
        }
        assert forall|i: int, v: T|
            0 <= i <= s.len() && #[trigger] seen_vars(s.subrange(0, i)).contains(v) implies seen_vars(
            s,
        ).contains(v) by {
            if i < s.len() {
                assert(q.contains(v));
                let j = choose|j: int| 0 <= j < q.len() && q[j] == v;
                match s.last() {
                    Formula::Var(w) => {
                        if !q.contains(w) {
                            assert(q.push(w)[j] == v);
                        }
                    },
                    _ => {},
                }
            }
        }
    }
}

/// Every repeated atom is seen.
proof fn lemma_repeated_seen<T>(s: Seq<Formula<T>>)
    ensures
        forall|v: T| repeated_vars(s).contains(v) ==> seen_vars(s).contains(v),
    decreases s.len(),
{
    if s.len() > 0 {
        let p = s.drop_last();
        lemma_repeated_seen(p);
        lemma_seen_vars(s);
        assert(s.subrange(0, p.len() as int) =~= p);
        let r = repeated_vars(p);
        assert forall|v: T| repeated_vars(s).contains(v) implies seen_vars(s).contains(v) by {
            if r.contains(v) {
                assert(seen_vars(s.subrange(0, p.len() as int)).contains(v));
            } else {
                match s.last() {
                    Formula::Var(w) => {
                        let j = choose|j: int| 0 <= j < repeated_vars(s).len() && repeated_vars(s)[j] == v;
                        if seen_vars(p).contains(w) && !r.contains(w) {
                            if j < r.len() {
                                assert(r[j] == v);
                            }
                            assert(seen_vars(s.subrange(0, p.len() as int)).contains(w));
                        }
                    },
                    _ => {},
                }
            }
        }
    }
}

/// A direct variable that repeats an earlier one has a repeated atom.
proof fn lemma_repeat_is_repeated<T>(s: Seq<Formula<T>>)
    ensures
        forall|i: int, v: T|
            0 <= i < s.len() && s[i] == Formula::Var(v) && #[trigger] seen_vars(
                s.subrange(0, i),
            ).contains(v) ==> repeated_vars(s).contains(v),
    decreases s.len(),
{
    if s.len() > 0 {
        let p = s.drop_last();
        lemma_repeat_is_repeated(p);
        let r = repeated_vars(p);
        assert forall|v: T| r.contains(v) implies repeated_vars(s).contains(v) by {
            let j = choose|j: int| 0 <= j < r.len() && r[j] == v;
            match s.last() {
                Formula::Var(w) => {
                    if seen_vars(p).contains(w) && !r.contains(w) {
                        assert(r.push(w)[j] == v);
                    }
                },
                _ => {},
            }
        }
        assert forall|i: int, v: T|
            0 <= i < s.len() && s[i] == Formula::Var(v) && #[trigger] seen_vars(
                s.subrange(0, i),
            ).contains(v) implies repeated_vars(s).contains(v) by {
            if i < p.len() {
                assert(s.subrange(0, i) =~= p.subrange(0, i));
                assert(p[i] == s[i]);
            } else {
                assert(s.subrange(0, i) =~= p);
                if !r.contains(v) {
                    assert(repeated_vars(s) == r.push(v));
                    assert(r.push(v)[r.len() as int] == v);
                }
            }
        }
    }
}

/// Rewriting a disjunction's list with marker `false`, or a conjunction's with
/// marker `true`, keeps its value.
proof fn lemma_short_circuit_list_sound<T>(s: Seq<Formula<T>>, env: spec_fn(T) -> bool)
    ensures
        eval(Formula::Any(short_circuit_list(s, false)), env) == eval(Formula::Any(s), env),
        eval(Formula::All(short_circuit_list(s, true)), env) == eval(Formula::All(s), env),
{
    let vars = repeated_vars(s);
    lemma_seen_vars(s);
    lemma_repeated_seen(s);
    lemma_repeat_is_repeated(s);
    lemma_eval_lists(s, env);
    let a = short_circuit_list(s, false);
    let b = short_circuit_list(s, true);
    lemma_eval_lists(a, env);
    lemma_eval_lists(b, env);
    if exists|v: T| vars.contains(v) && env(v) {
        let v = choose|v: T| vars.contains(v) && env(v);
        let i = choose|i: int|
            0 <= i < s.len() && s[i] == Formula::Var(v) && !#[trigger] seen_vars(
                s.subrange(0, i),
            ).contains(v);
        assert(a[i] == s[i]);
        assert(eval(a[i], env));
        assert(eval(s[i], env));
    } else {
        assert forall|i: int| 0 <= i < s.len() implies eval(#[trigger] a[i], env) == eval(
            s[i],
            env,
        ) by {
            lemma_substitute_sound(s[i], vars, false, env);
        }
        lemma_pointwise(a, s, env);
    }
    if exists|v: T| vars.contains(v) && !env(v) {
        let v = choose|v: T| vars.contains(v) && !env(v);
        let i = choose|i: int|
            0 <= i < s.len() && s[i] == Formula::Var(v) && !#[trigger] seen_vars(
                s.subrange(0, i),
            ).contains(v);
        assert(b[i] == s[i]);
        assert(!eval(b[i], env));
        assert(!eval(s[i], env));
    } else {
        assert forall|i: int| 0 <= i < s.len() implies eval(#[trigger] b[i], env) == eval(
            s[i],
            env,
        ) by {
            lemma_substitute_sound(s[i], vars, true, env);
        }
        lemma_pointwise(b, s, env);
    }
}

/// The short-circuit rewrite keeps the value of the formula under every assignment.
pub proof fn lemma_short_circuit_sound<T>(f: Formula<T>, env: spec_fn(T) -> bool)
    ensures
        eval(short_circuit(f), env) == eval(f, env),
    decreases f,
{
    match f {
        Formula::Any(s) => {
            lemma_short_circuit_list_sound(s, env);
        },
        Formula::All(s) => {
            lemma_short_circuit_list_sound(s, env);
        },
        Formula::Not(b) => {
            lemma_short_circuit_sound(*b, env);
        },
        _ => {},
    }
}

fn contains_atom<T: Atom>(v: &Vec<T>, x: &T) -> (r: bool)
    ensures
        r == v@.contains(*x),
{
    let mut i: usize = 0;
    while i < v.len()
        invariant
            0 <= i <= v.len(),
            forall|j: int| 0 <= j < i ==> v@[j] != *x,
        decreases v.len() - i,
    {
        if v[i].same(x) {
            assert(v@[i as int] == *x);
            return true;
        }
        i = i + 1;
    }
    false
}

/// Turns each direct variable that repeats an earlier one into `marker`, and returns
/// the atoms that repeat, each once.
fn find_vars<T: Atom>(list: &mut Vec<Expr<T>>, marker: bool) -> (reps: Vec<T>)
    ensures
        models(*final(list)) == mark_repeats(models(*old(list)), marker),
        reps@ == repeated_vars(models(*old(list))),
{
    let ghost m0 = models(*list);
    let n = list.len();
    let mut ans: Vec<T> = Vec::new();
    let mut reps: Vec<T> = Vec::new();
    let mut i: usize = 0;
    while i < n
        invariant
            list.len() == n == m0.len(),
            0 <= i <= n,
            ans@ == seen_vars(m0.subrange(0, i as int)),
            reps@ == repeated_vars(m0.subrange(0, i as int)),
            forall|j: int| 0 <= j < i ==> #[trigger] models(*list)[j] == mark_repeats(m0, marker)[j],
            forall|j: int| i <= j < n ==> #[trigger] models(*list)[j] == m0[j],
        decreases n - i,
    {
        proof {
            assert(m0.subrange(0, i + 1).drop_last() =~= m0.subrange(0, i as int));
            assert(m0.subrange(0, i + 1).last() == m0[i as int]);
        }
        let ghost pre = m0.subrange(0, i as int);
        assert(models(*list)[i as int] == m0[i as int]);
        let repeat = match &list[i] {
            Expr::Var(v) => {
                assert(m0[i as int] == Formula::Var(*v));
                if contains_atom(&ans, v) {
                    assert(seen_vars(m0.subrange(0, i + 1)) == seen_vars(pre));
                    if !contains_atom(&reps, v) {
                        reps.push(v.duplicate());
                    }
                    assert(repeated_vars(m0.subrange(0, i + 1)) == reps@);
                    assert(mark_repeats(m0, marker)[i as int] == Formula::<T>::Const(marker));
                    true
                } else {
                    ans.push(v.duplicate());
                    assert(seen_vars(m0.subrange(0, i + 1)) == seen_vars(pre).push(*v));
                    assert(repeated_vars(m0.subrange(0, i + 1)) == reps@);
                    assert(mark_repeats(m0, marker)[i as int] == m0[i as int]);
                    false
                }
            },
            _ => {
                assert(seen_vars(m0.subrange(0, i + 1)) == seen_vars(pre));
                assert(repeated_vars(m0.subrange(0, i + 1)) == reps@);
                assert(mark_repeats(m0, marker)[i as int] == m0[i as int]);
                false
            },
        };
        if repeat {
            let ghost m = models(*list);
            list[i] = Expr::Const(marker);
            proof {
                assert(models(*list) =~= m.update(i as int, Formula::Const(marker)));
            }
        }
        i = i + 1;
    }
    proof {
        assert(m0.subrange(0, n as int) =~= m0);
        assert(models(*list) =~= mark_repeats(m0, marker));
    }
    reps
}

fn replace_vec<T: Atom>(v: Vec<Expr<T>>, vars: &Vec<T>, marker: bool) -> (w: Vec<Expr<T>>)
    ensures
        models(w) == substitute_list(models(v), vars@, marker),
    decreases v,
{
    let mut w = v;
    let n = w.len();
    let mut i: usize = 0;
    while i < n
        invariant
            w.len() == n == v.len(),
            0 <= i <= n,
            forall|j: int|
                0 <= j < i ==> model(#[trigger] w[j]) == substitute(model(v[j]), vars@, marker),
            forall|j: int| i <= j < n ==> #[trigger] w[j] == v[j],
        decreases n - i,
    {
        let x = take_at(&mut w, i);
        proof {
            assert(decreases_to!(v => v[i as int]));
        }
        let y = replace_vars(x, vars, marker);
        w[i] = y;
        i = i + 1;
    }
    proof {
        assert(models(w) =~= substitute_list(models(v), vars@, marker));
    }
    w
}

/// Substitutes `marker` for every variable of `x` whose atom is in `vars`.
fn replace_vars<T: Atom>(x: Expr<T>, vars: &Vec<T>, marker: bool) -> (r: Expr<T>)
    ensures
        r@ == substitute(x@, vars@, marker),
    decreases x,
{
    match x {
        Expr::Any(v) => Expr::Any(replace_vec(v, vars, marker)),
        Expr::All(v) => Expr::All(replace_vec(v, vars, marker)),
        Expr::Not(b) => Expr::Not(Box::new(replace_vars(*b, vars, marker))),
        Expr::Var(v) => {
            if contains_atom(vars, &v) {
                Expr::Const(marker)
            } else {
                Expr::Var(v)
            }
        },
        Expr::Const(c) => Expr::Const(c),
    }
}

/// Rewrites a list of the kind whose short circuit is `!marker`.
fn short_circuit_vec<T: Atom>(list: &mut Vec<Expr<T>>, marker: bool)
    ensures
        models(*final(list)) == short_circuit_list(models(*old(list)), marker),
{
    let ghost m0 = models(*list);
    let vars = find_vars(list, marker);
    let ghost t = models(*list);
    let n = list.len();
    let mut i: usize = 0;
    while i < n
        invariant
            list.len() == n == t.len() == m0.len(),
            t == mark_repeats(m0, marker),
            vars@ == repeated_vars(m0),
            0 <= i <= n,
            forall|j: int| 0 <= j < i ==> #[trigger] models(*list)[j] == short_circuit_list(m0, marker)[j],
            forall|j: int| i <= j < n ==> #[trigger] models(*list)[j] == t[j],
        decreases n - i,
    {
        let is_var = match &list[i] {
            Expr::Var(_) => true,
            _ => false,
        };
        assert(models(*list)[i as int] == t[i as int]);
        assert(is_var == (t[i as int] is Var));
        if !is_var {
            let ghost m = models(*list);
            let x = take_at(list, i);
            let y = replace_vars(x, &vars, marker);
            list[i] = y;
            proof {
                assert(models(*list) =~= m.update(i as int, model(y)));
                assert(short_circuit_list(m0, marker)[i as int] == substitute(t[i as int], vars@, marker));
            }
        } else {
            assert(short_circuit_list(m0, marker)[i as int] == t[i as int]);
        }
        i = i + 1;
    }
    proof {
        assert(models(*list) =~= short_circuit_list(m0, marker));
    }
}

fn short_circuit_expr<T: Atom>(e: Expr<T>) -> (r: Expr<T>)
    ensures
        r@ == short_circuit(e@),
    decreases e,
{
    match e {
        Expr::Any(v) => {
            let mut w = v;
            SimplifyByShortCircuit.visit_mut_any(&mut w);
            Expr::Any(w)
        },
        Expr::All(v) => {
            let mut w = v;
            SimplifyByShortCircuit.visit_mut_all(&mut w);
            Expr::All(w)
        },
        Expr::Not(b) => Expr::Not(Box::new(short_circuit_expr(*b))),
        e => e,
    }
}

/// Replaces repeated variables by the constant that short-circuit evaluation gives
/// them once their first occurrence has been evaluated.
pub struct SimplifyByShortCircuit;

impl SimplifyByShortCircuit {
    pub fn visit_mut_any<T: Atom>(&mut self, any: &mut Vec<Expr<T>>)
        ensures
            models(*final(any)) == short_circuit_list(models(*old(any)), false),
    {
        short_circuit_vec(any, false);
    }

    pub fn visit_mut_all<T: Atom>(&mut self, all: &mut Vec<Expr<T>>)
        ensures
            models(*final(all)) == short_circuit_list(models(*old(all)), true),
    {
        short_circuit_vec(all, true);
    }

    pub fn visit_mut_expr<T: Atom>(&mut self, expr: &mut Expr<T>)
        ensures
            final(expr)@ == short_circuit(old(expr)@),
    {
        let mut e = Expr::Const(false);
        std::mem::swap(expr, &mut e);
        *expr = short_circuit_expr(e);
    }
}

} // verus!
