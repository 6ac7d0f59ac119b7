use vstd::prelude::*;

verus! {

/// The elements `s[i]` with `hits[i] == b`, in their order.
pub open spec fn select<T>(s: Seq<T>, hits: Seq<bool>, b: bool) -> Seq<T>
    decreases s.len(),
{
    if s.len() == 0 {
        Seq::empty()
    } else {
        select(s.drop_last(), hits.subrange(0, s.len() - 1), b) + if hits[s.len() - 1] == b {
            seq![s.last()]
        } else {
            Seq::empty()
        }
    }
}

/// Selecting commutes with mapping each element.
pub proof fn lemma_select_map<T, U>(s: Seq<T>, hits: Seq<bool>, b: bool, g: spec_fn(T) -> U)
    requires
        hits.len() == s.len(),
    ensures
        select(s, hits, b).map_values(g) == select(s.map_values(g), hits, b),
    decreases s.len(),
{
    if s.len() > 0 {
        let p = s.drop_last();
        let h = hits.subrange(0, s.len() - 1);
        lemma_select_map(p, h, b, g);
        assert(s.map_values(g).drop_last() =~= p.map_values(g));
        let tail = if hits[s.len() - 1] == b {
            seq![s.last()]
        } else {
            Seq::<T>::empty()
        };
        assert((select(p, h, b) + tail).map_values(g) =~= select(p, h, b).map_values(g)
            + tail.map_values(g));
        assert(select(s, hits, b).map_values(g) =~= select(s.map_values(g), hits, b));
    }
}

/// A selection extended by one more element.
pub proof fn lemma_select_push<T>(s: Seq<T>, hits: Seq<bool>, b: bool, k: int, h: bool)
    requires
        0 <= k < s.len(),
        hits.len() == k,
    ensures
        select(s.subrange(0, k + 1), hits.push(h), b) == select(s.subrange(0, k), hits, b) + if h
            == b {
            seq![s[k]]
        } else {
            Seq::empty()
        },
{
    let t = s.subrange(0, k + 1);
    assert(t.drop_last() =~= s.subrange(0, k));
    assert(hits.push(h).subrange(0, k) =~= hits);
}

/// The positions `i` with `hits[i] == b`, in increasing order.
pub open spec fn select_index(hits: Seq<bool>, b: bool) -> Seq<int>
    decreases hits.len(),
{
    if hits.len() == 0 {
        Seq::empty()
    } else {
        select_index(hits.drop_last(), b) + if hits.last() == b {
            seq![hits.len() - 1]
        } else {
            Seq::empty()
        }
    }
}

/// The `p`-th element of a selection is the element of `s` at the `p`-th selected
/// position, and the selected positions increase.
pub proof fn lemma_select_index<T>(s: Seq<T>, hits: Seq<bool>, b: bool)
    requires
        hits.len() == s.len(),
    ensures
        select_index(hits, b).len() == select(s, hits, b).len(),
        forall|p: int|
            0 <= p < select(s, hits, b).len() ==> {
                let k = #[trigger] select_index(hits, b)[p];
                &&& 0 <= k < s.len()
                &&& hits[k] == b
                &&& select(s, hits, b)[p] == s[k]
            },
        forall|p: int, q: int|
            0 <= p < q < select(s, hits, b).len() ==> #[trigger] select_index(hits, b)[p]
                < #[trigger] select_index(hits, b)[q],
    decreases s.len(),
{
    if s.len() > 0 {
        let n = s.len() - 1;
        let h = hits.drop_last();
        assert(hits.subrange(0, n) =~= h);
        lemma_select_index(s.drop_last(), h, b);
        let ip = select_index(h, b);
        let rp = select(s.drop_last(), h, b);
        assert forall|p: int| 0 <= p < ip.len() implies #[trigger] ip[p] < n by {}
        assert forall|p: int| 0 <= p < ip.len() implies select_index(hits, b)[p] == ip[p]
            && select(s, hits, b)[p] == rp[p] by {}
    }
}

/// Selecting every position gives the sequence back.
pub proof fn lemma_select_all<T>(s: Seq<T>, hits: Seq<bool>, b: bool)
    requires
        hits.len() == s.len(),
        forall|i: int| 0 <= i < s.len() ==> #[trigger] hits[i] == b,
    ensures
        select(s, hits, b) == s,
    decreases s.len(),
{
    if s.len() > 0 {
        let h = hits.subrange(0, s.len() - 1);
        lemma_select_all(s.drop_last(), h, b);
        assert(s.drop_last() + seq![s.last()] =~= s);
    }
}

/// Removes the elements for which `f` returns true, keeping the order of the others.
pub fn remove_if<T, F: Fn(&T) -> bool>(v: &mut Vec<T>, f: F)
    requires
        forall|i: int| 0 <= i < old(v).len() ==> f.requires((&old(v)[i],)),
    ensures
        exists|hits: Seq<bool>|
            {
                &&& hits.len() == old(v).len()
                &&& forall|i: int|
                    0 <= i < hits.len() ==> f.ensures((&old(v)[i],), #[trigger] hits[i])
                &&& final(v)@ == select(old(v)@, hits, false)
            },
{
    let ghost s = v@;
    let ghost mut hits: Seq<bool> = Seq::empty();
    let n = v.len();
    let mut i: usize = 0;
    let mut k: usize = 0;
    while k < n
        invariant
            n == s.len(),
            0 <= k <= n,
            hits.len() == k,
            forall|j: int| 0 <= j < n ==> f.requires((&s[j],)),
            forall|j: int| 0 <= j < k ==> f.ensures((&s[j],), #[trigger] hits[j]),
            i == select(s.subrange(0, k as int), hits, false).len(),
            v.len() == i + (n - k),
            v@ == select(s.subrange(0, k as int), hits, false) + s.subrange(k as int, n as int),
        decreases n - k,
    {
        proof {
            lemma_select_push(s, hits, false, k as int, true);
            lemma_select_push(s, hits, false, k as int, false);
        }
        let ghost pre = select(s.subrange(0, k as int), hits, false);
        assert(v@[i as int] == s[k as int]);
        let r = f(&v[i]);
        if r {
            v.remove(i);
            assert(v@ =~= pre + s.subrange(k + 1, n as int));
        } else {
            i = i + 1;
            assert(v@ =~= (pre + seq![s[k as int]]) + s.subrange(k + 1, n as int));
        }
        proof {
            hits = hits.push(r);
        }
        k = k + 1;
    }
    assert(s.subrange(0, n as int) =~= s);
    assert(v@ =~= select(s, hits, false));
}

/// Removes the elements for which `f` returns true and returns them, keeping the
/// order both of the removed elements and of those that stay.
pub fn drain_filter<T, F: Fn(&T) -> bool>(v: &mut Vec<T>, f: F) -> (removed: Vec<T>)
    requires
        forall|i: int| 0 <= i < old(v).len() ==> f.requires((&old(v)[i],)),
    ensures
        exists|hits: Seq<bool>|
            {
                &&& hits.len() == old(v).len()
                &&& forall|i: int|
                    0 <= i < hits.len() ==> f.ensures((&old(v)[i],), #[trigger] hits[i])
                &&& final(v)@ == select(old(v)@, hits, false)
                &&& removed@ == select(old(v)@, hits, true)
            },
{
    let ghost s = v@;
    let ghost mut hits: Seq<bool> = Seq::empty();
    let n = v.len();
    let mut removed: Vec<T> = Vec::new();
    let mut i: usize = 0;
    let mut k: usize = 0;
    while k < n
        invariant
            n == s.len(),
            0 <= k <= n,
            hits.len() == k,
            forall|j: int| 0 <= j < n ==> f.requires((&s[j],)),
            forall|j: int| 0 <= j < k ==> f.ensures((&s[j],), #[trigger] hits[j]),
            i == select(s.subrange(0, k as int), hits, false).len(),
            v.len() == i + (n - k),
            v@ == select(s.subrange(0, k as int), hits, false) + s.subrange(k as int, n as int),
            removed@ == select(s.subrange(0, k as int), hits, true),
        decreases n - k,
    {
        proof {
            lemma_select_push(s, hits, false, k as int, true);
            lemma_select_push(s, hits, false, k as int, false);
            lemma_select_push(s, hits, true, k as int, true);
            lemma_select_push(s, hits, true, k as int, false);
        }
        let ghost pre = select(s.subrange(0, k as int), hits, false);
        assert(v@[i as int] == s[k as int]);
        let r = f(&v[i]);
        if r {
            let x = v.remove(i);
            removed.push(x);
            assert(v@ =~= pre + s.subrange(k + 1, n as int));
        } else {
            i = i + 1;
            assert(v@ =~= (pre + seq![s[k as int]]) + s.subrange(k + 1, n as int));
        }
        proof {
            hits = hits.push(r);
        }
        k = k + 1;
    }
    assert(s.subrange(0, n as int) =~= s);
    assert(v@ =~= select(s, hits, false));
    removed
}

} // verus!
