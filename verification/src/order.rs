//! Stable sorting by a key.
use vstd::prelude::*;

verus! {

/// A key that items are ranked by: a total preorder, given by its strict part.
pub trait Ranked: Sized {
    /// This key comes before the other one.
    spec fn lt(&self, other: &Self) -> bool;

    proof fn lt_asymmetric(a: &Self, b: &Self)
        requires
            a.lt(b),
        ensures
            !b.lt(a),
    ;

    proof fn le_transitive(a: &Self, b: &Self, c: &Self)
        requires
            !b.lt(a),
            !c.lt(b),
        ensures
            !c.lt(a),
    ;
}

/// A key that can be compared.
pub trait SortKey: Ranked {
    fn is_lt(&self, other: &Self) -> (r: bool)
        ensures
            r == self.lt(other),
    ;
}

/// Where an item with key `k` goes: behind every item that it does not come before.
pub open spec fn spot<K: Ranked, T>(sorted: Seq<(K, T)>, k: K) -> int
    decreases sorted.len(),
{
    if sorted.len() == 0 {
        0
    } else if k.lt(&sorted.last().0) {
        spot(sorted.drop_last(), k)
    } else {
        sorted.len() as int
    }
}

/// The items in the order of their keys, those with equal keys in the order in
/// which they came.
pub open spec fn ordered<K: Ranked, T>(items: Seq<(K, T)>) -> Seq<(K, T)>
    decreases items.len(),
{
    if items.len() == 0 {
        Seq::empty()
    } else {
        let sorted = ordered(items.drop_last());
        sorted.insert(spot(sorted, items.last().0), items.last())
    }
}

pub open spec fn is_sorted<K: Ranked, T>(s: Seq<(K, T)>) -> bool {
    forall|i: int, j: int| 0 <= i < j < s.len() ==> !(#[trigger] s[j]).0.lt(&(#[trigger] s[i]).0)
}

proof fn spot_in_range<K: Ranked, T>(s: Seq<(K, T)>, k: K)
    ensures
        0 <= spot(s, k) <= s.len(),
        spot(s, k) > 0 ==> !k.lt(&s[spot(s, k) - 1].0),
        forall|j: int| spot(s, k) <= j < s.len() ==> k.lt(&(#[trigger] s[j]).0),
    decreases s.len(),
{
    if s.len() > 0 && k.lt(&s.last().0) {
        spot_in_range(s.drop_last(), k);
        assert forall|j: int| spot(s, k) <= j < s.len() implies k.lt(&(#[trigger] s[j]).0) by {
            if j < s.len() - 1 {
                assert(s.drop_last()[j] == s[j]);
            }
        }
    }
}

/// Sorting puts the keys in order.
pub proof fn ordered_is_sorted<K: Ranked, T>(items: Seq<(K, T)>)
    ensures
        is_sorted(ordered(items)),
        ordered(items).len() == items.len(),
    decreases items.len(),
{
    if items.len() > 0 {
        let s = ordered(items.drop_last());
        let x = items.last();
        ordered_is_sorted(items.drop_last());
        spot_in_range(s, x.0);
        let p = spot(s, x.0);
        let r = s.insert(p, x);
        assert forall|i: int, j: int| 0 <= i < j < r.len() implies !(#[trigger] r[j]).0.lt(
            &(#[trigger] r[i]).0,
        ) by {
            if i < p && j == p {
                if p > 0 {
                    if i < p - 1 {
                        assert(!s[p - 1].0.lt(&s[i].0));
                        K::le_transitive(&s[i].0, &s[p - 1].0, &x.0);
                    }
                }
            } else if i == p && j > p {
                K::lt_asymmetric(&x.0, &s[j - 1].0);
            } else if i < p && j < p {
                assert(!s[j].0.lt(&s[i].0));
            } else if i < p && j > p {
                assert(!s[j - 1].0.lt(&s[i].0));
            } else {
                assert(!s[j - 1].0.lt(&s[i - 1].0));
            }
        }
    }
}

/// Sorting neither drops nor adds an item.
pub proof fn ordered_is_permutation<K: Ranked, T>(items: Seq<(K, T)>)
    ensures
        ordered(items).to_multiset() == items.to_multiset(),
    decreases items.len(),
{
    if items.len() > 0 {
        let s = ordered(items.drop_last());
        let x = items.last();
        ordered_is_permutation(items.drop_last());
        spot_in_range(s, x.0);
        let p = spot(s, x.0);
        assert(items =~= items.drop_last().push(x));
        vstd::seq_lib::to_multiset_insert(s, p, x);
        vstd::seq_lib::to_multiset_build(items.drop_last(), x);
    } else {
        assert(items =~= ordered(items));
    }
}

proof fn filter_of_none<A>(s: Seq<A>, f: spec_fn(A) -> bool)
    requires
        forall|i: int| 0 <= i < s.len() ==> !f(#[trigger] s[i]),
    ensures
        s.filter(f) == Seq::<A>::empty(),
    decreases s.len(),
{
    reveal(Seq::filter);
    if s.len() > 0 {
        assert forall|i: int| 0 <= i < s.drop_last().len() implies !f(
            #[trigger] s.drop_last()[i],
        ) by {
            assert(s.drop_last()[i] == s[i]);
        }
        filter_of_none(s.drop_last(), f);
        assert(!f(s[s.len() - 1]));
    }
}

/// The items whose key is equivalent to `k`.
pub open spec fn alike<K: Ranked, T>(k: K) -> spec_fn((K, T)) -> bool {
    |x: (K, T)| !x.0.lt(&k) && !k.lt(&x.0)
}

/// Sorting keeps items with equivalent keys in the order in which they came.
pub proof fn ordered_is_stable<K: Ranked, T>(items: Seq<(K, T)>, k: K)
    ensures
        ordered(items).filter(alike::<K, T>(k)) == items.filter(alike::<K, T>(k)),
    decreases items.len(),
{
    if items.len() > 0 {
        let f = alike::<K, T>(k);
        let s = ordered(items.drop_last());
        let x = items.last();
        ordered_is_stable(items.drop_last(), k);
        spot_in_range(s, x.0);
        let p = spot(s, x.0);
        let lo = s.take(p);
        let hi = s.skip(p);
        assert(s =~= lo + hi);
        assert(s.insert(p, x) =~= (lo + seq![x]) + hi);
        Seq::filter_distributes_over_add(lo, hi, f);
        Seq::filter_distributes_over_add(lo + seq![x], hi, f);
        Seq::filter_distributes_over_add(lo, seq![x], f);
        assert(items =~= items.drop_last() + seq![x]);
        Seq::filter_distributes_over_add(items.drop_last(), seq![x], f);
        let one = seq![x].filter(f);
        assert(one == if f(x) {
            seq![x]
        } else {
            Seq::empty()
        }) by {
            reveal(Seq::filter);
            assert(seq![x].drop_last() =~= Seq::<(K, T)>::empty());
            reveal_with_fuel(Seq::filter, 2);
            assert(Seq::<(K, T)>::empty().push(x) =~= seq![x]);
        }
        if f(x) {
            assert forall|j: int| 0 <= j < hi.len() implies !f(#[trigger] hi[j]) by {
                assert(hi[j] == s[p + j]);
                assert(x.0.lt(&hi[j].0));
                if f(hi[j]) {
                    K::le_transitive(&hi[j].0, &k, &x.0);
                }
            }
            filter_of_none(hi, f);
            assert(lo.filter(f) + one + hi.filter(f) =~= lo.filter(f) + hi.filter(f) + one);
        } else {
            assert(lo.filter(f) + one + hi.filter(f) =~= lo.filter(f) + hi.filter(f));
            assert(items.drop_last().filter(f) + one =~= items.drop_last().filter(f));
        }
    }
}

/// What holds of every item holds of every item after sorting.
pub proof fn ordered_keeps<K: Ranked, T>(items: Seq<(K, T)>, p: spec_fn((K, T)) -> bool)
    requires
        forall|i: int| 0 <= i < items.len() ==> p(#[trigger] items[i]),
    ensures
        forall|i: int| 0 <= i < ordered(items).len() ==> p(#[trigger] ordered(items)[i]),
    decreases items.len(),
{
    if items.len() > 0 {
        let before = items.drop_last();
        assert forall|i: int| 0 <= i < before.len() implies p(#[trigger] before[i]) by {
            assert(before[i] == items[i]);
        }
        ordered_keeps(before, p);
        let s = ordered(before);
        let x = items.last();
        spot_in_range(s, x.0);
        let at = spot(s, x.0);
        assert forall|i: int| 0 <= i < ordered(items).len() implies p(
            #[trigger] ordered(items)[i],
        ) by {
            if i < at {
                assert(ordered(items)[i] == s[i]);
            } else if i == at {
                assert(ordered(items)[i] == items[items.len() - 1]);
            } else {
                assert(ordered(items)[i] == s[i - 1]);
            }
        }
    }
}

/// Each item, key and all, replaced by another one.
pub open spec fn mapped<K, T, L, U>(s: Seq<(K, T)>, f: spec_fn((K, T)) -> (L, U)) -> Seq<(L, U)> {
    Seq::new(s.len(), |i: int| f(s[i]))
}

/// Sorting goes by nothing but the order of the keys.
pub proof fn ordered_mapped<K: Ranked, T, L: Ranked, U>(
    items: Seq<(K, T)>,
    f: spec_fn((K, T)) -> (L, U),
)
    requires
        forall|a: (K, T), b: (K, T)|
            a.0.lt(&b.0) == (#[trigger] f(a)).0.lt(&(#[trigger] f(b)).0),
    ensures
        ordered(mapped(items, f)) == mapped(ordered(items), f),
    decreases items.len(),
{
    let other = mapped(items, f);
    if items.len() > 0 {
        let s = ordered(items.drop_last());
        ordered_mapped(items.drop_last(), f);
        assert(other.drop_last() =~= mapped(items.drop_last(), f));
        spot_in_range(s, items.last().0);
        spot_mapped(s, f, items.last());
        assert(ordered(other) =~= mapped(ordered(items), f));
    } else {
        assert(ordered(other) =~= mapped(ordered(items), f));
    }
}

proof fn spot_mapped<K: Ranked, T, L: Ranked, U>(
    s: Seq<(K, T)>,
    f: spec_fn((K, T)) -> (L, U),
    x: (K, T),
)
    requires
        forall|a: (K, T), b: (K, T)|
            a.0.lt(&b.0) == (#[trigger] f(a)).0.lt(&(#[trigger] f(b)).0),
    ensures
        spot(mapped(s, f), f(x).0) == spot(s, x.0),
    decreases s.len(),
{
    if s.len() > 0 {
        assert(mapped(s, f).drop_last() =~= mapped(s.drop_last(), f));
        spot_mapped(s.drop_last(), f, x);
        assert(x.0.lt(&s.last().0) == f(x).0.lt(&f(s.last()).0));
    }
}

/// The items with another thing in place of each one, under the same keys.
pub open spec fn relabelled<K, T, U>(s: Seq<(K, T)>, f: spec_fn(T) -> U) -> Seq<(K, U)> {
    Seq::new(s.len(), |i: int| (s[i].0, f(s[i].1)))
}

/// Sorting looks at the keys alone.
pub proof fn ordered_relabelled<K: Ranked, T, U>(items: Seq<(K, T)>, f: spec_fn(T) -> U)
    ensures
        ordered(relabelled(items, f)) == relabelled(ordered(items), f),
    decreases items.len(),
{
    let other = relabelled(items, f);
    if items.len() > 0 {
        let s = ordered(items.drop_last());
        ordered_relabelled(items.drop_last(), f);
        assert(other.drop_last() =~= relabelled(items.drop_last(), f));
        spot_in_range(s, items.last().0);
        spot_relabelled(s, f, items.last().0);
        assert(ordered(other) =~= relabelled(ordered(items), f));
    } else {
        assert(ordered(other) =~= relabelled(ordered(items), f));
    }
}

proof fn spot_relabelled<K: Ranked, T, U>(s: Seq<(K, T)>, f: spec_fn(T) -> U, k: K)
    ensures
        spot(relabelled(s, f), k) == spot(s, k),
    decreases s.len(),
{
    if s.len() > 0 {
        assert(relabelled(s, f).drop_last() =~= relabelled(s.drop_last(), f));
        spot_relabelled(s.drop_last(), f, k);
    }
}

/// The second parts of a list of pairs.
pub open spec fn seconds<K, T>(s: Seq<(K, T)>) -> Seq<T> {
    Seq::new(s.len(), |i: int| s[i].1)
}

/// Sorting neither drops nor adds a second part.
pub proof fn ordered_seconds_permutation<K: Ranked, T>(items: Seq<(K, T)>)
    ensures
        seconds(ordered(items)).to_multiset() == seconds(items).to_multiset(),
    decreases items.len(),
{
    if items.len() > 0 {
        let s = ordered(items.drop_last());
        let x = items.last();
        ordered_seconds_permutation(items.drop_last());
        spot_in_range(s, x.0);
        let p = spot(s, x.0);
        assert(seconds(s.insert(p, x)) =~= seconds(s).insert(p, x.1));
        assert(seconds(items) =~= seconds(items.drop_last()).push(x.1));
        vstd::seq_lib::to_multiset_insert(seconds(s), p, x.1);
        vstd::seq_lib::to_multiset_build(seconds(items.drop_last()), x.1);
    } else {
        assert(seconds(items) =~= seconds(ordered(items)));
    }
}

/// Sorts a list by insertion.
pub fn sort<K: SortKey, T>(items: Vec<(K, T)>) -> (r: Vec<(K, T)>)
    ensures
        r@ == ordered(items@),
{
    let mut rest = items;
    let mut out: Vec<(K, T)> = Vec::new();
    let ghost mut done: int = 0;
    assert(items@.skip(0) =~= items@);
    assert(items@.take(0) =~= Seq::empty());
    while rest.len() > 0
        invariant
            0 <= done <= items@.len(),
            rest@ == items@.skip(done),
            out@ == ordered(items@.take(done)),
        decreases rest@.len(),
    {
        let x = rest.remove(0);
        let mut p: usize = out.len();
        assert(out@.take(p as int) =~= out@);
        while p > 0 && x.0.is_lt(&out[p - 1].0)
            invariant
                p <= out@.len(),
                spot(out@, x.0) == spot(out@.take(p as int), x.0),
            decreases p,
        {
            p = p - 1;
            assert(out@.take(p + 1).drop_last() =~= out@.take(p as int));
        }
        assert(spot(out@.take(p as int), x.0) == p);
        out.insert(p, x);
        proof {
            assert(items@[done] == x);
            assert(items@.take(done + 1).drop_last() =~= items@.take(done));
            done = done + 1;
            assert(rest@ =~= items@.skip(done));
        }
    }
    assert(items@.take(done) =~= items@);
    out
}

/// Picking by what the second parts say picks the same items.
pub proof fn seconds_filtered<K, T>(
    s: Seq<(K, T)>,
    p: spec_fn((K, T)) -> bool,
    q: spec_fn(T) -> bool,
)
    requires
        forall|i: int| 0 <= i < s.len() ==> p(#[trigger] s[i]) == q(s[i].1),
    ensures
        seconds(s.filter(p)) == seconds(s).filter(q),
    decreases s.len(),
{
    reveal(Seq::filter);
    if s.len() > 0 {
        let rest = s.drop_last();
        assert forall|i: int| 0 <= i < rest.len() implies p(#[trigger] rest[i]) == q(
            rest[i].1,
        ) by {
            assert(rest[i] == s[i]);
        }
        seconds_filtered(rest, p, q);
        assert(seconds(s).drop_last() =~= seconds(rest));
        assert(seconds(s).last() == s.last().1);
        assert(p(s[s.len() - 1]) == q(s[s.len() - 1].1));
        assert(seconds(s.filter(p)) =~= seconds(s).filter(q));
    } else {
        assert(seconds(s.filter(p)) =~= seconds(s).filter(q));
    }
}

/// Sorting keeps second parts whose keys are equivalent in the order in which they came.
pub proof fn ordered_seconds_stable<K: Ranked, T>(items: Seq<(K, T)>, k: K, q: spec_fn(T) -> bool)
    requires
        forall|i: int|
            0 <= i < items.len() ==> alike::<K, T>(k)(#[trigger] items[i]) == q(items[i].1),
    ensures
        seconds(ordered(items)).filter(q) == seconds(items).filter(q),
{
    let f = alike::<K, T>(k);
    let both = |x: (K, T)| f(x) == q(x.1);
    assert forall|i: int| 0 <= i < items.len() implies both(#[trigger] items[i]) by {
        assert(f(items[i]) == q(items[i].1));
    }
    ordered_keeps(items, both);
    assert forall|i: int| 0 <= i < ordered(items).len() implies f(#[trigger] ordered(items)[i])
        == q(ordered(items)[i].1) by {
        assert(both(ordered(items)[i]));
    }
    ordered_is_stable(items, k);
    seconds_filtered(items, f, q);
    seconds_filtered(ordered(items), f, q);
}

} // verus!
