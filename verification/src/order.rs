//! Stable order by keys.
use vstd::prelude::*;

verus! {

/// The order of keys: by the first number, then by the second.
pub open spec fn before(a: (int, int), b: (int, int)) -> bool {
    a.0 < b.0 || (a.0 == b.0 && a.1 < b.1)
}

/// The first place at or behind `p` whose item comes after item `x`.
pub open spec fn slot(order: Seq<int>, keys: Seq<(int, int)>, x: int, p: int) -> int
    decreases order.len() - p,
{
    if p >= order.len() || before(keys[x], keys[order[p]]) {
        p
    } else {
        slot(order, keys, x, p + 1)
    }
}

/// The numbers of the first `n` items in order, equal ones in the order in
/// which they came.
pub open spec fn order_of(keys: Seq<(int, int)>, n: int) -> Seq<int>
    decreases n,
{
    if n <= 0 {
        Seq::empty()
    } else {
        let o = order_of(keys, n - 1);
        o.insert(slot(o, keys, n - 1, 0), n - 1)
    }
}

/// Item `a` is to stand before item `b`.
pub open spec fn precedes(keys: Seq<(int, int)>, a: int, b: int) -> bool {
    before(keys[a], keys[b]) || (keys[a] == keys[b] && a < b)
}

proof fn lemma_slot(order: Seq<int>, keys: Seq<(int, int)>, x: int, p: int)
    requires
        0 <= p <= order.len(),
    ensures
        p <= slot(order, keys, x, p) <= order.len(),
        slot(order, keys, x, p) < order.len() ==> before(keys[x], keys[order[slot(order, keys, x, p)]]),
        forall|q: int|
            p <= q < slot(order, keys, x, p) ==> !before(keys[x], keys[#[trigger] order[q]]),
    decreases order.len() - p,
{
    if p < order.len() && !before(keys[x], keys[order[p]]) {
        lemma_slot(order, keys, x, p + 1);
    }
}

/// The order holds each number once, each item stands before those with a
/// greater key, and items with equal keys keep their order.
pub proof fn order_is_stable(keys: Seq<(int, int)>, n: int)
    requires
        0 <= n <= keys.len(),
    ensures
        order_of(keys, n).len() == n,
        forall|i: int| 0 <= i < n ==> 0 <= #[trigger] order_of(keys, n)[i] < n,
        forall|x: int| 0 <= x < n ==> order_of(keys, n).contains(x),
        forall|i: int, j: int|
            0 <= i < j < n ==> precedes(
                keys,
                #[trigger] order_of(keys, n)[i],
                #[trigger] order_of(keys, n)[j],
            ),
    decreases n,
{
    if n > 0 {
        order_is_stable(keys, n - 1);
        let o = order_of(keys, n - 1);
        let p = slot(o, keys, n - 1, 0);
        lemma_slot(o, keys, n - 1, 0);
        o.insert_ensures(p, n - 1);
        let w = order_of(keys, n);
        assert forall|x: int| 0 <= x < n implies w.contains(x) by {
            if x == n - 1 {
                assert(w[p] == x);
            } else {
                assert(o.contains(x));
                let i = choose|i: int| 0 <= i < o.len() && o[i] == x;
                if i < p {
                    assert(w[i] == x);
                } else {
                    assert(w[i + 1] == x);
                }
            }
        }
        assert forall|i: int, j: int| 0 <= i < j < n implies precedes(
            keys,
            #[trigger] w[i],
            #[trigger] w[j],
        ) by {
            let oi = if i < p { i } else { i - 1 };
            let oj = if j < p { j } else { j - 1 };
            if i != p && j != p {
                assert(w[i] == o[oi] && w[j] == o[oj]);
            } else if j == p {
                assert(w[i] == o[i]);
                assert(!before(keys[n - 1], keys[o[i]]));
            } else {
                assert(w[j] == o[j - 1]);
                if j - 1 > p {
                    assert(precedes(keys, o[p], o[j - 1]));
                }
            }
        }
    }
}

pub open spec fn key_ints(keys: Seq<(i128, i128)>) -> Seq<(int, int)> {
    Seq::new(keys.len(), |i: int| (keys[i].0 as int, keys[i].1 as int))
}

pub open spec fn ints(v: Seq<usize>) -> Seq<int> {
    Seq::new(v.len(), |i: int| v[i] as int)
}

/// The numbers of the items in the order of their keys, equal ones in the order
/// in which they came.
pub fn stable_order(keys: &Vec<(i128, i128)>) -> (r: Vec<usize>)
    ensures
        ints(r@) == order_of(key_ints(keys@), keys@.len() as int),
        r@.len() == keys@.len(),
        forall|i: int| 0 <= i < r@.len() ==> (#[trigger] r@[i]) < keys@.len(),
{
    let ghost k = key_ints(keys@);
    let mut order: Vec<usize> = Vec::new();
    let mut x: usize = 0;
    assert(ints(order@) =~= Seq::<int>::empty());
    while x < keys.len()
        invariant
            x <= keys@.len(),
            k == key_ints(keys@),
            ints(order@) == order_of(k, x as int),
            order@.len() == x,
            forall|i: int| 0 <= i < order@.len() ==> (#[trigger] order@[i]) < x,
        decreases keys@.len() - x,
    {
        let ghost o = ints(order@);
        let mut p: usize = 0;
        while p < order.len() && !(keys[x].0 < keys[order[p]].0 || (keys[x].0 == keys[order[p]].0
            && keys[x].1 < keys[order[p]].1))
            invariant
                p <= order@.len(),
                order@.len() == x,
                x < keys@.len(),
                k == key_ints(keys@),
                o == ints(order@),
                forall|i: int| 0 <= i < order@.len() ==> (#[trigger] order@[i]) < x,
                slot(o, k, x as int, 0) == slot(o, k, x as int, p as int),
            decreases order@.len() - p,
        {
            assert(o[p as int] == order@[p as int]);
            p = p + 1;
        }
        proof {
            if p < order@.len() {
                assert(o[p as int] == order@[p as int]);
            }
            lemma_slot(o, k, x as int, 0);
        }
        order.insert(p, x);
        assert(ints(order@) =~= o.insert(p as int, x as int));
        x = x + 1;
    }
    order
}

} // verus!
