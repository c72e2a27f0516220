//! The order of texts: character by character, a shorter text before a longer
//! one that begins with it.
use vstd::prelude::*;
use vstd::relations::*;
use crate::text::{chars_of, texts};

verus! {

/// `a` comes before `b`.
pub open spec fn text_before(a: Seq<char>, b: Seq<char>) -> bool
    decreases a.len(),
{
    if b.len() == 0 {
        false
    } else if a.len() == 0 {
        true
    } else if a[0] != b[0] {
        a[0] < b[0]
    } else {
        text_before(a.drop_first(), b.drop_first())
    }
}

/// Two texts that are alike up to a place are ordered by what stands there.
pub proof fn lemma_before_at(a: Seq<char>, b: Seq<char>, k: int)
    requires
        0 <= k <= a.len(),
        k < b.len(),
        forall|i: int| 0 <= i < k ==> a[i] == b[i],
        k == a.len() || a[k] < b[k],
    ensures
        text_before(a, b),
    decreases k,
{
    if k > 0 {
        lemma_before_at(a.drop_first(), b.drop_first(), k - 1);
    }
}

/// `a` does not come after `b`.
pub open spec fn text_leq(a: Seq<char>, b: Seq<char>) -> bool {
    !text_before(b, a)
}

/// Of two different texts one comes before the other, and never both ways.
pub proof fn text_order_is_total(a: Seq<char>, b: Seq<char>)
    ensures
        a == b || text_before(a, b) || text_before(b, a),
        !(text_before(a, b) && text_before(b, a)),
        a == b ==> !text_before(a, b),
    decreases a.len(),
{
    if a.len() > 0 && b.len() > 0 && a[0] == b[0] {
        text_order_is_total(a.drop_first(), b.drop_first());
        assert(a =~= seq![a[0]] + a.drop_first());
        assert(b =~= seq![b[0]] + b.drop_first());
    } else if a.len() == 0 && b.len() == 0 {
        assert(a =~= b);
    } else if a.len() > 0 && b.len() > 0 {
        assert(a[0] < b[0] || b[0] < a[0]);
    }
}

/// The order carries over.
pub proof fn text_order_is_transitive(a: Seq<char>, b: Seq<char>, c: Seq<char>)
    requires
        text_before(a, b),
        text_before(b, c),
    ensures
        text_before(a, c),
    decreases a.len(),
{
    if a.len() > 0 && a[0] == b[0] && b[0] == c[0] {
        text_order_is_transitive(a.drop_first(), b.drop_first(), c.drop_first());
    }
}

proof fn lemma_leq_total_ordering()
    ensures
        total_ordering(|a: Seq<char>, b: Seq<char>| text_leq(a, b)),
{
    let leq = |a: Seq<char>, b: Seq<char>| text_leq(a, b);
    assert forall|a: Seq<char>| #[trigger] leq(a, a) by {
        text_order_is_total(a, a);
    }
    assert forall|a: Seq<char>, b: Seq<char>| #[trigger] leq(a, b) && #[trigger] leq(b, a) implies a
        == b by {
        text_order_is_total(a, b);
    }
    assert forall|a: Seq<char>, b: Seq<char>, c: Seq<char>| #[trigger]
        leq(a, b) && #[trigger] leq(b, c) implies leq(a, c) by {
        text_order_is_total(a, b);
        text_order_is_total(b, c);
        if text_before(c, a) {
            if text_before(a, b) {
                text_order_is_transitive(c, a, b);
            }
            text_order_is_total(c, b);
        }
    }
    assert forall|a: Seq<char>, b: Seq<char>| #[trigger] leq(a, b) || #[trigger] leq(b, a) by {
        text_order_is_total(a, b);
    }
    assert(reflexive(leq));
    assert(antisymmetric(leq));
    assert(transitive(leq));
    assert(strongly_connected(leq));
}

/// The first place at or behind `p` whose text comes after `x`.
pub open spec fn text_slot(s: Seq<Seq<char>>, x: Seq<char>, p: int) -> int
    decreases s.len() - p,
{
    if p >= s.len() || text_before(x, s[p]) {
        p
    } else {
        text_slot(s, x, p + 1)
    }
}

/// The texts in order.
pub open spec fn sorted_texts(s: Seq<Seq<char>>) -> Seq<Seq<char>>
    decreases s.len(),
{
    if s.len() == 0 {
        Seq::empty()
    } else {
        let o = sorted_texts(s.drop_last());
        o.insert(text_slot(o, s.last(), 0), s.last())
    }
}

proof fn lemma_text_slot(s: Seq<Seq<char>>, x: Seq<char>, p: int)
    requires
        0 <= p <= s.len(),
    ensures
        p <= text_slot(s, x, p) <= s.len(),
        text_slot(s, x, p) < s.len() ==> text_before(x, s[text_slot(s, x, p)]),
        forall|q: int| p <= q < text_slot(s, x, p) ==> !text_before(x, #[trigger] s[q]),
    decreases s.len() - p,
{
    if p < s.len() && !text_before(x, s[p]) {
        lemma_text_slot(s, x, p + 1);
    }
}

/// What is sorted holds the same texts as before, and none comes before the
/// one on its left.
pub proof fn sorting_sorts(s: Seq<Seq<char>>)
    ensures
        sorted_texts(s).len() == s.len(),
        sorted_texts(s).to_multiset() == s.to_multiset(),
        forall|i: int, j: int|
            0 <= i < j < s.len() ==> text_leq(
                #[trigger] sorted_texts(s)[i],
                #[trigger] sorted_texts(s)[j],
            ),
    decreases s.len(),
{
    broadcast use vstd::seq_lib::group_to_multiset_ensures;

    if s.len() > 0 {
        let t = s.drop_last();
        sorting_sorts(t);
        let o = sorted_texts(t);
        let x = s.last();
        let p = text_slot(o, x, 0);
        lemma_text_slot(o, x, 0);
        o.insert_ensures(p, x);
        let w = sorted_texts(s);
        assert(s =~= t.push(x));
        lemma_leq_total_ordering();
        assert forall|i: int, j: int| 0 <= i < j < s.len() implies text_leq(
            #[trigger] w[i],
            #[trigger] w[j],
        ) by {
            let leq = |a: Seq<char>, b: Seq<char>| text_leq(a, b);
            let oi = if i < p { i } else { i - 1 };
            let oj = if j < p { j } else { j - 1 };
            if i != p && j != p {
                assert(w[i] == o[oi] && w[j] == o[oj]);
            } else if j == p {
                assert(w[i] == o[i]);
            } else {
                assert(w[j] == o[j - 1]);
                text_order_is_total(x, o[p]);
                if j - 1 > p {
                    assert(leq(o[p], o[j - 1]));
                    assert(leq(x, o[p]));
                    assert(leq(x, o[j - 1]));
                }
            }
        }
        assert(w.to_multiset() =~= s.to_multiset()) by {
            assert(w.remove(p) =~= o);
            assert(w =~= o.insert(p, x));
            assert(o.insert(p, x).to_multiset() =~= o.to_multiset().insert(x));
        }
    } else {
        assert(s =~= Seq::empty());
    }
}

/// The order in which texts come does not matter once they are sorted.
pub proof fn sorting_forgets_order(s: Seq<Seq<char>>, t: Seq<Seq<char>>)
    requires
        s.to_multiset() == t.to_multiset(),
    ensures
        sorted_texts(s) == sorted_texts(t),
{
    let leq = |a: Seq<char>, b: Seq<char>| text_leq(a, b);
    sorting_sorts(s);
    sorting_sorts(t);
    lemma_leq_total_ordering();
    assert(sorted_by(sorted_texts(s), leq));
    assert(sorted_by(sorted_texts(t), leq));
    vstd::seq_lib::lemma_sorted_unique(sorted_texts(s), sorted_texts(t), leq);
}

/// Whether `a` comes before `b`.
pub fn comes_before(a: &str, b: &str) -> (r: bool)
    ensures
        r == text_before(a@, b@),
{
    let x = chars_of(a);
    let y = chars_of(b);
    let mut i: usize = 0;
    assert(x@.subrange(0, x@.len() as int) =~= x@);
    assert(y@.subrange(0, y@.len() as int) =~= y@);
    loop
        invariant
            i <= x@.len(),
            i <= y@.len(),
            x@ == a@,
            y@ == b@,
            text_before(a@, b@) == text_before(
                x@.subrange(i as int, x@.len() as int),
                y@.subrange(i as int, y@.len() as int),
            ),
        decreases x@.len() - i,
    {
        let ghost p = x@.subrange(i as int, x@.len() as int);
        let ghost q = y@.subrange(i as int, y@.len() as int);
        if i >= y.len() {
            return false;
        }
        if i >= x.len() {
            return true;
        }
        assert(p[0] == x@[i as int] && q[0] == y@[i as int]);
        if x[i] != y[i] {
            return x[i] < y[i];
        }
        assert(p.drop_first() =~= x@.subrange(i + 1, x@.len() as int));
        assert(q.drop_first() =~= y@.subrange(i + 1, y@.len() as int));
        i = i + 1;
    }
}

/// Sorts texts.
pub fn sort_texts(v: &Vec<String>) -> (r: Vec<String>)
    ensures
        texts(r@) == sorted_texts(texts(v@)),
{
    let ghost m = texts(v@);
    let mut r: Vec<String> = Vec::new();
    let mut k: usize = 0;
    assert(texts(r@) =~= Seq::<Seq<char>>::empty());
    assert(m.subrange(0, 0) =~= Seq::<Seq<char>>::empty());
    while k < v.len()
        invariant
            k <= v@.len(),
            m == texts(v@),
            texts(r@) == sorted_texts(m.subrange(0, k as int)),
        decreases v@.len() - k,
    {
        let ghost o = texts(r@);
        assert(m.subrange(0, k + 1).drop_last() =~= m.subrange(0, k as int));
        let mut p: usize = 0;
        while p < r.len() && !comes_before(v[k].as_str(), r[p].as_str())
            invariant
                p <= r@.len(),
                k < v@.len(),
                o == texts(r@),
                text_slot(o, v@[k as int]@, 0) == text_slot(o, v@[k as int]@, p as int),
            decreases r@.len() - p,
        {
            assert(o[p as int] == r@[p as int]@);
            p = p + 1;
        }
        proof {
            if p < r@.len() {
                assert(o[p as int] == r@[p as int]@);
            }
        }
        r.insert(p, v[k].clone());
        assert(texts(r@) =~= o.insert(p as int, m[k as int]));
        k = k + 1;
    }
    assert(m.subrange(0, k as int) =~= m);
    r
}

} // verus!
