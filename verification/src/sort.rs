use vstd::prelude::*;

use crate::search::{find_index, lemma_find_index, lemma_find_index_is, lemma_find_index_none};

verus! {

/// Where `x` goes into `t` when it follows every element that it does not
/// precede: before the first `y` of `t` with `lt(x, y)`, or at the end.
pub open spec fn insert_pos<A>(t: Seq<A>, x: A, lt: spec_fn(A, A) -> bool) -> int {
    match find_index(t, |y: A| lt(x, y)) {
        Some(i) => i,
        None => t.len() as int,
    }
}

/// The stable sort of `s` by the strict order `lt`, as insertion sort gives
/// it: elements that neither precedes keep their order in `s`. For an order
/// by key, this is what `slice::sort_by_key` gives.
pub open spec fn sort_seq<A>(s: Seq<A>, lt: spec_fn(A, A) -> bool) -> Seq<A>
    decreases s.len(),
{
    if s.len() == 0 {
        s
    } else {
        let t = sort_seq(s.drop_last(), lt);
        t.insert(insert_pos(t, s.last(), lt), s.last())
    }
}

pub proof fn lemma_sort_seq_len<A>(s: Seq<A>, lt: spec_fn(A, A) -> bool)
    ensures
        sort_seq(s, lt).len() == s.len(),
    decreases s.len(),
{
    if s.len() > 0 {
        lemma_sort_seq_len(s.drop_last(), lt);
        let t = sort_seq(s.drop_last(), lt);
        lemma_find_index(t, |y: A| lt(s.last(), y));
    }
}

/// Sorting keeps the elements: the result holds each element as many times
/// as `s` does.
pub proof fn lemma_sort_seq_permutes<A>(s: Seq<A>, lt: spec_fn(A, A) -> bool)
    ensures
        sort_seq(s, lt).to_multiset() == s.to_multiset(),
    decreases s.len(),
{
    if s.len() > 0 {
        let t = sort_seq(s.drop_last(), lt);
        let x = s.last();
        lemma_sort_seq_permutes(s.drop_last(), lt);
        lemma_find_index(t, |y: A| lt(x, y));
        let p = insert_pos(t, x, lt);
        vstd::seq_lib::to_multiset_insert(t, p, x);
        assert(s.drop_last().push(x) =~= s);
        vstd::seq_lib::to_multiset_build(s.drop_last(), x);
    }
}

/// Sorting by a key puts the keys in ascending order.
pub proof fn lemma_sort_seq_sorted<A>(s: Seq<A>, lt: spec_fn(A, A) -> bool, key: spec_fn(A) -> int)
    requires
        forall|a: A, b: A| #[trigger] lt(a, b) == (key(a) < key(b)),
    ensures
        forall|i: int, j: int|
            0 <= i < j < sort_seq(s, lt).len() ==> key(#[trigger] sort_seq(s, lt)[i]) <= key(#[trigger] sort_seq(s, lt)[j]),
    decreases s.len(),
{
    if s.len() > 0 {
        let t = sort_seq(s.drop_last(), lt);
        let x = s.last();
        lemma_sort_seq_sorted(s.drop_last(), lt, key);
        lemma_sort_seq_len(s.drop_last(), lt);
        let pred = |y: A| lt(x, y);
        lemma_find_index(t, pred);
        let p = insert_pos(t, x, lt);
        let r = t.insert(p, x);
        assert(r == sort_seq(s, lt));
        assert forall|j: int| 0 <= j < p implies key(#[trigger] t[j]) <= key(x) by {
            assert(!pred(t[j]));
        }
        assert forall|j: int| p <= j < t.len() implies key(x) < key(#[trigger] t[j]) by {
            assert(pred(t[p]));
            if j > p {
                assert(key(t[p]) <= key(t[j]));
            }
        }
        assert forall|i: int, j: int| 0 <= i < j < r.len() implies key(#[trigger] r[i]) <= key(#[trigger] r[j]) by {
            if j < p {
                assert(r[i] == t[i] && r[j] == t[j]);
            } else if j == p {
                assert(r[i] == t[i]);
            } else if i < p {
                assert(r[i] == t[i] && r[j] == t[j - 1]);
            } else if i == p {
                assert(r[j] == t[j - 1]);
            } else {
                assert(r[i] == t[i - 1] && r[j] == t[j - 1]);
            }
        }
    }
}

/// Sorting by a transitive, irreflexive order never puts an element after
/// one that it precedes.
pub proof fn lemma_sort_seq_ordered<A>(s: Seq<A>, lt: spec_fn(A, A) -> bool)
    requires
        forall|a: A| !(#[trigger] lt(a, a)),
        forall|a: A, b: A, c: A| #[trigger] lt(a, b) && #[trigger] lt(b, c) ==> lt(a, c),
    ensures
        forall|i: int, j: int|
            0 <= i < j < sort_seq(s, lt).len() ==> !lt(#[trigger] sort_seq(s, lt)[j], #[trigger] sort_seq(s, lt)[i]),
    decreases s.len(),
{
    if s.len() > 0 {
        let t = sort_seq(s.drop_last(), lt);
        let x = s.last();
        lemma_sort_seq_ordered(s.drop_last(), lt);
        lemma_sort_seq_len(s.drop_last(), lt);
        let pred = |y: A| lt(x, y);
        lemma_find_index(t, pred);
        let p = insert_pos(t, x, lt);
        let r = t.insert(p, x);
        assert(r == sort_seq(s, lt));
        assert forall|j: int| 0 <= j < p implies !lt(x, #[trigger] t[j]) by {
            assert(!pred(t[j]));
        }
        assert forall|j: int| p <= j < t.len() implies !lt(#[trigger] t[j], x) by {
            assert(pred(t[p]));
            if lt(t[j], x) {
                if j > p {
                    assert(lt(t[j], t[p]));
                } else {
                    assert(lt(t[p], t[p]));
                }
            }
        }
        assert forall|i: int, j: int| 0 <= i < j < r.len() implies !lt(#[trigger] r[j], #[trigger] r[i]) by {
            if j < p {
                assert(r[i] == t[i] && r[j] == t[j]);
            } else if j == p {
                assert(r[i] == t[i]);
            } else if i < p {
                assert(r[i] == t[i] && r[j] == t[j - 1]);
            } else if i == p {
                assert(r[j] == t[j - 1]);
            } else {
                assert(r[i] == t[i - 1] && r[j] == t[j - 1]);
            }
        }
    }
}

proof fn lemma_find_index_map<A, B>(
    s: Seq<A>,
    f: spec_fn(A) -> B,
    p: spec_fn(A) -> bool,
    q: spec_fn(B) -> bool,
)
    requires
        forall|a: A| #[trigger] p(a) == q(f(a)),
    ensures
        find_index(s, p) == find_index(s.map_values(f), q),
    decreases s.len(),
{
    if s.len() > 0 {
        assert(s.map_values(f)[0] == f(s[0]));
        assert(s.map_values(f).drop_first() =~= s.drop_first().map_values(f));
        lemma_find_index_map(s.drop_first(), f, p, q);
    }
}

/// Sorting commutes with a map that carries one order onto the other.
pub proof fn lemma_sort_seq_map<A, B>(
    s: Seq<A>,
    f: spec_fn(A) -> B,
    lta: spec_fn(A, A) -> bool,
    ltb: spec_fn(B, B) -> bool,
)
    requires
        forall|a: A, b: A| #[trigger] lta(a, b) == ltb(f(a), f(b)),
    ensures
        sort_seq(s, lta).map_values(f) == sort_seq(s.map_values(f), ltb),
    decreases s.len(),
{
    if s.len() > 0 {
        let sm = s.map_values(f);
        assert(sm.drop_last() =~= s.drop_last().map_values(f));
        assert(sm.last() == f(s.last()));
        lemma_sort_seq_map(s.drop_last(), f, lta, ltb);
        let t = sort_seq(s.drop_last(), lta);
        let x = s.last();
        lemma_find_index_map(t, f, |y: A| lta(x, y), |y: B| ltb(f(x), y));
        lemma_find_index(t, |y: A| lta(x, y));
        let p = insert_pos(t, x, lta);
        assert(insert_pos(t.map_values(f), f(x), ltb) == p);
        assert(t.insert(p, x).map_values(f) =~= t.map_values(f).insert(p, f(x)));
    }
}

/// Sorts `items` stably by the strict order that `lt` computes.
pub fn sort_by<T: Copy, F: Fn(&T, &T) -> bool>(
    items: &Vec<T>,
    lt: F,
    Ghost(slt): Ghost<spec_fn(T, T) -> bool>,
) -> (res: Vec<T>)
    requires
        forall|a: T, b: T| #[trigger] lt.requires((&a, &b)),
        forall|a: T, b: T, r: bool| #[trigger] lt.ensures((&a, &b), r) ==> r == slt(a, b),
    ensures
        res@ == sort_seq(items@, slt),
{
    let mut out: Vec<T> = Vec::new();
    let mut i: usize = 0;
    assert(items@.take(0) =~= Seq::<T>::empty());
    while i < items.len()
        invariant
            i <= items.len(),
            out@ == sort_seq(items@.take(i as int), slt),
            forall|a: T, b: T| #[trigger] lt.requires((&a, &b)),
            forall|a: T, b: T, r: bool| #[trigger] lt.ensures((&a, &b), r) ==> r == slt(a, b),
        decreases items.len() - i,
    {
        let x = items[i];
        let ghost pred = |y: T| slt(x, y);
        proof {
            lemma_sort_seq_len(items@.take(i as int), slt);
        }
        let mut p: usize = 0;
        while p < out.len() && !lt(&x, &out[p])
            invariant
                p <= out.len(),
                forall|j: int| 0 <= j < p ==> !pred(#[trigger] out@[j]),
                pred == (|y: T| slt(x, y)),
                forall|a: T, b: T| #[trigger] lt.requires((&a, &b)),
                forall|a: T, b: T, r: bool| #[trigger] lt.ensures((&a, &b), r) ==> r == slt(a, b),
            decreases out.len() - p,
        {
            p = p + 1;
        }
        proof {
            if p < out.len() {
                lemma_find_index_is(out@, pred, p as int);
            } else {
                lemma_find_index_none(out@, pred);
            }
            assert(items@.take(i + 1).drop_last() =~= items@.take(i as int));
            assert(items@.take(i + 1).last() == x);
        }
        out.insert(p, x);
        i = i + 1;
    }
    assert(items@.take(items.len() as int) =~= items@);
    out
}

} // verus!
