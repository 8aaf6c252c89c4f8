use vstd::prelude::*;

verus! {

/// The index of the first element of `s` that satisfies `pred`, if any.
pub open spec fn find_index<A>(s: Seq<A>, pred: spec_fn(A) -> bool) -> Option<int>
    decreases s.len(),
{
    if s.len() == 0 {
        None
    } else if pred(s[0]) {
        Some(0)
    } else {
        match find_index(s.drop_first(), pred) {
            Some(i) => Some(i + 1),
            None => None,
        }
    }
}

/// `find_index` finds the earliest element that satisfies the predicate, and
/// finds none only where no element does.
pub proof fn lemma_find_index<A>(s: Seq<A>, pred: spec_fn(A) -> bool)
    ensures
        match find_index(s, pred) {
            Some(k) => 0 <= k < s.len() && pred(s[k]) && forall|j: int| 0 <= j < k ==> !pred(#[trigger] s[j]),
            None => forall|j: int| 0 <= j < s.len() ==> !pred(#[trigger] s[j]),
        },
    decreases s.len(),
{
    if s.len() > 0 && !pred(s[0]) {
        lemma_find_index(s.drop_first(), pred);
        match find_index(s.drop_first(), pred) {
            Some(k) => {
                assert forall|j: int| 0 <= j < k + 1 implies !pred(#[trigger] s[j]) by {
                    if j > 0 {
                        assert(s[j] == s.drop_first()[j - 1]);
                    }
                }
            },
            None => {
                assert forall|j: int| 0 <= j < s.len() implies !pred(#[trigger] s[j]) by {
                    if j > 0 {
                        assert(s[j] == s.drop_first()[j - 1]);
                    }
                }
            },
        }
    }
}

/// An index that is the earliest to satisfy `pred` is what `find_index` gives.
pub proof fn lemma_find_index_is<A>(s: Seq<A>, pred: spec_fn(A) -> bool, k: int)
    requires
        0 <= k < s.len(),
        pred(s[k]),
        forall|j: int| 0 <= j < k ==> !pred(#[trigger] s[j]),
    ensures
        find_index(s, pred) == Some(k),
{
    lemma_find_index(s, pred);
    match find_index(s, pred) {
        Some(i) => {
            if i < k {
                assert(!pred(s[i]));
            } else if i > k {
                assert(!pred(s[k]));
            }
        },
        None => {
            assert(!pred(s[k]));
        },
    }
}

/// Where no element satisfies `pred`, `find_index` finds nothing.
pub proof fn lemma_find_index_none<A>(s: Seq<A>, pred: spec_fn(A) -> bool)
    requires
        forall|j: int| 0 <= j < s.len() ==> !pred(#[trigger] s[j]),
    ensures
        find_index(s, pred) is None,
{
    lemma_find_index(s, pred);
    match find_index(s, pred) {
        Some(i) => {
            assert(!pred(s[i]));
        },
        None => {},
    }
}

/// The elements of `s` that satisfy `pred`, in their order in `s`.
pub open spec fn filter_seq<A>(s: Seq<A>, pred: spec_fn(A) -> bool) -> Seq<A>
    decreases s.len(),
{
    if s.len() == 0 {
        s
    } else {
        let t = filter_seq(s.drop_last(), pred);
        if pred(s.last()) {
            t.push(s.last())
        } else {
            t
        }
    }
}

/// An element is kept by the filter exactly where it is in `s` and
/// satisfies `pred`.
pub proof fn lemma_filter_seq_contains<A>(s: Seq<A>, pred: spec_fn(A) -> bool, x: A)
    ensures
        filter_seq(s, pred).contains(x) <==> s.contains(x) && pred(x),
    decreases s.len(),
{
    if s.len() > 0 {
        let t = filter_seq(s.drop_last(), pred);
        lemma_filter_seq_contains(s.drop_last(), pred, x);
        if s.contains(x) {
            let i = choose|i: int| 0 <= i < s.len() && s[i] == x;
            if i < s.len() - 1 {
                assert(s.drop_last()[i] == x);
            }
        }
        if s.drop_last().contains(x) {
            let i = choose|i: int| 0 <= i < s.drop_last().len() && s.drop_last()[i] == x;
            assert(s[i] == x);
        }
        if pred(s.last()) {
            if t.push(s.last()).contains(x) {
                let i = choose|i: int| 0 <= i < t.push(s.last()).len() && t.push(s.last())[i] == x;
                if i < t.len() {
                    assert(t[i] == x);
                }
            }
            if t.contains(x) {
                let i = choose|i: int| 0 <= i < t.len() && t[i] == x;
                assert(t.push(s.last())[i] == x);
            }
            assert(t.push(s.last())[t.len() as int] == s.last());
        }
    }
}

/// The characters of the pieces of `s`, one after the other.
pub open spec fn concat_seq(s: Seq<Seq<char>>) -> Seq<char>
    decreases s.len(),
{
    if s.len() == 0 {
        Seq::empty()
    } else {
        concat_seq(s.drop_last()) + s.last()
    }
}

/// Taking one more element of `s` adds it to the filtered prefix exactly
/// where it satisfies `pred`.
pub proof fn lemma_filter_take<A>(s: Seq<A>, pred: spec_fn(A) -> bool, k: int)
    requires
        0 <= k < s.len(),
    ensures
        filter_seq(s.take(k + 1), pred) == if pred(s[k]) {
            filter_seq(s.take(k), pred).push(s[k])
        } else {
            filter_seq(s.take(k), pred)
        },
{
    assert(s.take(k + 1).drop_last() =~= s.take(k));
    assert(s.take(k + 1).last() == s[k]);
}

/// The text of the pieces that `f` makes of `s` with `x` pushed is that of
/// `s` followed by that of `x`.
pub proof fn lemma_concat_map_push<A>(s: Seq<A>, x: A, f: spec_fn(A) -> Seq<char>)
    ensures
        concat_seq(s.push(x).map_values(f)) == concat_seq(s.map_values(f)) + f(x),
{
    assert(s.push(x).map_values(f).drop_last() =~= s.map_values(f));
    assert(s.push(x).map_values(f).last() == f(x));
}

/// The index of the last element of `s` that satisfies `pred`, if any.
pub open spec fn find_last_index<A>(s: Seq<A>, pred: spec_fn(A) -> bool) -> Option<int>
    decreases s.len(),
{
    if s.len() == 0 {
        None
    } else if pred(s.last()) {
        Some(s.len() - 1)
    } else {
        find_last_index(s.drop_last(), pred)
    }
}

/// `find_last_index` finds the latest element that satisfies the predicate,
/// and finds none only where no element does.
pub proof fn lemma_find_last_index<A>(s: Seq<A>, pred: spec_fn(A) -> bool)
    ensures
        match find_last_index(s, pred) {
            Some(k) => 0 <= k < s.len() && pred(s[k]) && forall|j: int| k < j < s.len() ==> !pred(#[trigger] s[j]),
            None => forall|j: int| 0 <= j < s.len() ==> !pred(#[trigger] s[j]),
        },
    decreases s.len(),
{
    if s.len() > 0 && !pred(s.last()) {
        let t = s.drop_last();
        lemma_find_last_index(t, pred);
        match find_last_index(t, pred) {
            Some(k) => {
                assert forall|j: int| k < j < s.len() implies !pred(#[trigger] s[j]) by {
                    if j < s.len() - 1 {
                        assert(s[j] == t[j]);
                    }
                }
            },
            None => {
                assert forall|j: int| 0 <= j < s.len() implies !pred(#[trigger] s[j]) by {
                    if j < s.len() - 1 {
                        assert(s[j] == t[j]);
                    }
                }
            },
        }
    }
}

/// An index that is the latest to satisfy `pred` is what `find_last_index` gives.
pub proof fn lemma_find_last_index_is<A>(s: Seq<A>, pred: spec_fn(A) -> bool, k: int)
    requires
        0 <= k < s.len(),
        pred(s[k]),
        forall|j: int| k < j < s.len() ==> !pred(#[trigger] s[j]),
    ensures
        find_last_index(s, pred) == Some(k),
{
    lemma_find_last_index(s, pred);
    match find_last_index(s, pred) {
        Some(i) => {
            if i < k {
                assert(!pred(s[k]));
            } else if i > k {
                assert(!pred(s[i]));
            }
        },
        None => {
            assert(!pred(s[k]));
        },
    }
}

/// Where no element satisfies `pred`, `find_last_index` finds nothing.
pub proof fn lemma_find_last_index_none<A>(s: Seq<A>, pred: spec_fn(A) -> bool)
    requires
        forall|j: int| 0 <= j < s.len() ==> !pred(#[trigger] s[j]),
    ensures
        find_last_index(s, pred) is None,
{
    lemma_find_last_index(s, pred);
    match find_last_index(s, pred) {
        Some(i) => {
            assert(!pred(s[i]));
        },
        None => {},
    }
}

} // verus!
