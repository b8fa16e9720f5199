//! What a stable sort by an integer key produces, and the lemma that makes
//! insertion after the last equal key a stable sort.
use vstd::prelude::*;

verus! {

broadcast use {vstd::seq_lib::group_seq_properties, vstd::seq::group_seq_axioms};

/// The keys of `s` never decrease.
pub open spec fn sorted_by<T>(s: Seq<T>, key: spec_fn(T) -> int) -> bool {
    forall|i: int, j: int| 0 <= i < j < s.len() ==> #[trigger] key(s[i]) <= #[trigger] key(s[j])
}

/// The predicate "has key `k`".
pub open spec fn has_key<T>(key: spec_fn(T) -> int, k: int) -> spec_fn(T) -> bool {
    |x: T| key(x) == k
}

/// For every key, the elements with that key come in the same order in `a` and in `b`.
pub open spec fn same_per_key<T>(a: Seq<T>, b: Seq<T>, key: spec_fn(T) -> int) -> bool {
    forall|k: int| #[trigger] a.filter(has_key(key, k)) == b.filter(has_key(key, k))
}

/// `out` is `inp` sorted by `key`, elements with equal keys kept in their input order
/// (what a stable sort such as `sort_by_key` produces).
pub open spec fn stable_sorted<T>(out: Seq<T>, inp: Seq<T>, key: spec_fn(T) -> int) -> bool {
    sorted_by(out, key) && same_per_key(out, inp, key)
}

/// The empty sequence is the stable sort of the empty sequence.
pub proof fn lemma_stable_sorted_empty<T>(key: spec_fn(T) -> int)
    ensures
        stable_sorted(Seq::<T>::empty(), Seq::<T>::empty(), key),
{
    assert forall|k: int| #[trigger] Seq::<T>::empty().filter(has_key(key, k)) == Seq::<T>::empty().filter(
        has_key(key, k),
    ) by {}
}

/// Filtering by a predicate that no element meets gives the empty sequence.
pub proof fn lemma_filter_none<T>(s: Seq<T>, pred: spec_fn(T) -> bool)
    requires
        forall|i: int| 0 <= i < s.len() ==> !pred(#[trigger] s[i]),
    ensures
        s.filter(pred) == Seq::<T>::empty(),
    decreases s.len(),
{
    reveal(Seq::filter);
    if s.len() > 0 {
        lemma_filter_none(s.drop_last(), pred);
        assert(!pred(s[s.len() - 1]));
    }
    assert(s.filter(pred) =~= Seq::<T>::empty());
}

/// Filtering keeps every element that meets the predicate, in order.
pub proof fn lemma_filter_all<T>(s: Seq<T>, pred: spec_fn(T) -> bool)
    requires
        forall|i: int| 0 <= i < s.len() ==> pred(#[trigger] s[i]),
    ensures
        s.filter(pred) == s,
    decreases s.len(),
{
    reveal(Seq::filter);
    if s.len() > 0 {
        lemma_filter_all(s.drop_last(), pred);
        assert(pred(s[s.len() - 1]));
        assert(s.drop_last().push(s.last()) =~= s);
    }
    assert(s.filter(pred) =~= s);
}

/// Inserting `x` right after the last element whose key is at most `key(x)` turns a
/// stable sort of `inp` into a stable sort of `inp.push(x)`.
pub proof fn lemma_stable_insert<T>(out: Seq<T>, inp: Seq<T>, key: spec_fn(T) -> int, x: T, p: int)
    requires
        stable_sorted(out, inp, key),
        0 <= p <= out.len(),
        forall|i: int| 0 <= i < p ==> key(#[trigger] out[i]) <= key(x),
        forall|i: int| p <= i < out.len() ==> key(#[trigger] out[i]) > key(x),
    ensures
        stable_sorted(out.insert(p, x), inp.push(x), key),
{
    let res = out.insert(p, x);
    let lo = out.subrange(0, p);
    let hi = out.subrange(p, out.len() as int);
    assert(res =~= lo + seq![x] + hi);
    assert(out =~= lo + hi);
    assert forall|i: int, j: int| 0 <= i < j < res.len() implies #[trigger] key(res[i]) <= #[trigger] key(
        res[j],
    ) by {
        if j < p {
            assert(res[i] == out[i] && res[j] == out[j]);
        } else if j == p {
            assert(res[i] == out[i]);
        } else if i < p {
            assert(res[i] == out[i] && res[j] == out[j - 1]);
        } else if i == p {
            assert(res[j] == out[j - 1]);
        } else {
            assert(res[i] == out[i - 1] && res[j] == out[j - 1]);
        }
    }
    assert forall|k: int| #[trigger] res.filter(has_key(key, k)) == inp.push(x).filter(
        has_key(key, k),
    ) by {
        let pred = has_key(key, k);
        assert(out.filter(pred) == inp.filter(pred));
        inp.lemma_filter_push(x, pred);
        assert((lo + seq![x] + hi).filter(pred) == (lo + seq![x]).filter(pred) + hi.filter(pred));
        assert((lo + seq![x]).filter(pred) == lo.filter(pred) + seq![x].filter(pred));
        assert((lo + hi).filter(pred) == lo.filter(pred) + hi.filter(pred));
        if key(x) == k {
            assert forall|i: int| 0 <= i < hi.len() implies !pred(#[trigger] hi[i]) by {
                assert(hi[i] == out[p + i]);
            }
            lemma_filter_none(hi, pred);
            lemma_filter_all(seq![x], pred);
            assert(res.filter(pred) =~= out.filter(pred).push(x));
        } else {
            lemma_filter_none(seq![x], pred);
            assert(res.filter(pred) =~= out.filter(pred));
        }
    }
}

/// Every element of a stable sort comes from its input.
pub proof fn lemma_stable_sorted_member<T>(out: Seq<T>, inp: Seq<T>, key: spec_fn(T) -> int, i: int)
    requires
        stable_sorted(out, inp, key),
        0 <= i < out.len(),
    ensures
        inp.contains(out[i]),
{
    let pred = has_key(key, key(out[i]));
    out.lemma_filter_contains(pred, i);
    assert(out.filter(pred) == inp.filter(pred));
    inp.lemma_filter_contains_rev(pred, out[i]);
}

} // verus!
