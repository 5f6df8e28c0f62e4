//! Sums over sequences, and their independence of the order of the elements.
use vstd::prelude::*;
use vstd::multiset::Multiset;
use vstd::seq_lib::{
    group_to_multiset_ensures, to_multiset_build, to_multiset_len, to_multiset_remove,
};

verus! {

/// The sum of `f` over the elements of `s`.
pub open spec fn sum_by<A>(s: Seq<A>, f: spec_fn(A) -> int) -> int
    decreases s.len(),
{
    if s.len() == 0 {
        0
    } else {
        sum_by(s.drop_last(), f) + f(s.last())
    }
}

/// The sum over the first `i + 1` elements is the sum over the first `i` and the next.
pub proof fn lemma_sum_by_take<A>(s: Seq<A>, f: spec_fn(A) -> int, i: int)
    requires
        0 <= i < s.len(),
    ensures
        sum_by(s.take(i + 1), f) == sum_by(s.take(i), f) + f(s[i]),
{
    assert(s.take(i + 1).drop_last() =~= s.take(i));
}

/// The sum over a sequence with one more element at its end.
pub proof fn lemma_sum_by_push<A>(s: Seq<A>, f: spec_fn(A) -> int, x: A)
    ensures
        sum_by(s.push(x), f) == sum_by(s, f) + f(x),
{
    assert(s.push(x).drop_last() =~= s);
}

/// Taking one element out takes its term out of the sum.
pub proof fn lemma_sum_by_remove<A>(s: Seq<A>, f: spec_fn(A) -> int, j: int)
    requires
        0 <= j < s.len(),
    ensures
        sum_by(s, f) == sum_by(s.remove(j), f) + f(s[j]),
    decreases s.len(),
{
    if j == s.len() - 1 {
        assert(s.remove(j) =~= s.drop_last());
    } else {
        lemma_sum_by_remove(s.drop_last(), f, j);
        assert(s.remove(j).drop_last() =~= s.drop_last().remove(j));
        assert(s.remove(j).last() == s.last());
    }
}

/// Two sequences with the same elements, in whatever order, have the same sum.
pub proof fn lemma_sum_by_permutation<A>(a: Seq<A>, b: Seq<A>, f: spec_fn(A) -> int)
    requires
        a.to_multiset() == b.to_multiset(),
    ensures
        sum_by(a, f) == sum_by(b, f),
    decreases a.len(),
{
    broadcast use {group_to_multiset_ensures, vstd::multiset::group_multiset_axioms};

    to_multiset_len(a);
    to_multiset_len(b);
    if a.len() > 0 {
        let x = a.last();
        let front = a.drop_last();
        assert(front.push(x) =~= a);
        to_multiset_build(front, x);
        assert(a.to_multiset().count(x) > 0);
        assert(b.contains(x));
        let j = choose|j: int| 0 <= j < b.len() && b[j] == x;
        to_multiset_remove(b, j);
        assert(front.to_multiset() =~= a.to_multiset().remove(x));
        lemma_sum_by_permutation(front, b.remove(j), f);
        lemma_sum_by_remove(b, f, j);
    }
}

/// The union of the multisets that `f` gives for the elements of `s`.
pub open spec fn bag_by<A, B>(s: Seq<A>, f: spec_fn(A) -> Multiset<B>) -> Multiset<B>
    decreases s.len(),
{
    if s.len() == 0 {
        Multiset::empty()
    } else {
        bag_by(s.drop_last(), f).add(f(s.last()))
    }
}

/// The multiset that holds the image of an element under `g` and nothing else.
pub open spec fn singleton_of<A, B>(g: spec_fn(A) -> B) -> spec_fn(A) -> Multiset<B> {
    |x: A| Multiset::singleton(g(x))
}

/// Taking one element out takes its multiset out of the union.
pub proof fn lemma_bag_by_remove<A, B>(s: Seq<A>, f: spec_fn(A) -> Multiset<B>, j: int)
    requires
        0 <= j < s.len(),
    ensures
        bag_by(s, f) == bag_by(s.remove(j), f).add(f(s[j])),
    decreases s.len(),
{
    broadcast use vstd::multiset::group_multiset_axioms;

    if j == s.len() - 1 {
        assert(s.remove(j) =~= s.drop_last());
    } else {
        lemma_bag_by_remove(s.drop_last(), f, j);
        assert(s.remove(j).drop_last() =~= s.drop_last().remove(j));
        assert(s.remove(j).last() == s.last());
        assert(bag_by(s, f) =~= bag_by(s.remove(j), f).add(f(s[j])));
    }
}

/// Two sequences with the same elements, in whatever order, have the same union.
pub proof fn lemma_bag_by_permutation<A, B>(a: Seq<A>, b: Seq<A>, f: spec_fn(A) -> Multiset<B>)
    requires
        a.to_multiset() == b.to_multiset(),
    ensures
        bag_by(a, f) == bag_by(b, f),
    decreases a.len(),
{
    broadcast use {group_to_multiset_ensures, vstd::multiset::group_multiset_axioms};

    to_multiset_len(a);
    to_multiset_len(b);
    if a.len() > 0 {
        let x = a.last();
        let front = a.drop_last();
        assert(front.push(x) =~= a);
        to_multiset_build(front, x);
        assert(a.to_multiset().count(x) > 0);
        assert(b.contains(x));
        let j = choose|j: int| 0 <= j < b.len() && b[j] == x;
        to_multiset_remove(b, j);
        assert(front.to_multiset() =~= a.to_multiset().remove(x));
        lemma_bag_by_permutation(front, b.remove(j), f);
        lemma_bag_by_remove(b, f, j);
    }
}

/// The images of the elements of a sequence are the union of the single images.
pub proof fn lemma_bag_of_images<A, B>(s: Seq<A>, g: spec_fn(A) -> B)
    ensures
        s.map_values(g).to_multiset() == bag_by(s, singleton_of(g)),
    decreases s.len(),
{
    broadcast use {group_to_multiset_ensures, vstd::multiset::group_multiset_axioms};

    if s.len() == 0 {
        assert(s.map_values(g) =~= Seq::<B>::empty());
        assert(s.map_values(g).to_multiset() =~= Multiset::<B>::empty());
    } else {
        let front = s.drop_last();
        lemma_bag_of_images(front, g);
        assert(s.map_values(g) =~= front.map_values(g).push(g(s.last())));
        to_multiset_build(front.map_values(g), g(s.last()));
        assert(s.map_values(g).to_multiset() =~= bag_by(s, singleton_of(g)));
    }
}

/// The images of two sequences with the same elements are the same, in whatever order.
pub proof fn lemma_images_permutation<A, B>(a: Seq<A>, b: Seq<A>, g: spec_fn(A) -> B)
    requires
        a.to_multiset() == b.to_multiset(),
    ensures
        a.map_values(g).to_multiset() == b.map_values(g).to_multiset(),
{
    lemma_bag_of_images(a, g);
    lemma_bag_of_images(b, g);
    lemma_bag_by_permutation(a, b, singleton_of(g));
}

} // verus!
