//! Facts about sequences: filtering, and what it means for one sequence to
//! come from another by deletions alone.
use vstd::prelude::*;

verus! {

/// Filtering the empty sequence.
pub proof fn lemma_filter_empty<A>(keep: spec_fn(A) -> bool)
    ensures
        Seq::<A>::empty().filter(keep) == Seq::<A>::empty(),
{
}

/// Removing an element that the filter rejects does not change what the
/// filter keeps.
pub proof fn lemma_filter_remove_rejected<A>(s: Seq<A>, keep: spec_fn(A) -> bool, i: int)
    requires
        0 <= i < s.len(),
        !keep(s[i]),
    ensures
        s.remove(i).filter(keep) == s.filter(keep),
    decreases s.len(),
{
    let front = s.drop_last();
    assert(front.push(s.last()) =~= s);
    front.lemma_filter_push(s.last(), keep);
    if i < s.len() - 1 {
        lemma_filter_remove_rejected(front, keep, i);
        assert(front.remove(i).push(s.last()) =~= s.remove(i));
        front.remove(i).lemma_filter_push(s.last(), keep);
    }
}

/// A filter that rejects nothing keeps the whole sequence.
pub proof fn lemma_filter_keeps_all<A>(s: Seq<A>, keep: spec_fn(A) -> bool)
    requires
        forall|i: int| 0 <= i < s.len() ==> keep(#[trigger] s[i]),
    ensures
        s.filter(keep) == s,
    decreases s.len(),
{
    if s.len() > 0 {
        let front = s.drop_last();
        assert(front.push(s.last()) =~= s);
        front.lemma_filter_push(s.last(), keep);
        lemma_filter_keeps_all(front, keep);
    }
}

/// A filter that rejects everything keeps nothing.
pub proof fn lemma_filter_keeps_none<A>(s: Seq<A>, keep: spec_fn(A) -> bool)
    requires
        forall|i: int| 0 <= i < s.len() ==> !keep(#[trigger] s[i]),
    ensures
        s.filter(keep) == Seq::<A>::empty(),
    decreases s.len(),
{
    if s.len() > 0 {
        let front = s.drop_last();
        assert(front.push(s.last()) =~= s);
        front.lemma_filter_push(s.last(), keep);
        lemma_filter_keeps_none(front, keep);
    }
}

/// Whether `places` names, for each element of `sub` in turn, a place in
/// `whole` where that element stands, the places going strictly upwards.
pub open spec fn is_embedding<A>(places: Seq<int>, sub: Seq<A>, whole: Seq<A>) -> bool {
    &&& places.len() == sub.len()
    &&& forall|i: int|
        0 <= i < places.len() ==> 0 <= #[trigger] places[i] < whole.len() && whole[places[i]]
            == sub[i]
    &&& forall|i: int, j: int|
        0 <= i < j < places.len() ==> #[trigger] places[i] < #[trigger] places[j]
}

/// Whether `sub` comes from `whole` by deletions alone: its elements are
/// elements of `whole`, in the same relative order.
pub open spec fn is_subsequence<A>(sub: Seq<A>, whole: Seq<A>) -> bool {
    exists|places: Seq<int>| is_embedding(places, sub, whole)
}

/// Every sequence comes from itself by deleting nothing.
pub proof fn lemma_subsequence_of_itself<A>(s: Seq<A>)
    ensures
        is_subsequence(s, s),
{
    let places = Seq::new(s.len(), |i: int| i);
    assert(is_embedding(places, s, s));
}

/// Deletions of deletions are deletions.
pub proof fn lemma_subsequence_chain<A>(a: Seq<A>, b: Seq<A>, c: Seq<A>)
    requires
        is_subsequence(a, b),
        is_subsequence(b, c),
    ensures
        is_subsequence(a, c),
{
    let inner = choose|places: Seq<int>| is_embedding(places, a, b);
    let outer = choose|places: Seq<int>| is_embedding(places, b, c);
    let places = Seq::new(a.len(), |i: int| outer[inner[i]]);
    assert(is_embedding(places, a, c));
}

/// An element appended to both sequences keeps the one a subsequence of the
/// other.
pub proof fn lemma_subsequence_push_both<A>(sub: Seq<A>, whole: Seq<A>, x: A)
    requires
        is_subsequence(sub, whole),
    ensures
        is_subsequence(sub.push(x), whole.push(x)),
{
    let old_places = choose|places: Seq<int>| is_embedding(places, sub, whole);
    let places = old_places.push(whole.len() as int);
    assert(is_embedding(places, sub.push(x), whole.push(x)));
}

/// An element appended to the whole alone keeps the subsequence one.
pub proof fn lemma_subsequence_push_whole<A>(sub: Seq<A>, whole: Seq<A>, x: A)
    requires
        is_subsequence(sub, whole),
    ensures
        is_subsequence(sub, whole.push(x)),
{
    let places = choose|places: Seq<int>| is_embedding(places, sub, whole);
    assert(is_embedding(places, sub, whole.push(x)));
}

/// A sequence with one element removed is a subsequence of it.
pub proof fn lemma_subsequence_remove<A>(s: Seq<A>, i: int)
    requires
        0 <= i < s.len(),
    ensures
        is_subsequence(s.remove(i), s),
{
    let places = Seq::new(
        (s.len() - 1) as nat,
        |k: int|
            if k < i {
                k
            } else {
                k + 1
            },
    );
    assert(is_embedding(places, s.remove(i), s));
}

/// What a filter keeps is a subsequence of what it was given.
pub proof fn lemma_subsequence_filter<A>(s: Seq<A>, keep: spec_fn(A) -> bool)
    ensures
        is_subsequence(s.filter(keep), s),
    decreases s.len(),
{
    if s.len() == 0 {
        lemma_filter_empty(keep);
        assert(s =~= Seq::<A>::empty());
        lemma_subsequence_of_itself(s);
    } else {
        let front = s.drop_last();
        assert(front.push(s.last()) =~= s);
        front.lemma_filter_push(s.last(), keep);
        lemma_subsequence_filter(front, keep);
        if keep(s.last()) {
            lemma_subsequence_push_both(front.filter(keep), front, s.last());
        } else {
            lemma_subsequence_push_whole(front.filter(keep), front, s.last());
        }
    }
}

/// Mapping both sequences keeps the one a subsequence of the other.
pub proof fn lemma_subsequence_map<A, B>(sub: Seq<A>, whole: Seq<A>, f: spec_fn(A) -> B)
    requires
        is_subsequence(sub, whole),
    ensures
        is_subsequence(sub.map_values(f), whole.map_values(f)),
{
    let places = choose|places: Seq<int>| is_embedding(places, sub, whole);
    assert(is_embedding(places, sub.map_values(f), whole.map_values(f)));
}

/// The same sequence put in front of both keeps the one a subsequence of
/// the other.
pub proof fn lemma_subsequence_after<A>(front: Seq<A>, sub: Seq<A>, whole: Seq<A>)
    requires
        is_subsequence(sub, whole),
    ensures
        is_subsequence(front + sub, front + whole),
{
    let old_places = choose|places: Seq<int>| is_embedding(places, sub, whole);
    let places = Seq::new(
        front.len() + sub.len(),
        |k: int|
            if k < front.len() {
                k
            } else {
                front.len() + old_places[k - front.len()]
            },
    );
    assert(is_embedding(places, front + sub, front + whole));
}

/// Whether `whole` is `left` and `right` shuffled into one another: each
/// element of `whole` belongs to exactly one of the two, and each of the two
/// is met in its own order.
pub open spec fn is_merge<A>(whole: Seq<A>, left: Seq<A>, right: Seq<A>) -> bool
    decreases whole.len(),
{
    if whole.len() == 0 {
        left.len() == 0 && right.len() == 0
    } else {
        ||| left.len() > 0 && left.last() == whole.last() && is_merge(
            whole.drop_last(),
            left.drop_last(),
            right,
        )
        ||| right.len() > 0 && right.last() == whole.last() && is_merge(
            whole.drop_last(),
            left,
            right.drop_last(),
        )
    }
}

/// An element appended to the whole and to the left part keeps the merge.
pub proof fn lemma_merge_push_left<A>(whole: Seq<A>, left: Seq<A>, right: Seq<A>, x: A)
    requires
        is_merge(whole, left, right),
    ensures
        is_merge(whole.push(x), left.push(x), right),
{
    assert(whole.push(x).drop_last() =~= whole);
    assert(left.push(x).drop_last() =~= left);
}

/// An element appended to the whole and to the right part keeps the merge.
pub proof fn lemma_merge_push_right<A>(whole: Seq<A>, left: Seq<A>, right: Seq<A>, x: A)
    requires
        is_merge(whole, left, right),
    ensures
        is_merge(whole.push(x), left, right.push(x)),
{
    assert(whole.push(x).drop_last() =~= whole);
    assert(right.push(x).drop_last() =~= right);
}

/// A sequence is the merge of itself and nothing.
pub proof fn lemma_merge_of_one<A>(s: Seq<A>)
    ensures
        is_merge(s, s, Seq::empty()),
        is_merge(s, Seq::empty(), s),
    decreases s.len(),
{
    if s.len() > 0 {
        lemma_merge_of_one(s.drop_last());
    }
}

/// Two merges put one after the other make a merge.
pub proof fn lemma_merge_joined<A>(
    whole1: Seq<A>,
    left1: Seq<A>,
    right1: Seq<A>,
    whole2: Seq<A>,
    left2: Seq<A>,
    right2: Seq<A>,
)
    requires
        is_merge(whole1, left1, right1),
        is_merge(whole2, left2, right2),
    ensures
        is_merge(whole1 + whole2, left1 + left2, right1 + right2),
    decreases whole2.len(),
{
    if whole2.len() > 0 {
        let x = whole2.last();
        let front = whole2.drop_last();
        assert((whole1 + front).push(x) =~= whole1 + whole2);
        if left2.len() > 0 && left2.last() == x && is_merge(front, left2.drop_last(), right2) {
            lemma_merge_joined(whole1, left1, right1, front, left2.drop_last(), right2);
            lemma_merge_push_left(whole1 + front, left1 + left2.drop_last(), right1 + right2, x);
            assert((left1 + left2.drop_last()).push(x) =~= left1 + left2);
        } else {
            lemma_merge_joined(whole1, left1, right1, front, left2, right2.drop_last());
            lemma_merge_push_right(whole1 + front, left1 + left2, right1 + right2.drop_last(), x);
            assert((right1 + right2.drop_last()).push(x) =~= right1 + right2);
        }
    }
}

/// Mapping the whole and both parts keeps the merge.
pub proof fn lemma_merge_map<A, B>(whole: Seq<A>, left: Seq<A>, right: Seq<A>, f: spec_fn(A) -> B)
    requires
        is_merge(whole, left, right),
    ensures
        is_merge(whole.map_values(f), left.map_values(f), right.map_values(f)),
    decreases whole.len(),
{
    if whole.len() > 0 {
        let x = whole.last();
        let front = whole.drop_last();
        assert(front.map_values(f).push(f(x)) =~= whole.map_values(f));
        if left.len() > 0 && left.last() == x && is_merge(front, left.drop_last(), right) {
            lemma_merge_map(front, left.drop_last(), right, f);
            lemma_merge_push_left(
                front.map_values(f),
                left.drop_last().map_values(f),
                right.map_values(f),
                f(x),
            );
            assert(left.drop_last().map_values(f).push(f(x)) =~= left.map_values(f));
        } else {
            lemma_merge_map(front, left, right.drop_last(), f);
            lemma_merge_push_right(
                front.map_values(f),
                left.map_values(f),
                right.drop_last().map_values(f),
                f(x),
            );
            assert(right.drop_last().map_values(f).push(f(x)) =~= right.map_values(f));
        }
    }
}

/// A sequence is the merge of what a filter keeps of it and what the
/// opposite filter keeps.
pub proof fn lemma_merge_of_filters<A>(s: Seq<A>, keep: spec_fn(A) -> bool, drop: spec_fn(A) -> bool)
    requires
        forall|i: int| 0 <= i < s.len() ==> keep(#[trigger] s[i]) != drop(s[i]),
    ensures
        is_merge(s, s.filter(keep), s.filter(drop)),
    decreases s.len(),
{
    if s.len() > 0 {
        let front = s.drop_last();
        let x = s.last();
        assert(front.push(x) =~= s);
        lemma_merge_of_filters(front, keep, drop);
        front.lemma_filter_push(x, keep);
        front.lemma_filter_push(x, drop);
        if keep(x) {
            lemma_merge_push_left(front, front.filter(keep), front.filter(drop), x);
        } else {
            lemma_merge_push_right(front, front.filter(keep), front.filter(drop), x);
        }
    }
}

/// Both parts of a merge are subsequences of the whole.
pub proof fn lemma_merge_holds_parts<A>(whole: Seq<A>, left: Seq<A>, right: Seq<A>)
    requires
        is_merge(whole, left, right),
    ensures
        is_subsequence(left, whole),
        is_subsequence(right, whole),
    decreases whole.len(),
{
    if whole.len() == 0 {
        assert(left =~= whole);
        assert(right =~= whole);
        lemma_subsequence_of_itself(whole);
    } else {
        let x = whole.last();
        let front = whole.drop_last();
        assert(front.push(x) =~= whole);
        if left.len() > 0 && left.last() == x && is_merge(front, left.drop_last(), right) {
            lemma_merge_holds_parts(front, left.drop_last(), right);
            lemma_subsequence_push_both(left.drop_last(), front, x);
            assert(left.drop_last().push(x) =~= left);
            lemma_subsequence_push_whole(right, front, x);
        } else {
            lemma_merge_holds_parts(front, left, right.drop_last());
            lemma_subsequence_push_both(right.drop_last(), front, x);
            assert(right.drop_last().push(x) =~= right);
            lemma_subsequence_push_whole(left, front, x);
        }
    }
}

} // verus!
