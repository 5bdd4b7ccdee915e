//! What holds of every run of calls on a collapsing builder.
use crate::sequences::{
    is_merge, is_subsequence, lemma_filter_empty, lemma_filter_keeps_all,
    lemma_filter_keeps_none, lemma_filter_remove_rejected,
    lemma_merge_holds_parts, lemma_merge_joined, lemma_merge_map, lemma_merge_of_filters,
    lemma_merge_of_one, lemma_merge_push_left, lemma_subsequence_after, lemma_subsequence_chain,
    lemma_subsequence_filter, lemma_subsequence_map, lemma_subsequence_of_itself,
    lemma_subsequence_push_both, lemma_subsequence_push_whole, lemma_subsequence_remove,
};
use crate::state::{
    all_ignorant, committed_form, is_first_yielding, is_larger, survives, weak_only, yields_to,
    CollapseState, Staged,
};
use crate::style::StyleChain;
use crate::trace::{
    all_tentative, entries_of, lemma_run_joined, lemma_run_push, not_ignorant, not_weak,
    only_ignorant, Call,
};
use vstd::prelude::*;

verus! {

/// A destructive item cancels the weak item that came before it: the
/// builder is left as if the weak call had not been made.
pub proof fn law_destructive_cancels_weak<'a, T: PartialOrd>(
    state: CollapseState<'a, T>,
    weak: (T, StyleChain<'a>, u8),
    item: T,
    styles: StyleChain<'a>,
)
    ensures
        state.weak(weak.0, weak.1, weak.2).destructive(item, styles) == state.destructive(
            item,
            styles,
        ),
{
    lemma_weak_spares_ignorant(state, weak.0, weak.1, weak.2);
}

/// A weak item that comes right after a supportive item survives when the
/// next item that is not ignorant is supportive too: it is committed in its
/// place, between the two.
pub proof fn law_supportive_keeps_weak<'a, T: PartialOrd>(
    state: CollapseState<'a, T>,
    weak: (T, StyleChain<'a>, u8),
    item: T,
    styles: StyleChain<'a>,
)
    requires
        state.last is Supportive,
    ensures
        state.weak(weak.0, weak.1, weak.2).supportive(item, styles).committed == state.flushed(
            true,
        ).push((weak.0, weak.1)).push((item, styles)),
{
    let entry = Staged { item: weak.0, styles: weak.1, strength: Some(weak.2) };
    state.staged.lemma_filter_push(entry, survives(true));
}

/// Of two weak items of different strength that come after a supportive
/// item, the stronger one is staged and the other is gone, whichever came
/// first.
pub proof fn law_stronger_wins<'a, T: PartialOrd>(
    state: CollapseState<'a, T>,
    strong: (T, StyleChain<'a>, u8),
    feeble: (T, StyleChain<'a>, u8),
)
    requires
        state.last is Supportive,
        state.single_contender(),
        strong.2 < feeble.2,
    ensures
        state.weak(strong.0, strong.1, strong.2).weak(feeble.0, feeble.1, feeble.2) == state.stage(
            Staged { item: strong.0, styles: strong.1, strength: Some(strong.2) },
        ),
        state.weak(feeble.0, feeble.1, feeble.2).weak(strong.0, strong.1, strong.2) == state.stage(
            Staged { item: strong.0, styles: strong.1, strength: Some(strong.2) },
        ),
{
    let loser = Staged { item: feeble.0, styles: feeble.1, strength: Some(feeble.2) };
    let n = state.staged.len() as int;
    let second = state.stage(loser);
    assert forall|j: int| 0 <= j < n implies !yields_to(strong.0, strong.2)(
        #[trigger] second.staged[j],
    ) by {
        assert(second.staged[j] == state.staged[j]);
    }
    assert(is_first_yielding(second.staged, yields_to(strong.0, strong.2), n));
    let i = choose|i: int| is_first_yielding(second.staged, yields_to(strong.0, strong.2), i);
    assert(i == n) by {
        if i < n {
            assert(!yields_to(strong.0, strong.2)(second.staged[i]));
        }
    }
    assert(second.staged.remove(n) =~= state.staged);
}

/// Of two weak items of the same strength that come after a supportive
/// item, the second takes the place of the first if it is the larger one.
pub proof fn law_larger_wins_tie<'a, T: PartialOrd>(
    state: CollapseState<'a, T>,
    first: (T, StyleChain<'a>),
    second: (T, StyleChain<'a>),
    strength: u8,
)
    requires
        state.last is Supportive,
        state.single_contender(),
        is_larger(second.0, first.0),
    ensures
        state.weak(first.0, first.1, strength).weak(second.0, second.1, strength) == state.stage(
            Staged { item: second.0, styles: second.1, strength: Some(strength) },
        ),
{
    let held = Staged { item: first.0, styles: first.1, strength: Some(strength) };
    let n = state.staged.len() as int;
    let before = state.stage(held);
    assert forall|j: int| 0 <= j < n implies !yields_to(second.0, strength)(
        #[trigger] before.staged[j],
    ) by {
        assert(before.staged[j] == state.staged[j]);
    }
    assert(is_first_yielding(before.staged, yields_to(second.0, strength), n));
    assert(before.staged.remove(n) =~= state.staged);
}

/// A weak item of the same strength as the pending one is turned away
/// unless it is the larger of the two. It is gone for good: what comes
/// later contests the pending item, not the one that was turned away.
pub proof fn law_challenger_is_turned_away<'a, T: PartialOrd>(
    state: CollapseState<'a, T>,
    first: (T, StyleChain<'a>),
    second: (T, StyleChain<'a>),
    strength: u8,
)
    requires
        state.last is Supportive,
        state.single_contender(),
        !is_larger(second.0, first.0),
    ensures
        state.weak(first.0, first.1, strength).weak(second.0, second.1, strength) == state.weak(
            first.0,
            first.1,
            strength,
        ),
{
    let held = Staged { item: first.0, styles: first.1, strength: Some(strength) };
    let n = state.staged.len() as int;
    let before = state.stage(held);
    assert forall|i: int| !is_first_yielding(before.staged, yields_to(second.0, strength), i) by {
        if 0 <= i < n {
            assert(before.staged[i] == state.staged[i]);
        }
    }
}

/// A weak call leaves the committed items alone and neither adds nor takes
/// away an ignorant entry.
proof fn lemma_weak_spares_ignorant<'a, T: PartialOrd>(
    state: CollapseState<'a, T>,
    item: T,
    styles: StyleChain<'a>,
    strength: u8,
)
    ensures
        state.weak(item, styles, strength).committed == state.committed,
        state.weak(item, styles, strength).staged.filter(survives(false)) == state.staged.filter(
            survives(false),
        ),
{
    let after = state.weak(item, styles, strength);
    let entry = Staged { item, styles, strength: Some(strength) };
    if after.staged != state.staged {
        if after.staged == state.staged.push(entry) {
            state.staged.lemma_filter_push(entry, survives(false));
        } else {
            let yields = yields_to(item, strength);
            let i = choose|i: int| is_first_yielding(state.staged, yields, i);
            assert(after.staged == state.staged.remove(i).push(entry));
            lemma_filter_remove_rejected(state.staged, survives(false), i);
            state.staged.remove(i).lemma_filter_push(entry, survives(false));
        }
    }
}

/// Right after a destructive item, and at the start, a run of weak and
/// ignorant calls does the same as its ignorant calls alone.
proof fn lemma_weak_turned_away<'a, T: PartialOrd>(
    state: CollapseState<'a, T>,
    head: Seq<Call<'a, T>>,
)
    requires
        state.last is Destructive,
        all_tentative(head),
    ensures
        state.run(head) == state.run(head.filter(not_weak())),
        state.run(head).last is Destructive,
    decreases head.len(),
{
    if head.len() > 0 {
        let front = head.drop_last();
        assert(front.push(head.last()) =~= head);
        assert forall|i: int| 0 <= i < front.len() implies (#[trigger] front[i]).is_tentative() by {}
        lemma_weak_turned_away(state, front);
        front.lemma_filter_push(head.last(), not_weak());
        if !(head.last() is Weak) {
            lemma_run_push(state, front.filter(not_weak()), head.last());
        }
    }
}

/// The weak calls that come before the first supportive or destructive call
/// of a new builder do nothing: the run leaves the builder as the same run
/// without them would, and so finishes with the same sequence.
pub proof fn law_leading_weak_collapses<'a, T: PartialOrd>(
    head: Seq<Call<'a, T>>,
    rest: Seq<Call<'a, T>>,
)
    requires
        all_tentative(head),
    ensures
        CollapseState::fresh().run(head + rest) == CollapseState::fresh().run(
            head.filter(not_weak()) + rest,
        ),
        CollapseState::fresh().run(head + rest).finish() == CollapseState::fresh().run(
            head.filter(not_weak()) + rest,
        ).finish(),
{
    let fresh = CollapseState::<'a, T>::fresh();
    lemma_weak_turned_away(fresh, head);
    lemma_run_joined(fresh, head, rest);
    lemma_run_joined(fresh, head.filter(not_weak()), rest);
}

/// A run of weak and ignorant calls leaves the committed items alone, and
/// the ignorant entries that are staged after it are those that are staged
/// after its ignorant calls alone.
proof fn lemma_tentative_run<'a, T: PartialOrd>(
    state: CollapseState<'a, T>,
    tail: Seq<Call<'a, T>>,
)
    requires
        all_tentative(tail),
    ensures
        state.run(tail).committed == state.committed,
        state.run(tail.filter(not_weak())).committed == state.committed,
        state.run(tail).staged.filter(survives(false)) == state.run(
            tail.filter(not_weak()),
        ).staged.filter(survives(false)),
    decreases tail.len(),
{
    if tail.len() > 0 {
        let front = tail.drop_last();
        let call = tail.last();
        assert(front.push(call) =~= tail);
        assert(call.is_tentative());
        lemma_tentative_run(state, front);
        front.lemma_filter_push(call, not_weak());
        let full = state.run(front);
        let bare = state.run(front.filter(not_weak()));
        match call {
            Call::Weak { item, styles, strength } => {
                lemma_weak_spares_ignorant(full, item, styles, strength);
            },
            Call::Ignorant { item, styles } => {
                lemma_run_push(state, front.filter(not_weak()), call);
                let entry = Staged { item, styles, strength: None };
                full.staged.lemma_filter_push(entry, survives(false));
                bare.staged.lemma_filter_push(entry, survives(false));
            },
            _ => {},
        }
    }
}

/// The weak calls that come after the last supportive or destructive call
/// add nothing to the finished sequence: it is the one that the same run
/// without them finishes with.
pub proof fn law_trailing_weak_collapses<'a, T: PartialOrd>(
    state: CollapseState<'a, T>,
    calls: Seq<Call<'a, T>>,
    tail: Seq<Call<'a, T>>,
)
    requires
        all_tentative(tail),
    ensures
        state.run(calls + tail).finish() == state.run(calls + tail.filter(not_weak())).finish(),
{
    lemma_run_joined(state, calls, tail);
    lemma_run_joined(state, calls, tail.filter(not_weak()));
    lemma_tentative_run(state.run(calls), tail);
}

/// A flush commits staged entries in the order in which they were staged,
/// and only such.
proof fn lemma_flush_keeps_order<'a, T>(state: CollapseState<'a, T>, keep_weak: bool)
    ensures
        is_subsequence(state.flushed(keep_weak), state.held()),
{
    let kept = state.staged.filter(survives(keep_weak));
    lemma_subsequence_filter(state.staged, survives(keep_weak));
    lemma_subsequence_map(kept, state.staged, committed_form());
    lemma_subsequence_after(
        state.committed,
        kept.map_values(committed_form()),
        state.staged.map_values(committed_form()),
    );
}

/// After a call the builder holds, in their old order, items that it held
/// before, and at most the new item behind them.
proof fn lemma_step_keeps_order<'a, T: PartialOrd>(
    state: CollapseState<'a, T>,
    call: Call<'a, T>,
)
    ensures
        is_subsequence(state.step(call).held(), state.held().push(call.entry())),
{
    let after = state.step(call);
    let whole = state.held().push(call.entry());
    match call {
        Call::Weak { item, styles, strength } => {
            let entry = Staged { item, styles, strength: Some(strength) };
            if after == state {
                lemma_subsequence_of_itself(state.held());
                lemma_subsequence_push_whole(state.held(), state.held(), call.entry());
            } else if after.staged == state.staged.push(entry) {
                assert(after.held() =~= whole);
                lemma_subsequence_of_itself(whole);
            } else {
                let i = choose|i: int| is_first_yielding(state.staged, yields_to(item, strength), i);
                let spared = state.staged.remove(i);
                lemma_subsequence_remove(state.staged, i);
                lemma_subsequence_map(spared, state.staged, committed_form());
                lemma_subsequence_after(
                    state.committed,
                    spared.map_values(committed_form()),
                    state.staged.map_values(committed_form()),
                );
                let fewer = state.committed + spared.map_values(committed_form());
                lemma_subsequence_push_both(fewer, state.held(), call.entry());
                assert(after.held() =~= fewer.push(call.entry()));
            }
        },
        Call::Destructive { item, styles } => {
            lemma_flush_keeps_order(state, false);
            lemma_subsequence_push_both(state.flushed(false), state.held(), call.entry());
        },
        Call::Supportive { item, styles } => {
            lemma_flush_keeps_order(state, true);
            lemma_subsequence_push_both(state.flushed(true), state.held(), call.entry());
        },
        Call::Ignorant { item, styles } => {
            assert(after.held() =~= whole);
            lemma_subsequence_of_itself(whole);
        },
    }
}

/// After a run the builder holds, in their old order, items that it held
/// before, and behind them items of the run in call order.
proof fn lemma_run_keeps_order<'a, T: PartialOrd>(
    state: CollapseState<'a, T>,
    calls: Seq<Call<'a, T>>,
)
    ensures
        is_subsequence(state.run(calls).held(), state.held() + entries_of(calls)),
    decreases calls.len(),
{
    if calls.len() == 0 {
        lemma_subsequence_of_itself(state.held());
    } else {
        let front = calls.drop_last();
        let call = calls.last();
        let before = state.run(front);
        lemma_run_keeps_order(state, front);
        lemma_step_keeps_order(before, call);
        lemma_subsequence_push_both(
            before.held(),
            state.held() + entries_of(front),
            call.entry(),
        );
        assert((state.held() + entries_of(front)).push(call.entry()) =~= state.held() + entries_of(
            calls,
        ));
        lemma_subsequence_chain(
            state.run(calls).held(),
            before.held().push(call.entry()),
            state.held() + entries_of(calls),
        );
    }
}

/// Whatever the calls, the finished sequence comes from the submitted
/// items, taken in call order, by deletions alone. Nothing is reordered, and
/// nothing is there that was not submitted.
pub proof fn law_order_preserved<'a, T: PartialOrd>(calls: Seq<Call<'a, T>>)
    ensures
        is_subsequence(CollapseState::fresh().run(calls).finish(), entries_of(calls)),
{
    let fresh = CollapseState::<'a, T>::fresh();
    let end = fresh.run(calls);
    lemma_run_keeps_order(fresh, calls);
    lemma_flush_keeps_order(end, false);
    lemma_subsequence_chain(end.finish(), end.held(), entries_of(calls));
}

/// Whatever the calls, at most one staged entry is weak at any time, and
/// one is staged exactly when the last item that was not ignorant was weak.
pub proof fn law_single_contender<'a, T: PartialOrd>(calls: Seq<Call<'a, T>>)
    ensures
        CollapseState::fresh().run(calls).single_contender(),
        CollapseState::fresh().run(calls).last is Weak <==> !all_ignorant(
            CollapseState::fresh().run(calls).staged,
        ),
    decreases calls.len(),
{
    if calls.len() > 0 {
        let before = CollapseState::<'a, T>::fresh().run(calls.drop_last());
        law_single_contender(calls.drop_last());
        let after = before.step(calls.last());
        match calls.last() {
            Call::Weak { item, styles, strength } => {
                let entry = Staged { item, styles, strength: Some(strength) };
                if after != before {
                    assert(after.staged.last() == entry);
                }
            },
            Call::Ignorant { item, styles } => {
                if before.last is Weak {
                    let i = choose|i: int|
                        0 <= i < before.staged.len() && before.staged[i].strength is Some;
                    assert(after.staged[i] == before.staged[i]);
                }
            },
            _ => {},
        }
    }
}

/// If no entry yields, none of those that a filter keeps does.
proof fn lemma_none_yielding_after_filter<'a, T>(
    staged: Seq<Staged<'a, T>>,
    keep: spec_fn(Staged<'a, T>) -> bool,
    yields: spec_fn(Staged<'a, T>) -> bool,
)
    requires
        forall|j: int| 0 <= j < staged.len() ==> !yields(#[trigger] staged[j]),
    ensures
        forall|k: int|
            0 <= k < staged.filter(keep).len() ==> !yields(#[trigger] staged.filter(keep)[k]),
{
    let kept = staged.filter(keep);
    assert forall|k: int| 0 <= k < kept.len() implies !yields(#[trigger] kept[k]) by {
        staged.lemma_filter_contains_rev(keep, kept[k]);
    }
}

/// The first entry that yields is still the first one that does among the
/// entries that a filter keeps, provided the filter keeps all that yield.
/// Removing it before filtering is removing it afterwards. Returns its
/// place among the entries kept.
proof fn lemma_first_yielding_after_filter<'a, T>(
    staged: Seq<Staged<'a, T>>,
    keep: spec_fn(Staged<'a, T>) -> bool,
    yields: spec_fn(Staged<'a, T>) -> bool,
    i: int,
) -> (k: int)
    requires
        is_first_yielding(staged, yields, i),
        forall|entry: Staged<'a, T>| #[trigger] yields(entry) ==> keep(entry),
    ensures
        is_first_yielding(staged.filter(keep), yields, k),
        staged.remove(i).filter(keep) == staged.filter(keep).remove(k),
    decreases staged.len(),
{
    let front = staged.drop_last();
    let x = staged.last();
    assert(front.push(x) =~= staged);
    front.lemma_filter_push(x, keep);
    if i < front.len() {
        let k = lemma_first_yielding_after_filter(front, keep, yields, i);
        assert(front.remove(i).push(x) =~= staged.remove(i));
        front.remove(i).lemma_filter_push(x, keep);
        k
    } else {
        lemma_none_yielding_after_filter(front, keep, yields);
        front.filter(keep).len() as int
    }
}

/// A contest looks at the weak entries only: two states with the same last
/// class and the same weak entries come out of it with the same last class
/// and the same weak entries, whatever ignorant entries either holds.
proof fn lemma_contest_among_weak<'a, T>(
    full: CollapseState<'a, T>,
    bare: CollapseState<'a, T>,
    entry: Staged<'a, T>,
    yields: spec_fn(Staged<'a, T>) -> bool,
)
    requires
        full.last == bare.last,
        full.pending() == bare.pending(),
        entry.strength is Some,
        forall|held: Staged<'a, T>| #[trigger] yields(held) ==> held.strength is Some,
    ensures
        full.contest(entry, yields).last == bare.contest(entry, yields).last,
        full.contest(entry, yields).pending() == bare.contest(entry, yields).pending(),
{
    if full.last is Supportive {
        full.staged.lemma_filter_push(entry, weak_only());
        bare.staged.lemma_filter_push(entry, weak_only());
    } else if full.last is Weak {
        if exists|i: int| is_first_yielding(full.staged, yields, i) {
            let i = choose|i: int| is_first_yielding(full.staged, yields, i);
            let k = lemma_first_yielding_after_filter(full.staged, weak_only(), yields, i);
            if exists|j: int| is_first_yielding(bare.staged, yields, j) {
                let j = choose|j: int| is_first_yielding(bare.staged, yields, j);
                let m = lemma_first_yielding_after_filter(bare.staged, weak_only(), yields, j);
                full.staged.remove(i).lemma_filter_push(entry, weak_only());
                bare.staged.remove(j).lemma_filter_push(entry, weak_only());
            } else {
                assert forall|j: int| 0 <= j < bare.staged.len() implies !yields(
                    #[trigger] bare.staged[j],
                ) by {
                    if yields(bare.staged[j]) {
                        lemma_some_first_yielding(bare.staged, yields, j);
                    }
                }
                lemma_none_yielding_after_filter(bare.staged, weak_only(), yields);
            }
        } else {
            if exists|j: int| is_first_yielding(bare.staged, yields, j) {
                let j = choose|j: int| is_first_yielding(bare.staged, yields, j);
                let m = lemma_first_yielding_after_filter(bare.staged, weak_only(), yields, j);
                assert forall|i: int| 0 <= i < full.staged.len() implies !yields(
                    #[trigger] full.staged[i],
                ) by {
                    if yields(full.staged[i]) {
                        lemma_some_first_yielding(full.staged, yields, i);
                    }
                }
                lemma_none_yielding_after_filter(full.staged, weak_only(), yields);
            }
        }
    }
}

/// Where some entry yields, there is a first one that does.
proof fn lemma_some_first_yielding<'a, T>(
    staged: Seq<Staged<'a, T>>,
    yields: spec_fn(Staged<'a, T>) -> bool,
    i: int,
)
    requires
        0 <= i < staged.len(),
        yields(staged[i]),
    ensures
        exists|j: int| is_first_yielding(staged, yields, j),
    decreases i,
{
    if exists|j: int| 0 <= j < i && yields(staged[j]) {
        let j = choose|j: int| 0 <= j < i && yields(staged[j]);
        lemma_some_first_yielding(staged, yields, j);
    } else {
        assert(is_first_yielding(staged, yields, i));
    }
}

/// Whether `bare` is `full` without the ignorant items: both have the same
/// last class and the same weak entries staged, `bare` has no others, and
/// what `full` has committed is what `bare` has committed with the ignorant
/// items `settled` shuffled into it. The ignorant items that `full` has
/// seen, `seen`, are those and the ones that it has staged.
spec fn is_shadow<'a, T>(
    full: CollapseState<'a, T>,
    bare: CollapseState<'a, T>,
    settled: Seq<(T, StyleChain<'a>)>,
    seen: Seq<(T, StyleChain<'a>)>,
) -> bool {
    &&& full.last == bare.last
    &&& full.pending() == bare.staged
    &&& forall|i: int| 0 <= i < bare.staged.len() ==> (#[trigger] bare.staged[i]).strength is Some
    &&& is_merge(full.committed, bare.committed, settled)
    &&& settled + full.staged.filter(survives(false)).map_values(committed_form()) == seen
}

/// An ignorant call on the full state alone keeps the shadow.
proof fn lemma_shadow_ignorant<'a, T>(
    full: CollapseState<'a, T>,
    bare: CollapseState<'a, T>,
    settled: Seq<(T, StyleChain<'a>)>,
    seen: Seq<(T, StyleChain<'a>)>,
    item: T,
    styles: StyleChain<'a>,
)
    requires
        is_shadow(full, bare, settled, seen),
    ensures
        is_shadow(full.ignorant(item, styles), bare, settled, seen.push((item, styles))),
{
    let entry = Staged { item, styles, strength: None };
    let spared = full.staged.filter(survives(false));
    full.staged.lemma_filter_push(entry, weak_only());
    full.staged.lemma_filter_push(entry, survives(false));
    assert(spared.push(entry).map_values(committed_form()) =~= spared.map_values(
        committed_form(),
    ).push((item, styles)));
}

/// A weak call on both states keeps the shadow.
proof fn lemma_shadow_weak<'a, T: PartialOrd>(
    full: CollapseState<'a, T>,
    bare: CollapseState<'a, T>,
    settled: Seq<(T, StyleChain<'a>)>,
    seen: Seq<(T, StyleChain<'a>)>,
    item: T,
    styles: StyleChain<'a>,
    strength: u8,
)
    requires
        is_shadow(full, bare, settled, seen),
    ensures
        is_shadow(
            full.weak(item, styles, strength),
            bare.weak(item, styles, strength),
            settled,
            seen,
        ),
{
    let entry = Staged { item, styles, strength: Some(strength) };
    let after = bare.weak(item, styles, strength);
    lemma_filter_keeps_all(bare.staged, weak_only());
    lemma_contest_among_weak(full, bare, entry, yields_to(item, strength));
    lemma_weak_spares_ignorant(full, item, styles, strength);
    lemma_filter_keeps_all(after.staged, weak_only());
}

/// A destructive call on both states keeps the shadow, and settles the
/// ignorant items that were staged.
proof fn lemma_shadow_destructive<'a, T>(
    full: CollapseState<'a, T>,
    bare: CollapseState<'a, T>,
    settled: Seq<(T, StyleChain<'a>)>,
    seen: Seq<(T, StyleChain<'a>)>,
    item: T,
    styles: StyleChain<'a>,
)
    requires
        is_shadow(full, bare, settled, seen),
    ensures
        is_shadow(full.destructive(item, styles), bare.destructive(item, styles), seen, seen),
{
    let spared = full.staged.filter(survives(false)).map_values(committed_form());
    lemma_filter_empty(weak_only::<T>());
    lemma_filter_keeps_none(bare.staged, survives(false));
    lemma_merge_of_one(spared);
    lemma_merge_joined(full.committed, bare.committed, settled, spared, Seq::empty(), spared);
    lemma_merge_push_left(full.flushed(false), bare.flushed(false), seen, (item, styles));
}

/// A supportive call on both states keeps the shadow, and settles the
/// ignorant items that were staged.
proof fn lemma_shadow_supportive<'a, T>(
    full: CollapseState<'a, T>,
    bare: CollapseState<'a, T>,
    settled: Seq<(T, StyleChain<'a>)>,
    seen: Seq<(T, StyleChain<'a>)>,
    item: T,
    styles: StyleChain<'a>,
)
    requires
        is_shadow(full, bare, settled, seen),
    ensures
        is_shadow(full.supportive(item, styles), bare.supportive(item, styles), seen, seen),
{
    let spared = full.staged.filter(survives(false)).map_values(committed_form());
    lemma_filter_empty(weak_only::<T>());
    lemma_filter_keeps_all(full.staged, survives(true));
    lemma_filter_keeps_all(bare.staged, survives(true));
    lemma_merge_of_filters(full.staged, weak_only(), survives(false));
    lemma_merge_map(
        full.staged,
        full.staged.filter(weak_only()),
        full.staged.filter(survives(false)),
        committed_form(),
    );
    lemma_merge_joined(
        full.committed,
        bare.committed,
        settled,
        full.staged.map_values(committed_form()),
        bare.staged.map_values(committed_form()),
        spared,
    );
    lemma_merge_push_left(full.flushed(true), bare.flushed(true), seen, (item, styles));
}

/// After any run the builder without the ignorant calls is the shadow of
/// the builder with them. Returns the ignorant items that have been
/// committed.
proof fn lemma_run_with_ignorant<'a, T: PartialOrd>(calls: Seq<Call<'a, T>>) -> (settled: Seq<
    (T, StyleChain<'a>),
>)
    ensures
        is_shadow(
            CollapseState::fresh().run(calls),
            CollapseState::fresh().run(calls.filter(not_ignorant())),
            settled,
            entries_of(calls.filter(only_ignorant())),
        ),
    decreases calls.len(),
{
    let fresh = CollapseState::<'a, T>::fresh();
    if calls.len() == 0 {
        let settled = Seq::<(T, StyleChain<'a>)>::empty();
        lemma_filter_empty(weak_only::<T>());
        assert(settled + fresh.staged.filter(survives(false)).map_values(committed_form())
            =~= entries_of(calls.filter(only_ignorant())));
        settled
    } else {
        let front = calls.drop_last();
        let call = calls.last();
        assert(front.push(call) =~= calls);
        let before = lemma_run_with_ignorant(front);
        let full = fresh.run(front);
        let bare = fresh.run(front.filter(not_ignorant()));
        let seen = entries_of(front.filter(only_ignorant()));
        front.lemma_filter_push(call, not_ignorant());
        front.lemma_filter_push(call, only_ignorant());
        if call is Ignorant {
            assert(entries_of(front.filter(only_ignorant()).push(call)) =~= seen.push(call.entry()));
        } else {
            lemma_run_push(fresh, front.filter(not_ignorant()), call);
        }
        match call {
            Call::Ignorant { item, styles } => {
                lemma_shadow_ignorant(full, bare, before, seen, item, styles);
                before
            },
            Call::Weak { item, styles, strength } => {
                lemma_shadow_weak(full, bare, before, seen, item, styles, strength);
                before
            },
            Call::Destructive { item, styles } => {
                lemma_shadow_destructive(full, bare, before, seen, item, styles);
                seen
            },
            Call::Supportive { item, styles } => {
                lemma_shadow_supportive(full, bare, before, seen, item, styles);
                seen
            },
        }
    }
}

/// Ignorant items are kept and stand in nobody's way. Whatever the calls,
/// the finished sequence is the finished sequence of the same run without
/// its ignorant calls, with the ignorant items shuffled into it: every
/// ignorant item is kept, in call order, and which other items are kept
/// does not depend on the ignorant ones. Nor does the contest that the next
/// weak item meets.
pub proof fn law_ignorant_is_transparent<'a, T: PartialOrd>(calls: Seq<Call<'a, T>>)
    ensures
        is_merge(
            CollapseState::fresh().run(calls).finish(),
            CollapseState::fresh().run(calls.filter(not_ignorant())).finish(),
            entries_of(calls.filter(only_ignorant())),
        ),
        is_subsequence(
            entries_of(calls.filter(only_ignorant())),
            CollapseState::fresh().run(calls).finish(),
        ),
        CollapseState::fresh().run(calls).last == CollapseState::fresh().run(
            calls.filter(not_ignorant()),
        ).last,
        CollapseState::fresh().run(calls).pending() == CollapseState::fresh().run(
            calls.filter(not_ignorant()),
        ).pending(),
{
    let settled = lemma_run_with_ignorant(calls);
    let full = CollapseState::<'a, T>::fresh().run(calls);
    let bare = CollapseState::<'a, T>::fresh().run(calls.filter(not_ignorant()));
    let spared = full.staged.filter(survives(false)).map_values(committed_form());
    lemma_filter_keeps_all(bare.staged, weak_only());
    lemma_filter_keeps_none(bare.staged, survives(false));
    lemma_merge_of_one(spared);
    lemma_merge_joined(full.committed, bare.committed, settled, spared, Seq::empty(), spared);
    lemma_merge_holds_parts(
        full.finish(),
        bare.finish(),
        entries_of(calls.filter(only_ignorant())),
    );
}

} // verus!
