//! The collapsing builder.
use crate::state::{
    all_ignorant, at_most_one_weak, committed_form, is_first_yielding, survives, yields_if,
    yields_to, CollapseState, Last, Staged,
};
use crate::style::{common_prefix, StyleChain};
use crate::style_vec::{chains_of, referents, StyleVec, StyleVecBuilder};
use vstd::prelude::*;
use vstd::std_specs::cmp::PartialOrdSpec;

verus! {

/// Whether `found` is the outcome of looking through `staged` for the first
/// entry that `yields`.
spec fn is_scan_outcome<'a, T>(
    staged: Seq<Staged<'a, T>>,
    yields: spec_fn(Staged<'a, T>) -> bool,
    found: Option<usize>,
) -> bool {
    match found {
        Some(i) => is_first_yielding(staged, yields, i as int),
        None => forall|j: int| 0 <= j < staged.len() ==> !yields(#[trigger] staged[j]),
    }
}

/// Looks through `staged` for the first entry that gives way to a new weak
/// `item` of the given strength. The items are compared only where the
/// strengths tie.
fn first_yielding<'a, T: PartialOrd>(staged: &Vec<Staged<'a, T>>, item: &T, strength: u8) -> (found:
    Option<usize>)
    requires
        at_most_one_weak(staged@),
    ensures
        T::obeys_partial_cmp_spec() ==> is_scan_outcome(
            staged@,
            yields_to(*item, strength),
            found,
        ),
        is_scan_outcome(staged@, yields_if(strength, true), found) || is_scan_outcome(
            staged@,
            yields_if(strength, false),
            found,
        ),
{
    let ghost mut larger = false;
    let mut i: usize = 0;
    while i < staged.len()
        invariant
            i <= staged@.len(),
            at_most_one_weak(staged@),
            forall|j: int| 0 <= j < i ==> !yields_if(strength, larger)(#[trigger] staged@[j]),
            T::obeys_partial_cmp_spec() ==> forall|j: int|
                0 <= j < i ==> !yields_to(*item, strength)(#[trigger] staged@[j]),
        decreases staged@.len() - i,
    {
        let entry = &staged[i];
        match entry.strength {
            Some(held) => {
                if strength < held {
                    return Some(i);
                }
                if strength == held {
                    let above = *item > entry.item;
                    proof {
                        larger = above;
                    }
                    if above {
                        return Some(i);
                    }
                }
            },
            None => {},
        }
        i += 1;
    }
    None
}

/// A wrapper around a [`StyleVecBuilder`] that collapses items: weak items
/// survive only between supportive ones, and of several weak items in one
/// gap only the strongest does.
pub struct CollapsingBuilder<'a, T> {
    /// The sequence builder that takes the items whose fate is settled.
    builder: StyleVecBuilder<'a, T>,
    /// Weak and ignorant items that cannot be committed yet.
    staged: Vec<Staged<'a, T>>,
    /// The class of the most recent item that was not ignorant.
    last: Last,
}

impl<'a, T> View for CollapsingBuilder<'a, T> {
    type V = CollapseState<'a, T>;

    closed spec fn view(&self) -> CollapseState<'a, T> {
        CollapseState { committed: self.builder@, staged: self.staged@, last: self.last }
    }
}

impl<'a, T> CollapsingBuilder<'a, T> {
    #[verifier::type_invariant]
    spec fn well_formed(self) -> bool {
        self@.single_contender()
    }

    /// Creates a builder that holds nothing.
    pub fn new() -> (fresh: Self)
        ensures
            fresh@ == CollapseState::<'a, T>::fresh(),
            fresh@.single_contender(),
    {
        CollapsingBuilder { builder: StyleVecBuilder::new(), staged: Vec::new(), last: Last::Destructive }
    }

    /// Whether the builder holds nothing, committed or staged.
    pub fn is_empty(&self) -> (empty: bool)
        ensures
            empty == self@.is_empty(),
    {
        self.builder.is_empty() && self.staged.len() == 0
    }

    /// Forces nearby weak items to collapse.
    pub fn destructive(&mut self, item: T, styles: StyleChain<'a>)
        ensures
            final(self)@ == old(self)@.destructive(item, styles),
            final(self)@.single_contender(),
    {
        self.flush(false);
        self.commit(item, styles);
        self.last = Last::Destructive;
        proof {
            use_type_invariant(&*self);
        }
    }

    /// Allows nearby weak items to exist.
    pub fn supportive(&mut self, item: T, styles: StyleChain<'a>)
        ensures
            final(self)@ == old(self)@.supportive(item, styles),
            final(self)@.single_contender(),
    {
        self.flush(true);
        self.commit(item, styles);
        self.last = Last::Supportive;
        proof {
            use_type_invariant(&*self);
        }
    }

    /// Has no influence on other items.
    pub fn ignorant(&mut self, item: T, styles: StyleChain<'a>)
        ensures
            final(self)@ == old(self)@.ignorant(item, styles),
            final(self)@.single_contender(),
    {
        self.stage(Staged { item, styles, strength: None });
        proof {
            use_type_invariant(&*self);
        }
    }

    /// Can only exist when there is at least one supportive item to its left
    /// and to its right, with no destructive items in between. There may be
    /// ignorant items in between in both directions.
    ///
    /// Of the weak items in one gap only one survives: the strongest, which
    /// is the one with the smallest `strength`. When tied, an item that
    /// compares larger takes the place of the one that is staged.
    ///
    /// Where the ordering of `T` is one that proofs can speak of, it fixes
    /// the outcome. For any other `T` the outcome is the one for one of the
    /// two answers that a comparison can give.
    pub fn weak(&mut self, item: T, styles: StyleChain<'a>, strength: u8) where T: PartialOrd
        ensures
            T::obeys_partial_cmp_spec() ==> final(self)@ == old(self)@.weak(item, styles, strength),
            final(self)@ == old(self)@.weak_if(item, styles, strength, true) || final(self)@ == old(
                self,
            )@.weak_if(item, styles, strength, false),
            final(self)@.single_contender(),
    {
        proof {
            use_type_invariant(&*self);
        }
        match self.last {
            Last::Destructive => {
                return ;
            },
            Last::Supportive => {},
            Last::Weak => {
                match first_yielding(&self.staged, &item, strength) {
                    Some(i) => {
                        self.unstage(i);
                    },
                    None => {
                        return ;
                    },
                }
            },
        }
        self.last = Last::Weak;
        self.stage(Staged { item, styles, strength: Some(strength) });
        proof {
            use_type_invariant(&*self);
        }
    }

    /// Holds back an entry. A weak one may only come when no other is staged.
    fn stage(&mut self, entry: Staged<'a, T>)
        requires
            entry.strength is Some ==> old(self)@.last is Weak && all_ignorant(old(self)@.staged),
        ensures
            final(self)@ == (CollapseState {
                staged: old(self)@.staged.push(entry),
                ..old(self)@
            }),
    {
        proof {
            use_type_invariant(&*self);
        }
        let mut staged = self.take_staged();
        staged.push(entry);
        self.staged = staged;
    }

    /// Drops the staged entry at place `i`, which must be a weak one.
    fn unstage(&mut self, i: usize)
        requires
            i < old(self)@.staged.len(),
            old(self)@.staged[i as int].strength is Some,
        ensures
            final(self)@ == (CollapseState {
                staged: old(self)@.staged.remove(i as int),
                ..old(self)@
            }),
            all_ignorant(final(self)@.staged),
    {
        proof {
            use_type_invariant(&*self);
        }
        let mut staged = self.take_staged();
        staged.remove(i);
        self.staged = staged;
    }

    /// The items that the builder holds: the committed ones, then the staged
    /// ones. The builder is left as it is.
    pub fn items(&self) -> (items: Vec<&T>)
        ensures
            referents(items@) == self@.items(),
    {
        let mut items = self.builder.items();
        let ghost committed = items@;
        let mut i: usize = 0;
        while i < self.staged.len()
            invariant
                i <= self.staged@.len(),
                items@.len() == committed.len() + i,
                forall|j: int| 0 <= j < committed.len() ==> items@[j] == committed[j],
                forall|j: int| 0 <= j < i ==> *items@[committed.len() + j] == self.staged@[j].item,
            decreases self.staged@.len() - i,
        {
            items.push(&self.staged[i].item);
            i += 1;
        }
        items
    }

    /// Returns the finished sequence and the outer style layers that all of
    /// its items have in common. The end acts as a destructive item: a weak
    /// item that is still pending is dropped.
    pub fn finish(self) -> (done: (StyleVec<'a, T>, StyleChain<'a>))
        ensures
            done.0@ == self@.finish(),
            done.1@ == common_prefix(chains_of(self@.finish())),
    {
        let mut closing = self;
        closing.flush(false);
        closing.builder.finish()
    }

    /// Moves the staged entries out of the builder, which is left with none.
    /// An entry list is only ever changed outside of the builder, so that the
    /// builder is sound at every point where a call could unwind.
    fn take_staged(&mut self) -> (staged: Vec<Staged<'a, T>>)
        ensures
            staged@ == old(self)@.staged,
            final(self)@ == (CollapseState { staged: Seq::empty(), ..old(self)@ }),
    {
        let mut staged: Vec<Staged<'a, T>> = Vec::new();
        core::mem::swap(&mut staged, &mut self.staged);
        staged
    }

    /// Hands an item to the sequence builder.
    fn commit(&mut self, item: T, styles: StyleChain<'a>)
        ensures
            final(self)@ == (CollapseState {
                committed: old(self)@.committed.push((item, styles)),
                ..old(self)@
            }),
    {
        proof {
            use_type_invariant(&*self);
        }
        let mut builder = StyleVecBuilder::new();
        core::mem::swap(&mut builder, &mut self.builder);
        builder.push(item, styles);
        self.builder = builder;
    }

    /// Commits the staged entries, leaving out the weak ones unless
    /// `supportive` is set.
    fn flush(&mut self, supportive: bool)
        ensures
            final(self)@.committed == old(self)@.flushed(supportive),
            final(self)@.staged == Seq::<Staged<'a, T>>::empty(),
            final(self)@.last == old(self)@.last,
    {
        let staged = self.take_staged();
        let mut builder = StyleVecBuilder::new();
        core::mem::swap(&mut builder, &mut self.builder);
        for entry in it: staged
            invariant
                it.seq() == old(self)@.staged,
                builder@ == old(self)@.committed + it.seq().take(it.index() as int).filter(
                    survives(supportive),
                ).map_values(committed_form()),
        {
            proof {
                let done = it.seq().take(it.index() as int);
                assert(done.push(entry) =~= it.seq().take(it.index() + 1));
                done.lemma_filter_push(entry, survives(supportive));
            }
            if supportive || entry.strength.is_none() {
                builder.push(entry.item, entry.styles);
            }
        }
        assert(old(self)@.staged.take(old(self)@.staged.len() as int) =~= old(self)@.staged);
        self.builder = builder;
    }
}

impl<'a, T> Default for CollapsingBuilder<'a, T> {
    /// Creates a builder that holds nothing.
    fn default() -> (fresh: Self)
        ensures
            fresh@ == CollapseState::<'a, T>::fresh(),
            fresh@.single_contender(),
    {
        Self::new()
    }
}

} // verus!
