//! The state of a collapsing builder as a mathematical value, and what each
//! operation does to it.
use crate::style::StyleChain;
use crate::style_vec::items_of;
use core::cmp::Ordering;
use vstd::prelude::*;
use vstd::std_specs::cmp::PartialOrdSpec;

verus! {

/// The class of the most recent item that was not ignorant.
#[derive(Clone, Copy, Debug, PartialEq, Eq, Structural)]
pub enum Last {
    Weak,
    Destructive,
    Supportive,
}

/// An item that is held back until its fate is known.
pub struct Staged<'a, T> {
    pub item: T,
    pub styles: StyleChain<'a>,
    /// The strength of a weak item, where a smaller number is stronger;
    /// `None` for an ignorant item.
    pub strength: Option<u8>,
}

/// What a collapsing builder holds at one moment.
pub struct CollapseState<'a, T> {
    /// The items that have been handed to the sequence builder, in order.
    pub committed: Seq<(T, StyleChain<'a>)>,
    /// The weak and ignorant items that are held back, in order of arrival.
    pub staged: Seq<Staged<'a, T>>,
    /// The class of the most recent item that was not ignorant.
    pub last: Last,
}

/// Whether a new weak item of the given strength takes the place of a staged
/// entry held with strength `held`, where `larger` tells whether the new item
/// is strictly greater than the staged one. A smaller number is stronger; the
/// item ordering only breaks ties. Ignorant entries never yield.
pub open spec fn outranks_if(strength: u8, held: Option<u8>, larger: bool) -> bool {
    match held {
        Some(h) => strength < h || (strength == h && larger),
        None => false,
    }
}

/// Whether `item` is strictly greater than `other` by the ordering of `T`.
pub open spec fn is_larger<T: PartialOrd>(item: T, other: T) -> bool {
    item.partial_cmp_spec(&other) == Some(Ordering::Greater)
}

/// Tells which staged entries give way to a new weak `item` of the given
/// strength, going by the ordering of `T`.
pub open spec fn yields_to<'a, T: PartialOrd>(item: T, strength: u8) -> spec_fn(
    Staged<'a, T>,
) -> bool {
    |entry: Staged<'a, T>| outranks_if(strength, entry.strength, is_larger(item, entry.item))
}

/// Tells which staged entries give way to a new weak item of the given
/// strength if every comparison of items answers `larger`.
pub open spec fn yields_if<'a, T>(strength: u8, larger: bool) -> spec_fn(Staged<'a, T>) -> bool {
    |entry: Staged<'a, T>| outranks_if(strength, entry.strength, larger)
}

/// No two entries of `staged` are weak.
pub open spec fn at_most_one_weak<'a, T>(staged: Seq<Staged<'a, T>>) -> bool {
    forall|i: int, j: int|
        0 <= i < staged.len() && 0 <= j < staged.len() && (#[trigger] staged[i]).strength is Some
            && (#[trigger] staged[j]).strength is Some ==> i == j
}

/// No entry of `staged` is weak.
pub open spec fn all_ignorant<'a, T>(staged: Seq<Staged<'a, T>>) -> bool {
    forall|i: int| 0 <= i < staged.len() ==> (#[trigger] staged[i]).strength is None
}

/// The entries that survive a flush: all of them if weak items are kept,
/// else the ignorant ones.
pub open spec fn survives<'a, T>(keep_weak: bool) -> spec_fn(Staged<'a, T>) -> bool {
    |entry: Staged<'a, T>| keep_weak || entry.strength is None
}

/// Tells the weak entries.
pub open spec fn weak_only<'a, T>() -> spec_fn(Staged<'a, T>) -> bool {
    |entry: Staged<'a, T>| entry.strength is Some
}

/// The item of a staged entry with its style chain.
pub open spec fn committed_form<'a, T>() -> spec_fn(Staged<'a, T>) -> (T, StyleChain<'a>) {
    |entry: Staged<'a, T>| (entry.item, entry.styles)
}

/// Whether `i` is the place of the first entry of `staged` that `yields`.
pub open spec fn is_first_yielding<'a, T>(
    staged: Seq<Staged<'a, T>>,
    yields: spec_fn(Staged<'a, T>) -> bool,
    i: int,
) -> bool {
    &&& 0 <= i < staged.len()
    &&& yields(staged[i])
    &&& forall|j: int| 0 <= j < i ==> !yields(#[trigger] staged[j])
}

impl<'a, T> CollapseState<'a, T> {
    /// The state of a new builder. It starts out as if a destructive item had
    /// just been seen, so that leading weak items are turned away.
    pub open spec fn fresh() -> Self {
        CollapseState { committed: Seq::empty(), staged: Seq::empty(), last: Last::Destructive }
    }

    /// At most one staged entry is weak, and none is unless the last item
    /// that was not ignorant was weak.
    pub open spec fn single_contender(self) -> bool {
        &&& at_most_one_weak(self.staged)
        &&& !(self.last is Weak) ==> all_ignorant(self.staged)
    }

    /// Whether nothing is held at all.
    pub open spec fn is_empty(self) -> bool {
        self.committed.len() == 0 && self.staged.len() == 0
    }

    /// All items that are held: the committed ones, then the staged ones.
    pub open spec fn items(self) -> Seq<T> {
        items_of(self.committed) + self.staged.map_values(|entry: Staged<'a, T>| entry.item)
    }

    /// The weak entries that are staged: the ones that a new weak item has
    /// to contest.
    pub open spec fn pending(self) -> Seq<Staged<'a, T>> {
        self.staged.filter(weak_only())
    }

    /// Everything that is held, committed or staged, each item with its style
    /// chain.
    pub open spec fn held(self) -> Seq<(T, StyleChain<'a>)> {
        self.committed + self.staged.map_values(committed_form())
    }

    /// The committed sequence after the staged entries have been flushed into
    /// it: the surviving entries follow what was committed before, in order.
    pub open spec fn flushed(self, keep_weak: bool) -> Seq<(T, StyleChain<'a>)> {
        self.committed + self.staged.filter(survives(keep_weak)).map_values(committed_form())
    }

    /// The state after a destructive item: the pending weak item is gone, the
    /// ignorant ones are committed, and the new item follows them.
    pub open spec fn destructive(self, item: T, styles: StyleChain<'a>) -> Self {
        CollapseState {
            committed: self.flushed(false).push((item, styles)),
            staged: Seq::empty(),
            last: Last::Destructive,
        }
    }

    /// The state after a supportive item: everything staged is committed, and
    /// the new item follows.
    pub open spec fn supportive(self, item: T, styles: StyleChain<'a>) -> Self {
        CollapseState {
            committed: self.flushed(true).push((item, styles)),
            staged: Seq::empty(),
            last: Last::Supportive,
        }
    }

    /// The state after an ignorant item: it is staged, and nothing else
    /// changes.
    pub open spec fn ignorant(self, item: T, styles: StyleChain<'a>) -> Self {
        CollapseState {
            staged: self.staged.push(Staged { item, styles, strength: None }),
            ..self
        }
    }

    /// The state with `entry` staged as the pending weak item.
    pub open spec fn stage(self, entry: Staged<'a, T>) -> Self {
        CollapseState { staged: self.staged.push(entry), last: Last::Weak, ..self }
    }

    /// The state after a weak `entry` has met the staged entries, where
    /// `yields` tells which of them give way to it. Right after a destructive
    /// item the entry is turned away. Right after a supportive one it is
    /// staged. After another weak item it takes the place of the first staged
    /// entry that yields, and is turned away if none does.
    pub open spec fn contest(self, entry: Staged<'a, T>, yields: spec_fn(Staged<'a, T>) -> bool) -> Self {
        match self.last {
            Last::Destructive => self,
            Last::Supportive => self.stage(entry),
            Last::Weak => {
                if exists|i: int| is_first_yielding(self.staged, yields, i) {
                    let i = choose|i: int| is_first_yielding(self.staged, yields, i);
                    CollapseState { staged: self.staged.remove(i), ..self }.stage(entry)
                } else {
                    self
                }
            },
        }
    }

    /// The state after a weak item, going by the ordering of `T`.
    pub open spec fn weak(self, item: T, styles: StyleChain<'a>, strength: u8) -> Self where
        T: PartialOrd,
     {
        self.contest(Staged { item, styles, strength: Some(strength) }, yields_to(item, strength))
    }

    /// The state after a weak item for which the comparison with the pending
    /// weak item, if it came to one, answered `larger`.
    pub open spec fn weak_if(self, item: T, styles: StyleChain<'a>, strength: u8, larger: bool) -> Self {
        self.contest(Staged { item, styles, strength: Some(strength) }, yields_if(strength, larger))
    }

    /// The finished sequence: the end of the document acts as a destructive
    /// item that commits nothing of its own.
    pub open spec fn finish(self) -> Seq<(T, StyleChain<'a>)> {
        self.flushed(false)
    }
}

} // verus!
