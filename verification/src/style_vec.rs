//! Sequences of items in which each item carries the style chain that was
//! active where it stood.
use crate::style::{common_prefix, StyleChain};
use vstd::prelude::*;

verus! {

/// The items of a sequence of styled items.
pub open spec fn items_of<'a, T>(entries: Seq<(T, StyleChain<'a>)>) -> Seq<T> {
    entries.map_values(|entry: (T, StyleChain<'a>)| entry.0)
}

/// The style chains of a sequence of styled items, each as its layers.
pub open spec fn chains_of<'a, T>(entries: Seq<(T, StyleChain<'a>)>) -> Seq<Seq<u64>> {
    entries.map_values(|entry: (T, StyleChain<'a>)| entry.1@)
}

/// The values behind a sequence of references.
pub open spec fn referents<T>(refs: Seq<&T>) -> Seq<T> {
    refs.map_values(|r: &T| *r)
}

/// A finished sequence of styled items. It can be read, not changed.
pub struct StyleVec<'a, T> {
    entries: Vec<(T, StyleChain<'a>)>,
}

impl<'a, T> View for StyleVec<'a, T> {
    type V = Seq<(T, StyleChain<'a>)>;

    closed spec fn view(&self) -> Seq<(T, StyleChain<'a>)> {
        self.entries@
    }
}

impl<'a, T> StyleVec<'a, T> {
    /// The number of items.
    pub fn len(&self) -> (n: usize)
        ensures
            n == self@.len(),
    {
        self.entries.len()
    }

    /// Whether there is no item.
    pub fn is_empty(&self) -> (empty: bool)
        ensures
            empty == (self@.len() == 0),
    {
        self.entries.len() == 0
    }

    /// The items, in order.
    pub fn items(&self) -> (items: Vec<&T>)
        ensures
            referents(items@) == items_of(self@),
    {
        borrow_items(&self.entries)
    }

    /// The style chain of each item, in order.
    pub fn styles(&self) -> (styles: Vec<StyleChain<'a>>)
        ensures
            styles@ == self@.map_values(|entry: (T, StyleChain<'a>)| entry.1),
    {
        let mut styles: Vec<StyleChain<'a>> = Vec::new();
        let mut i: usize = 0;
        while i < self.entries.len()
            invariant
                i <= self.entries@.len(),
                styles@ == self.entries@.take(i as int).map_values(
                    |entry: (T, StyleChain<'a>)| entry.1,
                ),
            decreases self.entries@.len() - i,
        {
            styles.push(self.entries[i].1);
            i += 1;
        }
        styles
    }
}

/// Builds a sequence of styled items by appending.
pub struct StyleVecBuilder<'a, T> {
    entries: Vec<(T, StyleChain<'a>)>,
}

impl<'a, T> View for StyleVecBuilder<'a, T> {
    type V = Seq<(T, StyleChain<'a>)>;

    closed spec fn view(&self) -> Seq<(T, StyleChain<'a>)> {
        self.entries@
    }
}

impl<'a, T> StyleVecBuilder<'a, T> {
    /// A builder that holds nothing yet.
    pub fn new() -> (builder: Self)
        ensures
            builder@ == Seq::<(T, StyleChain<'a>)>::empty(),
    {
        StyleVecBuilder { entries: Vec::new() }
    }

    /// Whether nothing has been pushed.
    pub fn is_empty(&self) -> (empty: bool)
        ensures
            empty == (self@.len() == 0),
    {
        self.entries.len() == 0
    }

    /// Appends an item with the style chain that is active for it.
    pub fn push(&mut self, item: T, styles: StyleChain<'a>)
        ensures
            final(self)@ == old(self)@.push((item, styles)),
    {
        self.entries.push((item, styles));
    }

    /// The items pushed so far, in order.
    pub fn items(&self) -> (items: Vec<&T>)
        ensures
            referents(items@) == items_of(self@),
    {
        borrow_items(&self.entries)
    }

    /// Ends the building. Returns the sequence together with the outer style
    /// layers that all of its items have in common.
    pub fn finish(self) -> (done: (StyleVec<'a, T>, StyleChain<'a>))
        ensures
            done.0@ == self@,
            done.1@ == common_prefix(chains_of(self@)),
    {
        let mut trunk = StyleChain::default();
        let mut i: usize = 0;
        while i < self.entries.len()
            invariant
                i <= self.entries@.len(),
                trunk@ == common_prefix(chains_of(self.entries@.take(i as int))),
            decreases self.entries@.len() - i,
        {
            let styles = self.entries[i].1;
            assert(chains_of(self.entries@.take(i + 1)).drop_last() =~= chains_of(
                self.entries@.take(i as int),
            ));
            trunk = if i == 0 {
                styles
            } else {
                trunk.common_prefix(styles)
            };
            i += 1;
        }
        assert(self.entries@.take(i as int) =~= self.entries@);
        (StyleVec { entries: self.entries }, trunk)
    }
}

/// A reference to the item of each entry, in order.
fn borrow_items<'a, 'b, T>(entries: &'b Vec<(T, StyleChain<'a>)>) -> (items: Vec<&'b T>)
    ensures
        referents(items@) == items_of(entries@),
{
    let mut items: Vec<&'b T> = Vec::new();
    let mut i: usize = 0;
    while i < entries.len()
        invariant
            i <= entries@.len(),
            items@.len() == i,
            forall|j: int| 0 <= j < i ==> *items@[j] == entries@[j].0,
        decreases entries@.len() - i,
    {
        items.push(&entries[i].0);
        i += 1;
    }
    items
}

} // verus!
