//! Style chains: the cascade of style layers that is active at one point of
//! a document.
use vstd::prelude::*;
use vstd::slice::slice_subrange;
use vstd::std_specs::cmp::PartialEqSpecImpl;

verus! {

/// The longest sequence with which both `a` and `b` begin.
pub open spec fn shared_prefix(a: Seq<u64>, b: Seq<u64>) -> Seq<u64>
    decreases a.len(),
{
    if a.len() > 0 && b.len() > 0 && a[0] == b[0] {
        seq![a[0]] + shared_prefix(a.drop_first(), b.drop_first())
    } else {
        Seq::empty()
    }
}

/// The longest sequence with which every member of `chains` begins. By
/// convention it is empty when there are no chains at all.
pub open spec fn common_prefix(chains: Seq<Seq<u64>>) -> Seq<u64>
    decreases chains.len(),
{
    if chains.len() == 0 {
        Seq::empty()
    } else if chains.len() == 1 {
        chains[0]
    } else {
        shared_prefix(common_prefix(chains.drop_last()), chains.last())
    }
}

/// `shared_prefix(a, b)` is a prefix of both of its arguments.
pub proof fn lemma_shared_prefix_is_prefix(a: Seq<u64>, b: Seq<u64>)
    ensures
        shared_prefix(a, b).is_prefix_of(a),
        shared_prefix(a, b).is_prefix_of(b),
    decreases a.len(),
{
    if a.len() > 0 && b.len() > 0 && a[0] == b[0] {
        lemma_shared_prefix_is_prefix(a.drop_first(), b.drop_first());
    }
}

/// Every common prefix of `a` and `b` is a prefix of `shared_prefix(a, b)`.
pub proof fn lemma_shared_prefix_is_longest(a: Seq<u64>, b: Seq<u64>, p: Seq<u64>)
    requires
        p.is_prefix_of(a),
        p.is_prefix_of(b),
    ensures
        p.is_prefix_of(shared_prefix(a, b)),
    decreases a.len(),
{
    let s = shared_prefix(a, b);
    if p.len() > 0 {
        assert(a[0] == p[0] && b[0] == p[0]);
        let q = p.drop_first();
        lemma_shared_prefix_is_longest(a.drop_first(), b.drop_first(), q);
        let rest = shared_prefix(a.drop_first(), b.drop_first());
        assert forall|i: int| 0 <= i < p.len() implies p[i] == s[i] by {
            if i > 0 {
                assert(q[i - 1] == rest[i - 1]);
            }
        }
    }
}

/// If `a` and `b` agree on their first `n` places and part ways there, their
/// shared prefix is exactly those `n` places.
pub proof fn lemma_shared_prefix_at(a: Seq<u64>, b: Seq<u64>, n: int)
    requires
        0 <= n <= a.len(),
        n <= b.len(),
        forall|i: int| 0 <= i < n ==> a[i] == b[i],
        n == a.len() || n == b.len() || a[n] != b[n],
    ensures
        shared_prefix(a, b) == a.subrange(0, n),
    decreases n,
{
    if n > 0 {
        lemma_shared_prefix_at(a.drop_first(), b.drop_first(), n - 1);
    }
}

/// The common prefix of `chains` is a prefix of each of them.
pub proof fn law_common_prefix_is_shared(chains: Seq<Seq<u64>>, i: int)
    requires
        0 <= i < chains.len(),
    ensures
        common_prefix(chains).is_prefix_of(chains[i]),
    decreases chains.len(),
{
    if chains.len() > 1 {
        let front = chains.drop_last();
        let trunk = common_prefix(front);
        lemma_shared_prefix_is_prefix(trunk, chains.last());
        if i < front.len() {
            law_common_prefix_is_shared(front, i);
        }
    }
}

/// Every sequence with which all of `chains` begin is a prefix of their
/// common prefix, provided there is at least one chain.
pub proof fn law_common_prefix_is_longest(chains: Seq<Seq<u64>>, p: Seq<u64>)
    requires
        chains.len() > 0,
        forall|i: int| 0 <= i < chains.len() ==> p.is_prefix_of(#[trigger] chains[i]),
    ensures
        p.is_prefix_of(common_prefix(chains)),
    decreases chains.len(),
{
    if chains.len() > 1 {
        let front = chains.drop_last();
        law_common_prefix_is_longest(front, p);
        lemma_shared_prefix_is_longest(common_prefix(front), chains.last(), p);
    }
}

/// The cascade of style layers that is active at one point of a document,
/// outermost layer first. Each layer is known by its identifier. A chain is
/// a cheap handle that can be copied freely; it borrows its layers.
#[derive(Clone, Copy, Debug, Eq)]
pub struct StyleChain<'a> {
    links: &'a [u64],
}

impl<'a> View for StyleChain<'a> {
    type V = Seq<u64>;

    closed spec fn view(&self) -> Seq<u64> {
        self.links@
    }
}

impl<'a> StyleChain<'a> {
    /// The chain made of the given layers, outermost first.
    pub fn new(links: &'a [u64]) -> (chain: Self)
        ensures
            chain@ == links@,
    {
        StyleChain { links }
    }

    /// The layers of the chain, outermost first.
    pub fn links(&self) -> (links: &'a [u64])
        ensures
            links@ == self@,
    {
        self.links
    }

    /// The outer layers that this chain has in common with `other`.
    pub fn common_prefix(self, other: StyleChain<'a>) -> (trunk: StyleChain<'a>)
        ensures
            trunk@ == shared_prefix(self@, other@),
    {
        let mut n: usize = 0;
        while n < self.links.len() && n < other.links.len() && self.links[n] == other.links[n]
            invariant
                n <= self.links@.len(),
                n <= other.links@.len(),
                forall|i: int| 0 <= i < n ==> self.links@[i] == other.links@[i],
            decreases self.links@.len() - n,
        {
            n += 1;
        }
        proof {
            lemma_shared_prefix_at(self.links@, other.links@, n as int);
        }
        StyleChain { links: slice_subrange(self.links, 0, n) }
    }
}

impl<'a> PartialEq for StyleChain<'a> {
    /// Two chains are equal when they have the same layers.
    fn eq(&self, other: &Self) -> (same: bool) {
        if self.links.len() != other.links.len() {
            return false;
        }
        let mut n: usize = 0;
        while n < self.links.len()
            invariant
                n <= self.links@.len(),
                self.links@.len() == other.links@.len(),
                forall|i: int| 0 <= i < n ==> self.links@[i] == other.links@[i],
            decreases self.links@.len() - n,
        {
            if self.links[n] != other.links[n] {
                return false;
            }
            n += 1;
        }
        assert(self.links@ =~= other.links@);
        true
    }
}

impl<'a> PartialEqSpecImpl for StyleChain<'a> {
    open spec fn obeys_eq_spec() -> bool {
        true
    }

    open spec fn eq_spec(&self, other: &Self) -> bool {
        self@ == other@
    }
}

impl<'a> Default for StyleChain<'a> {
    /// The empty chain: no style layer is active.
    fn default() -> (chain: Self)
        ensures
            chain@ == Seq::<u64>::empty(),
    {
        StyleChain { links: &[] }
    }
}

} // verus!
