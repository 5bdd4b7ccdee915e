//! Runs of calls on a collapsing builder.
use crate::state::CollapseState;
use crate::style::StyleChain;
use vstd::prelude::*;

verus! {

/// One call on a collapsing builder, with its arguments.
pub enum Call<'a, T> {
    Weak { item: T, styles: StyleChain<'a>, strength: u8 },
    Destructive { item: T, styles: StyleChain<'a> },
    Supportive { item: T, styles: StyleChain<'a> },
    Ignorant { item: T, styles: StyleChain<'a> },
}

impl<'a, T> Call<'a, T> {
    /// The item that the call submits, with its style chain.
    pub open spec fn entry(self) -> (T, StyleChain<'a>) {
        match self {
            Call::Weak { item, styles, .. } => (item, styles),
            Call::Destructive { item, styles } => (item, styles),
            Call::Supportive { item, styles } => (item, styles),
            Call::Ignorant { item, styles } => (item, styles),
        }
    }

    /// Whether the call neither commits anything nor cancels a pending weak
    /// item: it is a weak or an ignorant one.
    pub open spec fn is_tentative(self) -> bool {
        self is Weak || self is Ignorant
    }
}

/// Tells the calls that are not weak.
pub open spec fn not_weak<'a, T>() -> spec_fn(Call<'a, T>) -> bool {
    |call: Call<'a, T>| !(call is Weak)
}

/// Tells the ignorant calls.
pub open spec fn only_ignorant<'a, T>() -> spec_fn(Call<'a, T>) -> bool {
    |call: Call<'a, T>| call is Ignorant
}

/// Tells the calls that are not ignorant.
pub open spec fn not_ignorant<'a, T>() -> spec_fn(Call<'a, T>) -> bool {
    |call: Call<'a, T>| !(call is Ignorant)
}

/// Whether every call of the run is weak or ignorant.
pub open spec fn all_tentative<'a, T>(calls: Seq<Call<'a, T>>) -> bool {
    forall|i: int| 0 <= i < calls.len() ==> (#[trigger] calls[i]).is_tentative()
}

/// The entries that the calls submit, in call order.
pub open spec fn entries_of<'a, T>(calls: Seq<Call<'a, T>>) -> Seq<(T, StyleChain<'a>)> {
    calls.map_values(|call: Call<'a, T>| call.entry())
}

impl<'a, T: PartialOrd> CollapseState<'a, T> {
    /// The state after one call.
    pub open spec fn step(self, call: Call<'a, T>) -> Self {
        match call {
            Call::Weak { item, styles, strength } => self.weak(item, styles, strength),
            Call::Destructive { item, styles } => self.destructive(item, styles),
            Call::Supportive { item, styles } => self.supportive(item, styles),
            Call::Ignorant { item, styles } => self.ignorant(item, styles),
        }
    }

    /// The state after a run of calls, made in order.
    pub open spec fn run(self, calls: Seq<Call<'a, T>>) -> Self
        decreases calls.len(),
    {
        if calls.len() == 0 {
            self
        } else {
            self.run(calls.drop_last()).step(calls.last())
        }
    }
}

/// Running two runs one after the other is running them joined.
pub proof fn lemma_run_joined<'a, T: PartialOrd>(
    state: CollapseState<'a, T>,
    first: Seq<Call<'a, T>>,
    second: Seq<Call<'a, T>>,
)
    ensures
        state.run(first + second) == state.run(first).run(second),
    decreases second.len(),
{
    if second.len() > 0 {
        lemma_run_joined(state, first, second.drop_last());
        assert((first + second).drop_last() =~= first + second.drop_last());
    }
}

/// Running a run with one more call at its end.
pub proof fn lemma_run_push<'a, T: PartialOrd>(
    state: CollapseState<'a, T>,
    calls: Seq<Call<'a, T>>,
    call: Call<'a, T>,
)
    ensures
        state.run(calls.push(call)) == state.run(calls).step(call),
{
    assert(calls.push(call).drop_last() =~= calls);
}

} // verus!
