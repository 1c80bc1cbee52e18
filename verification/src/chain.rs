//! The generator: a walk over a transition table that emits one byte per
//! step.

use crate::ngram::{slide, NGram, State};
use crate::random::{First, RandomSource};
use crate::states::MarkovStates;
use crate::successors::Successors;
use std::sync::Arc;
use vstd::prelude::*;

verus! {

/// How many bytes may come next from `window`: the number recorded after it,
/// and none where the walk has ended or the table does not list the window.
pub open spec fn choices(table: Map<Seq<u8>, Seq<u8>>, window: Option<Seq<u8>>) -> nat {
    match window {
        Some(w) => if table.dom().contains(w) {
            table[w].len()
        } else {
            0
        },
        None => 0,
    }
}

/// One step of the walk from `window` when the choice falls on `index`: the
/// window to go on from and the byte emitted. From a listed window the byte
/// at `index` among those recorded after it is emitted and the window slides
/// over it; otherwise the walk is over and nothing is emitted.
pub open spec fn pull(table: Map<Seq<u8>, Seq<u8>>, window: Option<Seq<u8>>, index: int) -> (
    Option<Seq<u8>>,
    Option<u8>,
) {
    match window {
        Some(w) => if table.dom().contains(w) {
            (Some(slide(w, table[w][index])), Some(table[w][index]))
        } else {
            (None, None)
        },
        None => (None, None),
    }
}

/// A walk over a shared transition table, from a window of the caller's
/// choice, with the caller's source of choices.
pub struct MarkovIter<R: RandomSource, const N: usize> {
    states: Arc<MarkovStates<N>>,
    prev_state: Option<NGram<N>>,
    source: R,
}

/// The byte at `index` among those recorded after `prev`, and the window
/// that follows.
fn follow<const N: usize>(prev: &NGram<N>, next_states: &Successors, index: usize) -> (step: (
    NGram<N>,
    u8,
))
    requires
        index < next_states@.len(),
    ensures
        step.1 == next_states@[index as int],
        step.0@ == slide(prev@, step.1),
{
    let next_char = next_states.get(index);
    (prev.shifted(next_char), next_char)
}

impl<R: RandomSource, const N: usize> MarkovIter<R, N> {
    /// The table that is walked.
    pub closed spec fn table(&self) -> MarkovStates<N> {
        *self.states
    }

    /// The window from which the next step starts; `None` once the walk has
    /// ended.
    pub closed spec fn window(&self) -> Option<Seq<u8>> {
        match self.prev_state {
            Some(w) => Some(w@),
            None => None,
        }
    }

    /// The source of choices.
    pub closed spec fn source(&self) -> R {
        self.source
    }

    /// One step with a choice drawn from the source can lead from this
    /// generator to `after`, emitting `byte`: the table stays; where there is
    /// nothing to choose from nothing is emitted, the walk is over and the
    /// source is as it was; otherwise the source picks an index and the step
    /// is the one that `pull` describes for it.
    pub open spec fn steps_to(&self, after: Self, byte: Option<u8>) -> bool {
        let count = choices(self.table()@, self.window());
        &&& after.table() == self.table()
        &&& if count == 0 {
            &&& byte is None
            &&& after.window() is None
            &&& after.source() == self.source()
        } else {
            exists|index: int|
                {
                    &&& 0 <= index < count
                    &&& self.source().picks(count, index as nat, after.source())
                    &&& (after.window(), byte) == #[trigger] pull(
                        self.table()@,
                        self.window(),
                        index,
                    )
                }
        }
    }

    /// A walk over `states` that starts from `first_state` and chooses with
    /// `source`.
    pub fn new(states: Arc<MarkovStates<N>>, first_state: Option<NGram<N>>, source: R) -> (iter:
        Self)
        ensures
            iter.table() == *states,
            iter.window() == match first_state {
                Some(w) => Some(w@),
                None => None,
            },
            iter.source() == source,
    {
        MarkovIter { states, prev_state: first_state, source }
    }

    /// The window from which the next step starts, if the walk has not ended.
    pub fn state(&self) -> (current: Option<NGram<N>>)
        ensures
            self.window() == match current {
                Some(w) => Some(w@),
                None => None,
            },
    {
        self.prev_state
    }

    /// How many bytes the next step can choose from: zero where the walk has
    /// ended or is about to, at a window that the table does not list.
    pub fn remaining_choices(&self) -> (count: usize)
        ensures
            count == choices(self.table()@, self.window()),
    {
        match &self.prev_state {
            Some(prev) => match self.states.get(prev) {
                Some(next_states) => next_states.len(),
                None => 0,
            },
            None => 0,
        }
    }

    /// Takes one step with the choice made by the caller: emits the byte at
    /// `index` among those recorded after the current window and slides the
    /// window over it. Where the table does not list the window the walk
    /// ends: nothing is emitted, now or later.
    pub fn advance(&mut self, index: usize) -> (byte: Option<u8>)
        requires
            choices(old(self).table()@, old(self).window()) > 0 ==> index < choices(
                old(self).table()@,
                old(self).window(),
            ),
        ensures
            final(self).table() == old(self).table(),
            final(self).source() == old(self).source(),
            (final(self).window(), byte) == pull(
                old(self).table()@,
                old(self).window(),
                index as int,
            ),
    {
        if let Some(prev) = self.prev_state {
            if let Some(next_states) = self.states.get(&prev) {
                let (new_prev_state, next_char) = follow(&prev, next_states, index);
                self.prev_state = Some(new_prev_state);
                Some(next_char)
            } else {
                self.prev_state = None;
                None
            }
        } else {
            None
        }
    }

    /// Takes one step with a choice drawn from the source: emits one of the
    /// bytes recorded after the current window and slides the window over
    /// it. Where the table does not list the window the walk ends: nothing
    /// is emitted, now or later, and the source is not asked.
    pub fn next(&mut self) -> (byte: Option<u8>)
        ensures
            old(self).steps_to(*final(self), byte),
            byte matches Some(b) ==> {
                &&& old(self).window() matches Some(w)
                &&& old(self).table()@.dom().contains(w)
                &&& old(self).table()@[w].contains(b)
                &&& final(self).window() == Some(slide(w, b))
            },
    {
        if let Some(prev) = self.prev_state {
            if let Some(next_states) = self.states.get(&prev) {
                let random_idx = self.source.pick(next_states.len());
                let (new_prev_state, next_char) = follow(&prev, next_states, random_idx);
                self.prev_state = Some(new_prev_state);
                assert((self.window(), Some(next_char)) == pull(
                    old(self).table()@,
                    old(self).window(),
                    random_idx as int,
                ));
                Some(next_char)
            } else {
                self.prev_state = None;
                None
            }
        } else {
            None
        }
    }
}

/// Exhaustion is final: a step from a window that the table does not list,
/// or from no window, emits nothing and leaves no window, and so does the
/// step after it.
pub proof fn lemma_exhaustion_is_final<R: RandomSource, const N: usize>(
    start: MarkovIter<R, N>,
    middle: MarkovIter<R, N>,
    end: MarkovIter<R, N>,
    first: Option<u8>,
    second: Option<u8>,
)
    requires
        start.window() matches Some(w) ==> !start.table()@.dom().contains(w),
        start.steps_to(middle, first),
        middle.steps_to(end, second),
    ensures
        first is None,
        middle.window() is None,
        second is None,
        end.window() is None,
{
}

/// With the source that always picks first, generation is reproducible: two
/// generators at the same window of equal tables emit the same byte and
/// move to the same window, which are those of choosing index 0.
pub proof fn lemma_first_is_reproducible<const N: usize>(
    a: MarkovIter<First, N>,
    a_after: MarkovIter<First, N>,
    a_byte: Option<u8>,
    b: MarkovIter<First, N>,
    b_after: MarkovIter<First, N>,
    b_byte: Option<u8>,
)
    requires
        a.table().wf(),
        b.table().wf(),
        a.steps_to(a_after, a_byte),
        b.steps_to(b_after, b_byte),
        a.table()@ == b.table()@,
        a.window() == b.window(),
    ensures
        (a_after.window(), a_byte) == pull(a.table()@, a.window(), 0),
        a_byte == b_byte,
        a_after.window() == b_after.window(),
{
    if let Some(w) = a.window() {
        if a.table()@.dom().contains(w) {
            a.table().lemma_view_wf(w);
        }
    }
}

impl<const N: usize> MarkovStates<N> {
    /// A walk over this table from the window that it lists first, choosing
    /// with `source`. The walk over the empty table emits nothing.
    pub fn into_iter<R: RandomSource>(self, source: R) -> (iter: MarkovIter<R, N>)
        ensures
            iter.table() == self,
            iter.window() == if self.keys().len() > 0 {
                Some(self.keys()[0])
            } else {
                None
            },
            iter.source() == source,
    {
        let first_state = self.first_state();
        MarkovIter::new(Arc::new(self), first_state, source)
    }
}

} // verus!
