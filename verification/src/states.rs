//! The transition table: every window that a corpus shows, with the bytes
//! that follow it.

use crate::corpus::{
    followed, lemma_first_window, lemma_followers_listed, lemma_one_table, lemma_tabulates_known,
    lemma_tabulates_new, lemma_tabulates_nothing, lemma_windows_listed, positions, seen,
    tabulates, window_at,
};
use crate::ngram::{NGram, State};
use crate::successors::Successors;
use vstd::prelude::*;

verus! {

/// Why no table was built.
#[derive(Debug, Clone, Copy, PartialEq, Eq, Structural)]
pub enum BuildError {
    /// The window size is zero: a window of no bytes gives a byte no context.
    ZeroWindow,
}

/// One window of the table and the bytes recorded after it.
struct Entry<const N: usize> {
    window: NGram<N>,
    next: Successors,
}

spec fn keys_of<const N: usize>(entries: Seq<Entry<N>>) -> Seq<Seq<u8>> {
    Seq::new(entries.len(), |i: int| entries[i].window@)
}

spec fn nexts_of<const N: usize>(entries: Seq<Entry<N>>) -> Seq<Seq<u8>> {
    Seq::new(entries.len(), |i: int| entries[i].next@)
}

/// The place of `window` among the entries, if it has one.
fn find<const N: usize>(entries: &Vec<Entry<N>>, window: &NGram<N>) -> (place: Option<usize>)
    ensures
        match place {
            Some(i) => i < entries@.len() && keys_of(entries@)[i as int] == window@,
            None => !keys_of(entries@).contains(window@),
        },
{
    let mut i: usize = 0;
    while i < entries.len()
        invariant
            i <= entries@.len(),
            forall|j: int| 0 <= j < i ==> keys_of(entries@)[j] != window@,
        decreases entries@.len() - i,
    {
        if entries[i].window.same(window) {
            return Some(i);
        }
        i += 1;
    }
    None
}

/// The transition table of a chain of order `N`: the windows of `N` bytes
/// that were seen with a byte after them, in the order of first sight, and
/// for each the bytes seen after it, in the order of first sight.
pub struct MarkovStates<const N: usize> {
    entries: Vec<Entry<N>>,
}

impl<const N: usize> View for MarkovStates<N> {
    type V = Map<Seq<u8>, Seq<u8>>;

    /// From each window of the table to the bytes recorded after it.
    open spec fn view(&self) -> Map<Seq<u8>, Seq<u8>> {
        Map::new(
            |window: Seq<u8>| self.keys().contains(window),
            |window: Seq<u8>|
                self.nexts()[choose|i: int| 0 <= i < self.keys().len() && self.keys()[i] == window],
        )
    }
}

impl<const N: usize> MarkovStates<N> {
    /// The windows of the table, in table order.
    pub closed spec fn keys(&self) -> Seq<Seq<u8>> {
        keys_of(self.entries@)
    }

    /// The bytes recorded after each window, in table order.
    pub closed spec fn nexts(&self) -> Seq<Seq<u8>> {
        nexts_of(self.entries@)
    }

    /// Holds of every table: no window is listed twice, each window has `N`
    /// bytes and at least one byte recorded after it, none of them twice;
    /// a table of order zero lists nothing.
    #[verifier::type_invariant]
    pub open spec fn wf(&self) -> bool {
        &&& self.keys().len() == self.nexts().len()
        &&& self.keys().no_duplicates()
        &&& N == 0 ==> self.keys().len() == 0
        &&& forall|i: int|
            0 <= i < self.keys().len() ==> {
                &&& (#[trigger] self.keys()[i]).len() == N
                &&& self.nexts()[i].len() > 0
                &&& self.nexts()[i].no_duplicates()
            }
    }

    /// The table is that of `corpus`: it lists the windows that the corpus
    /// shows with a byte after them and, for each, the bytes that follow it,
    /// windows and bytes in the order in which the corpus first shows them.
    pub open spec fn is_table_of(&self, corpus: Seq<u8>) -> bool {
        tabulates(self.keys(), self.nexts(), corpus, N as nat, positions(corpus, N as nat) as int)
    }

    /// The view of a table maps the window listed at `i` to the bytes listed
    /// beside it.
    pub proof fn lemma_view_at(&self, i: int)
        requires
            self.wf(),
            0 <= i < self.keys().len(),
        ensures
            self@.dom().contains(self.keys()[i]),
            self@[self.keys()[i]] == self.nexts()[i],
    {
        let window = self.keys()[i];
        let j = choose|j: int| 0 <= j < self.keys().len() && self.keys()[j] == window;
        assert(j == i);
    }

    /// After each window that a table lists at least one byte is recorded,
    /// and none twice.
    pub proof fn lemma_view_wf(&self, window: Seq<u8>)
        requires
            self.wf(),
            self@.dom().contains(window),
        ensures
            window.len() == N,
            self@[window].len() > 0,
            self@[window].no_duplicates(),
    {
        let i = choose|i: int| 0 <= i < self.keys().len() && self.keys()[i] == window;
        self.lemma_view_at(i);
    }

    /// How many windows the table lists.
    pub fn len(&self) -> (len: usize)
        ensures
            len == self.keys().len(),
    {
        self.entries.len()
    }

    /// The window that the table lists first, if it lists any: a start for
    /// a walk.
    pub fn first_state(&self) -> (first: Option<NGram<N>>)
        ensures
            first is None <==> self.keys().len() == 0,
            first matches Some(window) ==> window@ == self.keys()[0],
    {
        if self.entries.len() > 0 {
            Some(self.entries[0].window)
        } else {
            None
        }
    }

    /// The bytes recorded after `window`, if the table lists it.
    pub fn get(&self, window: &NGram<N>) -> (found: Option<&Successors>)
        ensures
            found is Some <==> self@.dom().contains(window@),
            found matches Some(next) ==> next.wf() && next@ == self@[window@],
    {
        proof {
            use_type_invariant(self);
        }
        match find(&self.entries, window) {
            Some(i) => {
                proof {
                    self.lemma_view_at(i as int);
                }
                Some(&self.entries[i].next)
            },
            None => None,
        }
    }

    /// Builds the table of `chars`: slides a window of `N` bytes and the
    /// byte after it over the corpus and records that byte for that window.
    /// A corpus of `N` bytes or fewer gives the empty table. A window size
    /// of zero is refused.
    pub fn from(chars: &[u8]) -> (built: Result<Self, BuildError>)
        ensures
            built is Err <==> N == 0,
            built matches Err(e) ==> e == BuildError::ZeroWindow,
            built matches Ok(states) ==> {
                &&& states.wf()
                &&& states.is_table_of(chars@)
                &&& forall|window: Seq<u8>| #[trigger]
                    states@.dom().contains(window) <==> seen(chars@, N as nat, window)
                &&& forall|window: Seq<u8>, byte: u8|
                    states@.dom().contains(window) ==> (#[trigger] states@[window].contains(byte)
                        <==> followed(chars@, N as nat, window, byte))
                &&& chars@.len() < N + 1 ==> states.keys().len() == 0
            },
    {
        if N == 0 {
            return Err(BuildError::ZeroWindow);
        }
        let mut entries: Vec<Entry<N>> = Vec::new();
        let count: usize = if chars.len() > N {
            chars.len() - N
        } else {
            0
        };
        proof {
            lemma_tabulates_nothing(chars@, N as nat);
            assert(keys_of(entries@) =~= Seq::empty());
            assert(nexts_of(entries@) =~= Seq::empty());
        }
        let mut at: usize = 0;
        while at < count
            invariant
                N > 0,
                at <= count,
                count == positions(chars@, N as nat),
                count + N <= chars.len() || count == 0,
                tabulates(keys_of(entries@), nexts_of(entries@), chars@, N as nat, at as int),
                forall|i: int| 0 <= i < entries@.len() ==> (#[trigger] entries@[i]).next@.len() > 0,
            decreases count - at,
        {
            let curr_state = NGram::from_slice(chars, at).unwrap();
            let next_char = chars[at + N];
            let ghost keys = keys_of(entries@);
            let ghost nexts = nexts_of(entries@);
            assert(window_at(chars@, N as nat, at as int, curr_state@));
            match find(&entries, &curr_state) {
                Some(i) => {
                    entries[i].next.insert(next_char);
                    proof {
                        lemma_tabulates_known(keys, nexts, chars@, N as nat, at as int, i as int);
                        assert(keys_of(entries@) =~= keys);
                        assert(nexts_of(entries@) =~= nexts.update(
                            i as int,
                            entries@[i as int].next@,
                        ));
                    }
                },
                None => {
                    entries.push(Entry { window: curr_state, next: Successors::single(next_char) });
                    proof {
                        lemma_tabulates_new(keys, nexts, chars@, N as nat, at as int, curr_state@);
                        assert(keys_of(entries@) =~= keys.push(curr_state@));
                        assert(nexts_of(entries@) =~= nexts.push(seq![next_char]));
                    }
                },
            }
            at += 1;
        }
        proof {
            assert forall|i: int| 0 <= i < entries@.len() implies {
                &&& (#[trigger] keys_of(entries@)[i]).len() == N
                &&& nexts_of(entries@)[i].len() > 0
                &&& nexts_of(entries@)[i].no_duplicates()
            } by {
                entries@[i].window.lemma_len();
                assert(entries@[i].next@.len() > 0);
            }
        }
        let states = MarkovStates { entries };
        proof {
            states.lemma_covers(chars@);
        }
        Ok(states)
    }

    /// A table of a corpus lists exactly the windows of the corpus, each
    /// with exactly the bytes that follow it somewhere in the corpus; a
    /// corpus too short to hold a window and a byte after it has the empty
    /// table.
    pub proof fn lemma_covers(&self, corpus: Seq<u8>)
        requires
            self.wf(),
            self.is_table_of(corpus),
        ensures
            forall|window: Seq<u8>| #[trigger]
                self@.dom().contains(window) <==> seen(corpus, N as nat, window),
            forall|window: Seq<u8>, byte: u8|
                self@.dom().contains(window) ==> (#[trigger] self@[window].contains(byte)
                    <==> followed(corpus, N as nat, window, byte)),
            corpus.len() < N + 1 ==> self.keys().len() == 0,
    {
        let n = N as nat;
        assert forall|window: Seq<u8>| #[trigger]
            self@.dom().contains(window) <==> seen(corpus, n, window) by {
            lemma_windows_listed(self.keys(), corpus, n, window);
        }
        assert forall|window: Seq<u8>, byte: u8| self@.dom().contains(window) implies (
        #[trigger] self@[window].contains(byte) <==> followed(corpus, n, window, byte)) by {
            let i = choose|i: int| 0 <= i < self.keys().len() && self.keys()[i] == window;
            self.lemma_view_at(i);
            lemma_followers_listed(self.nexts()[i], corpus, n, window, byte);
        }
        if corpus.len() < N + 1 && self.keys().len() > 0 {
            lemma_windows_listed(self.keys(), corpus, n, self.keys()[0]);
            assert(self.keys().contains(self.keys()[0]));
        }
    }
}

/// Building is deterministic: two tables of one corpus list the same
/// windows in the same order and, after each window, the same bytes in the
/// same order; so their views are equal.
pub proof fn lemma_table_is_determined<const N: usize>(
    a: MarkovStates<N>,
    b: MarkovStates<N>,
    corpus: Seq<u8>,
)
    requires
        a.wf(),
        b.wf(),
        a.is_table_of(corpus),
        b.is_table_of(corpus),
    ensures
        a.keys() == b.keys(),
        a.nexts() == b.nexts(),
        a@ == b@,
        a@.dom() == b@.dom(),
        forall|window: Seq<u8>| #[trigger]
            a@.dom().contains(window) ==> a@[window].to_set() == b@[window].to_set(),
{
    lemma_one_table(
        a.keys(),
        a.nexts(),
        b.keys(),
        b.nexts(),
        corpus,
        N as nat,
        positions(corpus, N as nat) as int,
    );
    assert(a@ =~= b@);
}

/// A walk from the first window of a table of a corpus starts where the
/// corpus starts: the table of a corpus that holds a window and a byte after
/// it lists first the first `N` bytes of the corpus.
pub proof fn lemma_table_starts_with_corpus<const N: usize>(states: MarkovStates<N>, corpus: Seq<u8>)
    requires
        states.wf(),
        states.is_table_of(corpus),
        corpus.len() > N,
    ensures
        states.keys().len() > 0,
        states.keys()[0] == corpus.subrange(0, N as int),
{
    lemma_first_window(states.keys(), states.nexts(), corpus, N as nat);
}

impl<const N: usize> Default for MarkovStates<N> {
    /// The table that lists nothing.
    fn default() -> (states: Self)
        ensures
            states.wf(),
            states.keys().len() == 0,
            states@.dom() =~= Set::empty(),
    {
        let states = MarkovStates { entries: Vec::new() };
        assert(states.keys().len() == 0);
        states
    }
}

} // verus!
