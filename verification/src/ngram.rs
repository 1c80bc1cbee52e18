//! The state of the chain: a window of `N` bytes.

use vstd::prelude::*;
use vstd::std_specs::cmp::PartialEqSpecImpl;
use vstd::std_specs::convert::FromSpecImpl;

verus! {

/// The window that follows `window` once `next` has been emitted: the oldest
/// byte leaves, `next` joins at the end. The empty window stays empty.
pub open spec fn slide(window: Seq<u8>, next: u8) -> Seq<u8> {
    if window.len() == 0 {
        window
    } else {
        window.drop_first().push(next)
    }
}

/// What the chain asks of a state: it stands for a window of bytes, can be
/// told apart from another state, and can move on by one byte.
pub trait State: Sized {
    /// The bytes of the window, oldest first.
    spec fn bytes(&self) -> Seq<u8>;

    /// Whether two states stand for the same window.
    fn same(&self, other: &Self) -> (equal: bool)
        ensures
            equal == (self.bytes() == other.bytes()),
    ;

    /// The state reached from this one by emitting `next`.
    fn shifted(&self, next: u8) -> (moved: Self)
        ensures
            moved.bytes() == slide(self.bytes(), next),
    ;
}

/// A window of exactly `N` bytes.
#[derive(Debug, Clone, Copy, Hash)]
pub struct NGram<const N: usize> {
    ngram: [u8; N],
}

impl<const N: usize> View for NGram<N> {
    type V = Seq<u8>;

    closed spec fn view(&self) -> Seq<u8> {
        self.ngram@
    }
}

impl<const N: usize> NGram<N> {
    /// The window that holds the bytes of `ngram`, in order.
    pub closed spec fn of(ngram: [u8; N]) -> Self {
        NGram { ngram }
    }

    /// The window made from an array views as the array does.
    pub proof fn lemma_of(ngram: [u8; N])
        ensures
            Self::of(ngram)@ == ngram@,
    {
    }

    /// A window always holds `N` bytes.
    pub proof fn lemma_len(self)
        ensures
            self@.len() == N,
    {
    }

    /// The window's bytes, oldest first.
    pub fn to_bytes(&self) -> (bytes: [u8; N])
        ensures
            bytes@ == self@,
    {
        self.ngram
    }

    /// The window of `N` bytes that starts at `at` in `chars`, where `chars`
    /// holds that many bytes from there on.
    pub fn from_slice(chars: &[u8], at: usize) -> (cut: Option<Self>)
        ensures
            cut is Some <==> at + N <= chars@.len(),
            cut matches Some(window) ==> window@ == chars@.subrange(at as int, at + N),
    {
        if at > chars.len() || N > chars.len() - at {
            return None;
        }
        let mut ngram: [u8; N] = [0u8; N];
        let mut i: usize = 0;
        while i < N
            invariant
                i <= N,
                at + N <= chars.len(),
                forall|j: int| 0 <= j < i ==> ngram@[j] == chars@[at + j],
            decreases N - i,
        {
            ngram[i] = chars[at + i];
            i += 1;
        }
        assert(ngram@ =~= chars@.subrange(at as int, at + N));
        Some(NGram { ngram })
    }
}

impl<const N: usize> State for NGram<N> {
    open spec fn bytes(&self) -> Seq<u8> {
        self@
    }

    fn same(&self, other: &Self) -> (equal: bool) {
        let mut i: usize = 0;
        while i < N
            invariant
                i <= N,
                forall|j: int| 0 <= j < i ==> self.ngram@[j] == other.ngram@[j],
            decreases N - i,
        {
            if self.ngram[i] != other.ngram[i] {
                return false;
            }
            i += 1;
        }
        assert(self.ngram@ =~= other.ngram@);
        true
    }

    fn shifted(&self, next: u8) -> (moved: Self) {
        let mut ngram: [u8; N] = self.ngram;
        if N > 0 {
            let mut i: usize = 1;
            while i < N
                invariant
                    1 <= i <= N,
                    forall|j: int| 0 <= j < i - 1 ==> ngram@[j] == self.ngram@[j + 1],
                decreases N - i,
            {
                ngram[i - 1] = self.ngram[i];
                i += 1;
            }
            ngram[N - 1] = next;
            assert(ngram@ =~= slide(self.ngram@, next));
        }
        NGram { ngram }
    }
}

impl<const N: usize> PartialEq for NGram<N> {
    fn eq(&self, other: &Self) -> (equal: bool) {
        self.same(other)
    }
}

impl<const N: usize> PartialEqSpecImpl for NGram<N> {
    open spec fn obeys_eq_spec() -> bool {
        true
    }

    open spec fn eq_spec(&self, other: &Self) -> bool {
        self@ == other@
    }
}

impl<const N: usize> Eq for NGram<N> {
}

impl<const N: usize> From<[u8; N]> for NGram<N> {
    fn from(ngram: [u8; N]) -> (window: Self) {
        NGram { ngram }
    }
}

impl<const N: usize> FromSpecImpl<[u8; N]> for NGram<N> {
    open spec fn obeys_from_spec() -> bool {
        true
    }

    open spec fn from_spec(ngram: [u8; N]) -> Self {
        NGram::of(ngram)
    }
}

} // verus!
