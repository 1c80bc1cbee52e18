//! The bytes seen after one window, kept in an `indexmap::IndexSet`.

use indexmap::set::IndexSet;
use vstd::prelude::*;

verus! {

/// `indexmap::set::IndexSet`, a set that keeps its items in the order of
/// insertion. Nothing inside it is visible here.
#[verifier::external_type_specification]
#[verifier::external_body]
#[verifier::reject_recursive_types(T)]
#[verifier::reject_recursive_types(S)]
pub struct ExIndexSet<T, S>(IndexSet<T, S>);

/// The items of an `IndexSet<u8>`, in the order in which the set indexes them.
pub uninterp spec fn set_items(set: IndexSet<u8>) -> Seq<u8>;

/// `IndexSet::from` on an array of one byte: the set that holds that byte
/// alone, at index 0.
#[verifier::external_body]
fn set_of(byte: u8) -> (set: IndexSet<u8>)
    ensures
        set_items(set) == seq![byte],
{
    IndexSet::from([byte])
}

/// `IndexSet::insert`: a byte that the set holds already leaves the set and
/// its order as they were and gives `false`; a new byte goes last in order
/// and gives `true`.
#[verifier::external_body]
fn set_insert(set: &mut IndexSet<u8>, byte: u8) -> (added: bool)
    ensures
        added == !set_items(*old(set)).contains(byte),
        set_items(*final(set)) == if added {
            set_items(*old(set)).push(byte)
        } else {
            set_items(*old(set))
        },
{
    set.insert(byte)
}

/// `IndexSet::len`: the number of items in the set.
#[verifier::external_body]
fn set_len(set: &IndexSet<u8>) -> (len: usize)
    ensures
        len == set_items(*set).len(),
{
    set.len()
}

/// Indexing an `IndexSet` by position: the item at `index` in the set's
/// order. The outside function panics on an index out of bounds.
#[verifier::external_body]
fn set_at(set: &IndexSet<u8>, index: usize) -> (byte: u8)
    requires
        index < set_items(*set).len(),
    ensures
        byte == set_items(*set)[index as int],
{
    set[index]
}

/// The bytes recorded after one window: at least one, none twice, in the
/// order in which they were first recorded.
pub struct Successors {
    set: IndexSet<u8>,
}

impl View for Successors {
    type V = Seq<u8>;

    closed spec fn view(&self) -> Seq<u8> {
        set_items(self.set)
    }
}

impl Successors {
    /// Holds of every value the library hands out: some byte is recorded,
    /// and none is recorded twice.
    pub open spec fn wf(&self) -> bool {
        &&& self@.len() > 0
        &&& self@.no_duplicates()
    }

    /// The record of a single byte.
    pub fn single(byte: u8) -> (next: Self)
        ensures
            next.wf(),
            next@ == seq![byte],
    {
        let set = set_of(byte);
        assert(seq![byte].no_duplicates());
        Successors { set }
    }

    /// Records `byte`: a byte recorded before changes nothing, a new one
    /// goes last. Tells whether the byte was new.
    pub fn insert(&mut self, byte: u8) -> (added: bool)
        ensures
            old(self).wf() ==> final(self).wf(),
            added == !old(self)@.contains(byte),
            final(self)@ == if added {
                old(self)@.push(byte)
            } else {
                old(self)@
            },
    {
        let ghost before = self@;
        let added = set_insert(&mut self.set, byte);
        proof {
            if added && before.no_duplicates() {
                assert forall|i: int, j: int|
                    0 <= i < self@.len() && 0 <= j < self@.len() && i != j implies self@[i]
                    != self@[j] by {
                    if i < before.len() && j < before.len() {
                    } else if i < before.len() {
                        assert(before.contains(before[i]));
                    } else {
                        assert(before.contains(before[j]));
                    }
                }
            }
        }
        added
    }

    /// How many bytes are recorded.
    pub fn len(&self) -> (len: usize)
        ensures
            len == self@.len(),
    {
        set_len(&self.set)
    }

    /// The byte at `index` in the order of recording.
    pub fn get(&self, index: usize) -> (byte: u8)
        requires
            index < self@.len(),
        ensures
            byte == self@[index as int],
    {
        set_at(&self.set, index)
    }
}

} // verus!
