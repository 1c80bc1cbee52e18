//! Where the generator's choices come from.

use rand::rngs::ThreadRng;
use rand::Rng;
use vstd::prelude::*;

verus! {

/// `rand::rngs::ThreadRng`, the handle to a thread's random generator.
/// Nothing inside it is visible here.
#[verifier::external_type_specification]
#[verifier::external_body]
pub struct ExThreadRng(ThreadRng);

/// `rand::thread_rng`: a handle to the generator of the calling thread.
#[verifier::external_body]
fn local_rng() -> (rng: ThreadRng) {
    rand::thread_rng()
}

/// `Rng::gen_range` over `0..count`: some index below `count`, whichever the
/// generator yields. The outside function panics on an empty range.
#[verifier::external_body]
fn draw_below(rng: &mut ThreadRng, count: usize) -> (index: usize)
    requires
        count > 0,
    ensures
        index < count,
{
    rng.gen_range(0..count)
}

/// A source of choices: asked to pick one of `count` things, it answers
/// with an index below `count`.
pub trait RandomSource: Sized {
    /// Whether this source, asked to pick one of `count`, may answer `index`
    /// and be left as `after`.
    spec fn picks(&self, count: nat, index: nat, after: Self) -> bool;

    /// Picks one of `count` things.
    fn pick(&mut self, count: usize) -> (index: usize)
        requires
            count > 0,
        ensures
            index < count,
            old(self).picks(count as nat, index as nat, *final(self)),
    ;
}

/// The random generator of the calling thread: any index may come.
pub struct ThreadSource {
    rng: ThreadRng,
}

impl ThreadSource {
    /// A source that draws from the calling thread's generator.
    pub fn new() -> (source: Self) {
        ThreadSource { rng: local_rng() }
    }
}

impl RandomSource for ThreadSource {
    open spec fn picks(&self, count: nat, index: nat, after: Self) -> bool {
        index < count
    }

    fn pick(&mut self, count: usize) -> (index: usize) {
        draw_below(&mut self.rng, count)
    }
}

/// The source that always picks index 0.
#[derive(Debug, Clone, Copy, PartialEq, Eq, Structural)]
pub struct First;

impl RandomSource for First {
    open spec fn picks(&self, count: nat, index: nat, after: Self) -> bool {
        index == 0
    }

    fn pick(&mut self, count: usize) -> (index: usize) {
        0
    }
}

} // verus!
