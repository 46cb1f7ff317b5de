//! The source of randomness that the sampler draws from.

use vstd::prelude::*;

verus! {

/// One draw: the bound that was asked for and the index that was given.
pub struct Draw {
    pub bound: usize,
    pub index: usize,
}

/// A generator of uniformly distributed indices. It keeps, for the
/// contracts alone, the draws that were made of it.
pub trait UniformSource {
    /// The draws made so far, the oldest first.
    spec fn drawn(&self) -> Seq<Draw>;

    /// Draws an index below `bound`.
    fn below(&mut self, bound: usize) -> (index: usize)
        requires
            bound > 0,
        ensures
            index < bound,
            final(self).drawn() == old(self).drawn().push(Draw { bound, index }),
    ;
}

/// The draws of `after` that were made since it stood at `before`.
pub open spec fn drawn_since(before: Seq<Draw>, after: Seq<Draw>) -> Seq<Draw> {
    after.skip(before.len() as int)
}

/// Calls `rand::thread_rng` and `rand::Rng::gen_range` on what it
/// returns, with the range from 0 up to and excluding `bound`: the value
/// drawn lies in that range. The range must not be empty.
#[verifier::external_body]
fn thread_rng_below(bound: usize) -> (index: usize)
    requires
        bound > 0,
    ensures
        index < bound,
{
    rand::Rng::gen_range(&mut rand::thread_rng(), 0, bound)
}

/// The generator of the running thread, seeded by the system.
pub struct ThreadSource {
    log: Ghost<Seq<Draw>>,
}

impl ThreadSource {
    pub fn new() -> (source: Self)
        ensures
            source.drawn() == Seq::<Draw>::empty(),
    {
        ThreadSource { log: Ghost(Seq::empty()) }
    }
}

impl UniformSource for ThreadSource {
    closed spec fn drawn(&self) -> Seq<Draw> {
        self.log@
    }

    fn below(&mut self, bound: usize) -> (index: usize) {
        let index = thread_rng_below(bound);
        self.log = Ghost(self.log@.push(Draw { bound, index }));
        index
    }
}

/// A generator that replays a fixed sequence of values, again and again,
/// each reduced to the bound it is asked for.
pub struct FixedSequence {
    values: Vec<usize>,
    cursor: usize,
    log: Ghost<Seq<Draw>>,
}

impl FixedSequence {
    /// The values that are replayed.
    pub closed spec fn values(&self) -> Seq<usize> {
        self.values@
    }

    /// The position of the value that the next draw uses.
    pub closed spec fn cursor(&self) -> int {
        self.cursor as int
    }

    /// The cursor stays within the values.
    pub open spec fn wf(&self) -> bool {
        0 <= self.cursor() && (self.cursor() < self.values().len() || self.values().len() == 0)
    }

    /// What the next draw below `bound` returns.
    pub open spec fn next_index(&self, bound: usize) -> int {
        if self.values().len() == 0 {
            0
        } else {
            self.values()[self.cursor()] as int % bound as int
        }
    }

    /// Where the cursor stands after the next draw: one further, or at
    /// the first value again after the last.
    pub open spec fn next_cursor(&self) -> int {
        if self.cursor() + 1 < self.values().len() {
            self.cursor() + 1
        } else {
            0
        }
    }

    /// A generator that replays `values` from the first one on. With no
    /// values it draws 0 every time.
    pub fn new(values: Vec<usize>) -> (source: Self)
        ensures
            source.wf(),
            source.values() == values@,
            source.cursor() == 0,
            source.drawn() == Seq::<Draw>::empty(),
    {
        FixedSequence { values, cursor: 0, log: Ghost(Seq::empty()) }
    }

    /// Draws the next value, reduced below `bound`, and moves on.
    pub fn draw(&mut self, bound: usize) -> (index: usize)
        requires
            bound > 0,
        ensures
            index < bound,
            old(self).wf() ==> index == old(self).next_index(bound),
            final(self).wf(),
            final(self).values() == old(self).values(),
            old(self).wf() ==> final(self).cursor() == old(self).next_cursor(),
            final(self).drawn() == old(self).drawn().push(Draw { bound, index }),
    {
        let index = if self.values.len() == 0 {
            self.cursor = 0;
            0
        } else {
            if self.cursor >= self.values.len() {
                self.cursor = 0;
            }
            let index = self.values[self.cursor] % bound;
            self.cursor = if self.cursor + 1 < self.values.len() {
                self.cursor + 1
            } else {
                0
            };
            index
        };
        self.log = Ghost(self.log@.push(Draw { bound, index }));
        index
    }
}

impl UniformSource for FixedSequence {
    closed spec fn drawn(&self) -> Seq<Draw> {
        self.log@
    }

    /// Draws as `draw` does: the value under the cursor, reduced below
    /// `bound`, and the cursor moves on by one, back to the first value
    /// after the last.
    fn below(&mut self, bound: usize) -> (index: usize)
        ensures
            old(self).wf() ==> index == old(self).next_index(bound),
            final(self).wf(),
            final(self).values() == old(self).values(),
            old(self).wf() ==> final(self).cursor() == old(self).next_cursor(),
    {
        self.draw(bound)
    }
}

} // verus!
