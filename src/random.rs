//! The source of random draws that the game places its rewards with.
use vstd::prelude::*;

verus! {

/// A source of random indices, supplied by whoever hosts the game.
///
/// The game asks it only for indices below a bound; it should draw them
/// uniformly for the rewards to land uniformly.
pub trait RandomSource {
    /// An index in `[0, max)`.
    fn random_below(&mut self, max: usize) -> (r: usize)
        requires
            max > 0,
        ensures
            r < max,
    ;
}

/// A source that plays a fixed list of numbers back in a cycle, each reduced
/// below the bound asked for. It makes a game repeatable, as in tests.
pub struct CyclicSource {
    values: Vec<usize>,
    position: usize,
}

impl CyclicSource {
    /// The numbers played back, in order.
    pub closed spec fn values(&self) -> Seq<usize> {
        self.values@
    }

    /// How many draws have been made since the start of the current cycle.
    pub closed spec fn position(&self) -> nat {
        self.position as nat
    }

    /// A source that plays `values` back from the first one on.
    pub fn new(values: Vec<usize>) -> (s: CyclicSource)
        ensures
            s.values() == values@,
            s.position() == 0,
    {
        CyclicSource { values, position: 0 }
    }
}

impl RandomSource for CyclicSource {
    fn random_below(&mut self, max: usize) -> (r: usize) {
        let n = self.values.len();
        if n == 0 {
            return 0;
        }
        let at = self.position % n;
        let r = self.values[at] % max;
        self.position = if at + 1 == n {
            0
        } else {
            at + 1
        };
        r
    }
}

} // verus!
