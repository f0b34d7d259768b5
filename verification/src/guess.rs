//! A guess in a guessing game, kept inside its legal range by construction.

use vstd::prelude::*;

verus! {

/// A number guessed by a player.  A `Guess` always holds a value between
/// 1 and 100 inclusive; `new` demands that of its caller.
pub struct Guess {
    value: i32,
}

impl Guess {
    /// The wrapped value, as seen by contracts.
    pub closed spec fn spec_value(&self) -> int {
        self.value as int
    }

    /// Wrap a value; the range check is the caller's precondition.
    pub fn new(value: i32) -> (g: Guess)
        requires
            1 <= value <= 100,
        ensures
            g.spec_value() == value,
            1 <= g.spec_value() <= 100,
    {
        Guess { value }
    }

    /// The wrapped value.
    pub fn value(&self) -> (v: i32)
        ensures
            v == self.spec_value(),
    {
        self.value
    }
}

} // verus!
