//! The source of chance.
//!
//! What chance gives is not for proofs to know. What is known is what it was asked
//! for and what it gave: the [`Dice`] keep, for proofs only, a log of their rolls.
//! Only a roll adds to the log, and nothing takes away from it.

use vstd::prelude::*;

verus! {

/// A roll of the dice.
pub struct Roll {
    /// How many outcomes were possible, all of them equally likely.
    pub bound: usize,
    /// Which of them came, counted from zero.
    pub draw: usize,
}

/// A source of random numbers, with a log of the numbers that it gave.
pub struct Dice {
    rolls: Ghost<Seq<Roll>>,
}

impl Dice {
    /// The rolls so far, in order.
    pub closed spec fn rolls(&self) -> Seq<Roll> {
        self.rolls@
    }

    /// Dice that have not been rolled yet.
    pub(crate) fn new() -> (dice: Self)
        ensures
            dice.rolls() == Seq::<Roll>::empty(),
    {
        Dice { rolls: Ghost(Seq::empty()) }
    }
}

} // verus!
