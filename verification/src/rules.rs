//! The immutable table configuration.
//!
//! Builder-style setters return a modified copy, so one ruleset can seed
//! any number of games.
use vstd::prelude::*;

verus! {

#[derive(Copy, Clone, PartialEq, Eq, Structural, Debug)]
pub struct Ruleset {
    /// How many fifty-two-card sets the shoe holds; at least one.
    pub decks: usize,
    /// Whether the dealer stands on a soft seventeen.
    pub stand: bool,
    /// Whether doubling is allowed once a split has created extra hands.
    pub double_after_split: bool,
    /// Whether surrendering the opening hand is allowed.
    pub surrender: bool,
}

impl Ruleset {
    /// One deck; the dealer stands on soft seventeen; doubling after a
    /// split is allowed; surrender is not.
    pub fn default() -> (r: Ruleset)
        ensures
            r == (Ruleset { decks: 1, stand: true, double_after_split: true, surrender: false }),
    {
        Ruleset { decks: 1, stand: true, double_after_split: true, surrender: false }
    }

    /// The same rules with the given number of sets in the shoe.
    pub fn decks(self, decks: usize) -> (r: Ruleset)
        requires
            decks >= 1,
        ensures
            r == (Ruleset { decks, ..self }),
    {
        Ruleset { decks, ..self }
    }

    /// The same rules with the soft-seventeen behaviour set: `true` makes
    /// the dealer stand on a soft seventeen.
    pub fn stand(self, stand: bool) -> (r: Ruleset)
        ensures
            r == (Ruleset { stand, ..self }),
    {
        Ruleset { stand, ..self }
    }

    /// The same rules with doubling after a split allowed or not.
    pub fn double_after_split(self, double_after_split: bool) -> (r: Ruleset)
        ensures
            r == (Ruleset { double_after_split, ..self }),
    {
        Ruleset { double_after_split, ..self }
    }

    /// The same rules with surrender allowed or not.
    pub fn surrender(self, surrender: bool) -> (r: Ruleset)
        ensures
            r == (Ruleset { surrender, ..self }),
    {
        Ruleset { surrender, ..self }
    }
}

} // verus!
