//! The economy ledger: spendable currency and round/win tallies. Within the
//! battle core these are mutated only at the outcome branch of a battle and
//! at session entry.

use vstd::prelude::*;

verus! {

/// Spendable currency. The battle core only ever increases it.
pub struct Coins(pub usize);

impl Default for Coins {
    fn default() -> (c: Coins)
        ensures
            c.0 == 0,
    {
        Coins(0)
    }
}

/// Round and win tallies: `rounds` counts battles entered, `won` counts
/// battles the player's roster survived alone.
pub struct Trophies {
    pub won: usize,
    pub rounds: usize,
}

impl Default for Trophies {
    fn default() -> (t: Trophies)
        ensures
            t.won == 0 && t.rounds == 0,
    {
        Trophies { won: 0, rounds: 0 }
    }
}

} // verus!
