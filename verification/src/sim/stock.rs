//! What the colony has in store.
use vstd::prelude::*;

verus! {

/// The stores of the colony, in halves of a unit.
#[derive(Clone, Copy, PartialEq, Eq, Structural, Debug)]
pub struct Stockpile {
    pub logs: i64,
    pub food: i64,
    pub water: i64,
}

/// One unit of anything in store.
pub const UNIT: i64 = 2;

/// The sum of two amounts, held within what a store can count.
pub open spec fn plus(a: i64, b: int) -> i64 {
    if a + b > i64::MAX {
        i64::MAX
    } else if a + b < i64::MIN {
        i64::MIN
    } else {
        (a + b) as i64
    }
}

/// Add to a store, which counts no further than a machine number goes.
pub fn add_to(a: i64, b: i64) -> (r: i64)
    ensures
        r == plus(a, b as int),
{
    let s: i128 = a as i128 + b as i128;
    if s > i64::MAX as i128 {
        i64::MAX
    } else if s < i64::MIN as i128 {
        i64::MIN
    } else {
        s as i64
    }
}

/// Take from a store.
pub fn take_from(a: i64, b: i64) -> (r: i64)
    ensures
        r == plus(a, -b),
{
    let s: i128 = a as i128 - b as i128;
    if s > i64::MAX as i128 {
        i64::MAX
    } else if s < i64::MIN as i128 {
        i64::MIN
    } else {
        s as i64
    }
}

impl Stockpile {
    /// Nothing is owed.
    pub open spec fn solvent(self) -> bool {
        self.logs >= 0 && self.food >= 0 && self.water >= 0
    }

    /// What a new colony starts with.
    pub fn initial() -> (r: Stockpile)
        ensures
            r.logs == 30 * UNIT,
            r.food == 12 * UNIT,
            r.water == 12 * UNIT,
    {
        Stockpile { logs: 60, food: 24, water: 24 }
    }
}

} // verus!
