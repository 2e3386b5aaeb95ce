//! Valuables: piles that robots mine until nothing is left.

use vstd::prelude::*;
use vstd::string::StringExecFns;

use crate::grid::coords::Coords;

verus! {

/// The most that one pile holds.
pub const MAX_AMOUNT: i32 = 5000;

/// A pile of valuables on a cell.
#[derive(Clone, Debug)]
pub struct Valuable {
    pub id: i64,
    pub q: i32,
    pub r: i32,
    pub kind: String,
    pub amount: i32,
}

impl Valuable {
    /// What holds of a pile in every state: it holds something between
    /// nothing and the most that a pile holds.
    pub open spec fn wf(&self) -> bool {
        0 <= self.amount <= MAX_AMOUNT
    }

    /// Where the pile lies.
    pub open spec fn coords(&self) -> Coords {
        Coords { q: self.q, r: self.r }
    }

    /// What a pile holds after `amount` is added to `held`: the sum, and no
    /// more than a pile can hold.
    pub open spec fn topped_up(held: int, amount: int) -> int {
        if held + amount > MAX_AMOUNT {
            MAX_AMOUNT as int
        } else {
            held + amount
        }
    }

    /// How much a miner gets who asks for `amount` of a pile that holds
    /// `held`: what was asked for, and no more than there is.
    pub open spec fn mined(held: int, amount: int) -> int {
        if held < amount {
            held
        } else {
            amount
        }
    }

    /// Whether `other` holds what this pile holds, at the same place and
    /// under the same id.
    pub open spec fn same_as(&self, other: &Valuable) -> bool {
        &&& other.id == self.id
        &&& other.q == self.q
        &&& other.r == self.r
        &&& other.kind@ == self.kind@
        &&& other.amount == self.amount
    }

    /// A copy of the pile as it is.
    pub fn snapshot(&self) -> (copy: Valuable)
        ensures
            self.same_as(&copy),
    {
        Valuable { id: self.id, q: self.q, r: self.r, kind: self.kind.clone(), amount: self.amount }
    }

    /// The pile itself, once more.
    pub fn snapshot_exact(&self) -> (copy: Valuable)
        ensures
            copy == *self,
    {
        Valuable { id: self.id, q: self.q, r: self.r, kind: self.kind.clone(), amount: self.amount }
    }

    /// Makes a basic pile.
    pub fn new(id: i64, coords: Coords, amount: i32) -> (valuable: Valuable)
        ensures
            valuable.id == id,
            valuable.coords() == coords,
            valuable.amount == amount,
            valuable.kind@ == "basic"@,
    {
        Valuable { id: id, q: coords.q, r: coords.r, kind: String::from_str("basic"), amount }
    }

    /// Increase in value
    pub fn add_to_amount(&mut self, amount: i32)
        requires
            i32::MIN <= old(self).amount + amount,
        ensures
            final(self).amount == Self::topped_up(old(self).amount as int, amount as int),
            *final(self) == (Valuable { amount: final(self).amount, ..*old(self) }),
            old(self).wf() && old(self).amount + amount >= 0 ==> final(self).wf(),
    {
        let sum: i64 = self.amount as i64 + amount as i64;
        if sum > MAX_AMOUNT as i64 {
            self.amount = MAX_AMOUNT;
        } else {
            self.amount = sum as i32;
        }
    }

    /// Attempt to mine a certain amount
    pub fn mine(&mut self, amount: i32) -> (mined_amount: i32)
        requires
            old(self).amount - amount <= i32::MAX,
        ensures
            mined_amount == Self::mined(old(self).amount as int, amount as int),
            final(self).amount == old(self).amount - mined_amount,
            *final(self) == (Valuable { amount: final(self).amount, ..*old(self) }),
            old(self).wf() && amount >= 0 ==> final(self).wf() && 0 <= mined_amount <= amount,
            amount > old(self).amount ==> mined_amount == old(self).amount && final(self).amount
                == 0,
    {
        let mined_amount: i32;

        if self.amount < amount {
            mined_amount = self.amount;
            self.amount = 0;
        } else {
            mined_amount = amount;
            self.amount = self.amount - mined_amount;
        }

        mined_amount
    }
}

} // verus!
