//! Gold bookkeeping: a single balance that can be gained and spent.

use vstd::prelude::*;

verus! {

/// Returned when a removal asks for more gold than the balance holds.
#[derive(Debug, Clone, PartialEq)]
pub struct NotEnoughResourceError;

/// A gold balance.
pub struct GoldResource(u32);

impl GoldResource {
    /// The balance, as contracts see it.
    pub closed spec fn spec_balance(&self) -> u32 {
        self.0
    }

    /// A balance holding `amount`.
    pub fn new(amount: u32) -> (r: Self)
        ensures
            r.spec_balance() == amount,
    {
        Self(amount)
    }

    /// Adds `amount` to the balance.
    pub fn gain(&mut self, amount: u32)
        requires
            old(self).spec_balance() + amount <= u32::MAX,
        ensures
            final(self).spec_balance() == old(self).spec_balance() + amount,
    {
        self.0 = self.0 + amount;
    }

    /// Spends `amount`; fails, changing nothing, when the balance is too low.
    pub fn remove(&mut self, amount: u32) -> (r: Result<(), NotEnoughResourceError>)
        ensures
            r is Ok <==> amount <= old(self).spec_balance(),
            r is Ok ==> final(self).spec_balance() == old(self).spec_balance() - amount,
            r is Err ==> final(self).spec_balance() == old(self).spec_balance(),
    {
        if amount > self.0 {
            return Err(NotEnoughResourceError);
        }
        self.0 = self.0 - amount;
        Ok(())
    }

    /// The current balance.
    pub fn balance(&self) -> (r: u32)
        ensures
            r == self.spec_balance(),
    {
        self.0
    }
}

impl Default for GoldResource {
    /// A fresh balance holds nothing.
    fn default() -> (r: Self)
        ensures
            r.spec_balance() == 0,
    {
        GoldResource(0)
    }
}

} // verus!
