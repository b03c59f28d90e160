//! Supply bookkeeping: a stored amount together with the capacity that bounds
//! how much more may be added.

use vstd::prelude::*;

verus! {

/// Returned when adding an amount would push the supply past its capacity.
#[derive(Debug, PartialEq)]
pub struct NotEnoughSupplyError;

/// A supply account: `.0` is the amount in use, `.1` is the capacity.
///
/// The amount can only grow while it stays within the capacity; the capacity
/// itself may later shrink below the amount, which blocks further additions
/// but never destroys what is already stored.
pub struct Supply(u32, u32);

impl Supply {
    /// The amount, as contracts see it.
    pub closed spec fn spec_amount(&self) -> u32 {
        self.0
    }

    /// The capacity, as contracts see it.
    pub closed spec fn spec_capacity(&self) -> u32 {
        self.1
    }

    /// The amount currently in use.
    pub fn amount(&self) -> (r: u32)
        ensures
            r == self.spec_amount(),
    {
        self.0
    }

    /// The capacity that bounds the amount.
    pub fn capacity(&self) -> (r: u32)
        ensures
            r == self.spec_capacity(),
    {
        self.1
    }

    /// Adds `x` to the amount; fails, changing nothing, when the sum would
    /// exceed the capacity.
    pub fn add_amount(&mut self, x: u32) -> (r: Result<(), NotEnoughSupplyError>)
        ensures
            r is Ok <==> old(self).spec_amount() + x <= old(self).spec_capacity(),
            r is Ok ==> final(self).spec_amount() == old(self).spec_amount() + x,
            r is Err ==> final(self).spec_amount() == old(self).spec_amount(),
            final(self).spec_capacity() == old(self).spec_capacity(),
    {
        if self.0 as u64 + x as u64 > self.1 as u64 {
            return Err(NotEnoughSupplyError);
        }
        self.0 = self.0 + x;
        Ok(())
    }

    /// Raises the capacity by `x`.
    pub fn add_capacity(&mut self, x: u32)
        requires
            old(self).spec_capacity() + x <= u32::MAX,
        ensures
            final(self).spec_capacity() == old(self).spec_capacity() + x,
            final(self).spec_amount() == old(self).spec_amount(),
    {
        self.1 = self.1 + x;
    }

    /// Lowers the capacity by `x`, saturating at zero.
    pub fn remove_capacity(&mut self, x: u32)
        ensures
            final(self).spec_capacity() == if x > old(self).spec_capacity() { 0u32 } else { (old(self).spec_capacity() - x) as u32 },
            final(self).spec_amount() == old(self).spec_amount(),
    {
        if x > self.1 {
            self.1 = 0;
        } else {
            self.1 = self.1 - x;
        }
    }
}

impl Default for Supply {
    /// A fresh supply holds nothing and admits nothing.
    fn default() -> (r: Self)
        ensures
            r.spec_amount() == 0,
            r.spec_capacity() == 0,
    {
        Supply(0, 0)
    }
}

} // verus!
