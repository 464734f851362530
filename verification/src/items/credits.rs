use vstd::prelude::*;

verus! {

/// Total credits belonging to an entity
#[derive(Clone, Copy, Debug, Default)]
pub struct Credits(usize);

/// Errors for `Credits` transactions
#[derive(Debug, Clone, Copy, PartialEq, Eq)]
pub enum CreditsError {
    /// Insufficient credits
    InsufficientCredits,
}

impl Credits {
    /// The number of credits held
    pub closed spec fn amount(self) -> nat {
        self.0 as nat
    }

    /// Gets the credits value
    pub fn get(&self) -> (r: usize)
        ensures
            r == self.amount(),
    {
        self.0
    }

    /// Create a new `Credits` component with `amount` credits
    pub fn new(amount: usize) -> (r: Self)
        ensures
            r.amount() == amount,
    {
        Self(amount)
    }

    /// Transfer from this store to another `Credits`. Errors if insufficient funds.
    pub fn transfer(&mut self, other: &mut Self, amount: usize) -> (r: Result<(), CreditsError>)
        requires
            old(self).amount() < amount || old(other).amount() + amount <= usize::MAX,
        ensures
            r is Err <==> old(self).amount() < amount,
            r is Err ==> *final(self) == *old(self) && *final(other) == *old(other),
            r is Ok ==> final(self).amount() == old(self).amount() - amount
                && final(other).amount() == old(other).amount() + amount,
            // credits are never created or lost
            final(self).amount() + final(other).amount() == old(self).amount() + old(other).amount(),
    {
        if self.0 < amount {
            Err(CreditsError::InsufficientCredits)
        } else {
            self.0 -= amount;
            other.0 += amount;
            Ok(())
        }
    }
}

} // verus!
