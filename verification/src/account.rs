//! Per-client account state: an available balance, a held balance locked by
//! open disputes, and a frozen flag set by chargebacks.
//!
//! Balances are fixed-point decimal amounts represented as signed integer
//! counts of the smallest currency unit, so all balance arithmetic is exact
//! integer arithmetic.

use vstd::prelude::*;

use crate::transaction::Error;

verus! {

/// A fixed-point decimal amount, as an integer count of the smallest
/// currency unit.
pub type Amount = i128;

/// Balance and status of one client account.
#[derive(Clone, Copy, Debug, PartialEq, Eq, Structural)]
pub struct Account {
    /// Funds the client may freely withdraw or place under dispute.
    pub available: Amount,
    /// Funds locked by open disputes, excluded from `available`.
    pub held: Amount,
    /// Set by a chargeback, never cleared; blocks deposits, withdrawals and
    /// disputes.
    pub frozen: bool,
}

impl Default for Account {
    /// A fresh account: zero balances, not frozen.
    fn default() -> (r: Self)
        ensures
            r.available == 0,
            r.held == 0,
            !r.frozen,
    {
        Account { available: 0, held: 0, frozen: false }
    }
}

impl Account {
    /// Unconditionally adds `amount` to the available balance.
    pub fn increase_available(&mut self, amount: Amount)
        requires
            i128::MIN <= old(self).available + amount <= i128::MAX,
        ensures
            final(self).available == old(self).available + amount,
            final(self).held == old(self).held,
            final(self).frozen == old(self).frozen,
    {
        self.available = self.available + amount;
    }

    /// Unconditionally subtracts `amount` from the available balance.
    pub fn decrease_available(&mut self, amount: Amount)
        requires
            i128::MIN <= old(self).available - amount <= i128::MAX,
        ensures
            final(self).available == old(self).available - amount,
            final(self).held == old(self).held,
            final(self).frozen == old(self).frozen,
    {
        self.available = self.available - amount;
    }

    /// Unconditionally adds `amount` to the held balance.
    pub fn increase_held(&mut self, amount: Amount)
        requires
            i128::MIN <= old(self).held + amount <= i128::MAX,
        ensures
            final(self).held == old(self).held + amount,
            final(self).available == old(self).available,
            final(self).frozen == old(self).frozen,
    {
        self.held = self.held + amount;
    }

    /// Unconditionally subtracts `amount` from the held balance.
    pub fn decrease_held(&mut self, amount: Amount)
        requires
            i128::MIN <= old(self).held - amount <= i128::MAX,
        ensures
            final(self).held == old(self).held - amount,
            final(self).available == old(self).available,
            final(self).frozen == old(self).frozen,
    {
        self.held = self.held - amount;
    }

    /// Withdraws `amount` from the available balance, failing with
    /// `InsufficientFunds` (and changing nothing) when the balance is short.
    pub fn withdraw(&mut self, amount: Amount) -> (r: Result<(), Error>)
        requires
            amount >= 0,
        ensures
            old(self).available >= amount ==> {
                &&& r is Ok
                &&& final(self).available == old(self).available - amount
                &&& final(self).held == old(self).held
                &&& final(self).frozen == old(self).frozen
            },
            old(self).available < amount ==> {
                &&& r == Result::<(), Error>::Err(Error::InsufficientFunds)
                &&& *final(self) == *old(self)
            },
    {
        if self.available >= amount {
            self.available = self.available - amount;
            Ok(())
        } else {
            Err(Error::InsufficientFunds)
        }
    }

    /// Marks the account frozen; idempotent.
    pub fn freeze(&mut self)
        ensures
            final(self).frozen,
            final(self).available == old(self).available,
            final(self).held == old(self).held,
    {
        self.frozen = true;
    }

    /// Guard used before mutations: fails with `AccountFrozen` on a frozen
    /// account and has no effect otherwise.
    pub fn check_frozen_mut(&mut self) -> (r: Result<(), Error>)
        ensures
            *final(self) == *old(self),
            r == if old(self).frozen {
                Result::<(), Error>::Err(Error::AccountFrozen)
            } else {
                Result::<(), Error>::Ok(())
            },
    {
        if self.frozen {
            Err(Error::AccountFrozen)
        } else {
            Ok(())
        }
    }

    /// The available balance.
    pub fn available(&self) -> (r: Amount)
        ensures
            r == self.available,
    {
        self.available
    }

    /// The held balance.
    pub fn held(&self) -> (r: Amount)
        ensures
            r == self.held,
    {
        self.held
    }

    /// Whether the account is frozen.
    pub fn frozen(&self) -> (r: bool)
        ensures
            r == self.frozen,
    {
        self.frozen
    }
}

} // verus!
