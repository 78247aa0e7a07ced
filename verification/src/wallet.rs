//! Balance and locked-funds accounting.

use vstd::prelude::*;

verus! {

/// A trading wallet. `balance` is the total amount held; `locked` is the
/// part reserved against pending orders. The free amount is
/// `balance - locked`; it can fail to exist when realized losses push the
/// balance below the locked amount, which `free_balance` reports instead of
/// clamping.
#[derive(Clone, Copy, PartialEq, Eq, Structural, Debug)]
pub struct Wallet {
    /// Balance the wallet was constructed with, kept for `reset`.
    pub initial: u64,
    /// Total funds currently held.
    pub balance: u64,
    /// Funds reserved against pending orders.
    pub locked: u64,
}

impl Wallet {
    pub open spec fn spec_initial(self) -> u64 {
        self.initial
    }

    /// The free amount, as an integer that may be negative.
    pub open spec fn free_int(self) -> int {
        self.balance - self.locked
    }

    /// Creates a wallet holding `balance`, with nothing locked.
    pub fn new(balance: u64) -> (r: Wallet)
        ensures
            r == (Wallet { initial: balance, balance, locked: 0 }),
    {
        Wallet { initial: balance, balance, locked: 0 }
    }

    /// The funds available for new orders, or `None` when locked funds
    /// exceed the balance.
    pub fn free_balance(&self) -> (r: Option<u64>)
        ensures
            self.locked <= self.balance ==> r == Some((self.balance - self.locked) as u64),
            self.locked > self.balance ==> r is None,
    {
        if self.locked <= self.balance {
            Some(self.balance - self.locked)
        } else {
            None
        }
    }

    /// Adds funds, saturating at the largest representable balance.
    pub fn add(&mut self, amount: u64)
        ensures
            final(self).balance == if old(self).balance + amount <= u64::MAX {
                old(self).balance + amount
            } else {
                u64::MAX as int
            },
            final(self).locked == old(self).locked,
            final(self).initial == old(self).initial,
    {
        if self.balance <= u64::MAX - amount {
            self.balance = self.balance + amount;
        } else {
            self.balance = u64::MAX;
        }
    }

    /// Spends `amount` out of the free part of the balance. Succeeds and
    /// subtracts exactly when the free amount covers it; otherwise nothing
    /// changes.
    pub fn sub(&mut self, amount: u64) -> (ok: bool)
        ensures
            ok == (old(self).free_int() >= amount),
            ok ==> *final(self) == (Wallet {
                balance: (old(self).balance - amount) as u64,
                ..*old(self)
            }),
            !ok ==> *final(self) == *old(self),
    {
        if self.locked <= self.balance && self.balance - self.locked >= amount {
            self.balance = self.balance - amount;
            true
        } else {
            false
        }
    }

    /// Spends `amount` out of the total balance, ignoring locks. Succeeds
    /// exactly when the balance covers it; otherwise nothing changes.
    pub fn deduct(&mut self, amount: u64) -> (ok: bool)
        ensures
            ok == (old(self).balance >= amount),
            ok ==> *final(self) == (Wallet {
                balance: (old(self).balance - amount) as u64,
                ..*old(self)
            }),
            !ok ==> *final(self) == *old(self),
    {
        if self.balance >= amount {
            self.balance = self.balance - amount;
            true
        } else {
            false
        }
    }

    /// Reserves `amount` as locked. Succeeds and locks exactly when the free
    /// amount covers it; otherwise nothing changes.
    pub fn lock(&mut self, amount: u64) -> (ok: bool)
        ensures
            ok == (old(self).free_int() >= amount),
            ok ==> *final(self) == (Wallet {
                locked: (old(self).locked + amount) as u64,
                ..*old(self)
            }),
            !ok ==> *final(self) == *old(self),
    {
        if self.locked <= self.balance && self.balance - self.locked >= amount {
            self.locked = self.locked + amount;
            true
        } else {
            false
        }
    }

    /// Releases locked funds: lowers `locked` by `amount`, but never below
    /// zero.
    pub fn unlock(&mut self, amount: u64)
        ensures
            *final(self) == (Wallet {
                locked: if amount <= old(self).locked {
                    (old(self).locked - amount) as u64
                } else {
                    0
                },
                ..*old(self)
            }),
    {
        if amount <= self.locked {
            self.locked = self.locked - amount;
        } else {
            self.locked = 0;
        }
    }

    /// Restores the wallet to its construction-time state: the initial
    /// balance, with nothing locked.
    pub fn reset(&mut self)
        ensures
            *final(self) == (Wallet {
                balance: old(self).initial,
                locked: 0,
                ..*old(self)
            }),
    {
        self.balance = self.initial;
        self.locked = 0;
    }
}

} // verus!
