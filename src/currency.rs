//! The currency that stakes and payouts move through.
use vstd::prelude::*;
use std::collections::HashMap;
use crate::types::{AccountId, Balance};

verus! {

broadcast use vstd::std_specs::hash::group_hash_axioms;

/// Why a transfer was refused.
#[derive(Clone, Copy, Debug, PartialEq, Eq, Structural)]
pub enum CurrencyError {
    /// The source holds less than the amount.
    InsufficientBalance,
    /// The source would be left below the minimum balance.
    KeepAlive,
    /// The destination would hold less than the minimum balance.
    ExistentialDeposit,
    /// The destination's balance would exceed the largest balance.
    Overflow,
}

/// How a transfer of `amount` from `source` to `dest` changes the balance of
/// `who`.
pub open spec fn transfer_delta(source: AccountId, dest: AccountId, amount: nat, who: AccountId) -> int {
    (if who == dest {
        amount as int
    } else {
        0
    }) - (if who == source {
        amount as int
    } else {
        0
    })
}

/// A ledger of balances that can move funds between accounts.
pub trait Currency {
    /// The free balance of `who`.
    spec fn balance_of(&self, who: AccountId) -> nat;

    /// The free balance of `who`.
    fn free_balance(&self, who: AccountId) -> (r: Balance)
        ensures
            r == self.balance_of(who),
    ;

    /// Moves `amount` from `source` to `dest`. A refused transfer changes no
    /// balance.
    fn transfer(&mut self, source: AccountId, dest: AccountId, amount: Balance) -> (r: Result<
        (),
        CurrencyError,
    >)
        ensures
            forall|who: AccountId|
                #![trigger final(self).balance_of(who)]
                final(self).balance_of(who) == old(self).balance_of(who) + if r is Ok {
                    transfer_delta(source, dest, amount as nat, who)
                } else {
                    0
                },
    ;
}

/// An in-memory ledger: accounts that are not listed hold nothing. Transfers
/// keep the source alive: it may not fall below the minimum balance, and the
/// destination must reach it.
pub struct Balances {
    accounts: HashMap<AccountId, Balance>,
    minimum_balance: Balance,
}

impl Balances {
    /// The balance of `who`.
    pub closed spec fn balance_spec(&self, who: AccountId) -> nat {
        if self.accounts@.contains_key(who) {
            self.accounts@[who] as nat
        } else {
            0
        }
    }

    /// The balance below which no account may be left by a transfer.
    pub closed spec fn minimum_balance_spec(&self) -> nat {
        self.minimum_balance as nat
    }

    /// An empty ledger with the given minimum balance.
    pub fn new(minimum_balance: Balance) -> (r: Balances)
        ensures
            forall|who: AccountId| r.balance_spec(who) == 0,
            r.minimum_balance_spec() == minimum_balance,
    {
        Balances { accounts: HashMap::new(), minimum_balance }
    }

    /// The balance below which no account may be left by a transfer.
    pub fn minimum_balance(&self) -> (r: Balance)
        ensures
            r == self.minimum_balance_spec(),
    {
        self.minimum_balance
    }

    /// The balance of `who`.
    pub fn balance(&self, who: AccountId) -> (r: Balance)
        ensures
            r == self.balance_spec(who),
    {
        match self.accounts.get(&who) {
            Some(b) => *b,
            None => 0,
        }
    }

    /// Sets the balance of `who` to `amount`.
    pub fn make_free_balance_be(&mut self, who: AccountId, amount: Balance)
        ensures
            final(self).balance_spec(who) == amount,
            forall|a: AccountId| a != who ==> final(self).balance_spec(a) == old(self).balance_spec(a),
            final(self).minimum_balance_spec() == old(self).minimum_balance_spec(),
    {
        self.accounts.insert(who, amount);
    }

    /// Moves `amount` from `source` to `dest`. Moving nothing, or to the source
    /// itself, succeeds and changes nothing. Otherwise it fails with
    /// `InsufficientBalance` where the source holds less than `amount`, with
    /// `KeepAlive` where it would be left below the minimum balance, with
    /// `Overflow` where the destination's balance would not fit, and with
    /// `ExistentialDeposit` where the destination would stay below the minimum
    /// balance.
    pub fn transfer_funds(&mut self, source: AccountId, dest: AccountId, amount: Balance) -> (r:
        Result<(), CurrencyError>)
        ensures
            final(self).minimum_balance_spec() == old(self).minimum_balance_spec(),
            ({
                let from = old(self).balance_spec(source);
                let to = old(self).balance_spec(dest);
                let min = old(self).minimum_balance_spec();
                r == if amount == 0 || source == dest {
                    Ok(())
                } else if from < amount {
                    Err(CurrencyError::InsufficientBalance)
                } else if from - amount < min {
                    Err(CurrencyError::KeepAlive)
                } else if to + amount > u128::MAX {
                    Err(CurrencyError::Overflow)
                } else if to + amount < min {
                    Err(CurrencyError::ExistentialDeposit)
                } else {
                    Ok::<(), CurrencyError>(())
                }
            }),
            forall|who: AccountId|
                #![trigger final(self).balance_spec(who)]
                final(self).balance_spec(who) == old(self).balance_spec(who) + if r is Ok {
                    transfer_delta(source, dest, amount as nat, who)
                } else {
                    0
                },
    {
        if amount == 0 || source == dest {
            return Ok(());
        }
        let from = self.balance(source);
        let to = self.balance(dest);
        if from < amount {
            return Err(CurrencyError::InsufficientBalance);
        }
        if from - amount < self.minimum_balance {
            return Err(CurrencyError::KeepAlive);
        }
        let new_to = match to.checked_add(amount) {
            Some(t) => t,
            None => {
                return Err(CurrencyError::Overflow);
            },
        };
        if new_to < self.minimum_balance {
            return Err(CurrencyError::ExistentialDeposit);
        }
        self.accounts.insert(source, from - amount);
        self.accounts.insert(dest, new_to);
        Ok(())
    }
}

impl Currency for Balances {
    closed spec fn balance_of(&self, who: AccountId) -> nat {
        self.balance_spec(who)
    }

    fn free_balance(&self, who: AccountId) -> (r: Balance) {
        self.balance(who)
    }

    fn transfer(&mut self, source: AccountId, dest: AccountId, amount: Balance) -> (r: Result<
        (),
        CurrencyError,
    >) {
        self.transfer_funds(source, dest, amount)
    }
}

} // verus!
