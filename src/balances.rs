//! Free and reserved balances per account: the currency the ledger charges
//! its minting fee in and settles purchases with.

use vstd::prelude::*;
use std::collections::HashMap;
use crate::types::{AccountId, Balance};

verus! {

broadcast use vstd::std_specs::hash::group_hash_axioms;

/// What an account holds: a spendable part and a part set aside.
#[derive(Clone, Copy, Debug, PartialEq, Eq, Structural)]
pub struct AccountData {
    pub free: Balance,
    pub reserved: Balance,
}

/// Why a currency operation was refused.
#[derive(Clone, Copy, Debug, PartialEq, Eq, Structural)]
pub enum BalanceError {
    /// The free balance is below the amount.
    InsufficientBalance,
    /// A balance would pass the largest representable amount.
    Overflow,
    /// The receiving account would hold less than the existential deposit.
    ExistentialDeposit,
    /// The paying account would hold less than the existential deposit.
    KeepAlive,
}

/// The balances of all accounts; an account never written holds nothing.
pub struct Balances {
    accounts: HashMap<AccountId, AccountData>,
    existential_deposit: Balance,
}

/// The abstract state of [`Balances`].
pub struct BalancesView {
    pub accounts: Map<AccountId, AccountData>,
    pub existential_deposit: Balance,
}

impl BalancesView {
    pub open spec fn account(self, who: AccountId) -> AccountData {
        if self.accounts.contains_key(who) {
            self.accounts[who]
        } else {
            AccountData { free: 0, reserved: 0 }
        }
    }

    pub open spec fn free(self, who: AccountId) -> Balance {
        self.account(who).free
    }

    pub open spec fn reserved(self, who: AccountId) -> Balance {
        self.account(who).reserved
    }

    pub open spec fn with_account(self, who: AccountId, data: AccountData) -> BalancesView {
        BalancesView { accounts: self.accounts.insert(who, data), ..self }
    }

    /// Whether `amount` can move from `who`'s free to its reserved balance.
    pub open spec fn can_reserve(self, who: AccountId, amount: Balance) -> bool {
        amount <= self.free(who) && self.reserved(who) + amount <= u128::MAX
    }

    /// The state after reserving `amount` of `who`'s funds.
    pub open spec fn reserve_spec(self, who: AccountId, amount: Balance) -> BalancesView {
        self.with_account(
            who,
            AccountData {
                free: (self.free(who) - amount) as Balance,
                reserved: (self.reserved(who) + amount) as Balance,
            },
        )
    }

    /// How much of `amount` unreserving can give back to `who`.
    pub open spec fn releasable(self, who: AccountId, amount: Balance) -> Balance {
        if amount <= self.reserved(who) {
            amount
        } else {
            self.reserved(who)
        }
    }

    /// The state after moving up to `amount` of `who`'s reserved funds back to
    /// its free balance, which saturates at the largest amount.
    pub open spec fn unreserve_spec(self, who: AccountId, amount: Balance) -> BalancesView {
        let actual = self.releasable(who, amount);
        if actual == 0 {
            self
        } else {
            self.with_account(
                who,
                AccountData {
                    free: if self.free(who) + actual <= u128::MAX {
                        (self.free(who) + actual) as Balance
                    } else {
                        u128::MAX
                    },
                    reserved: (self.reserved(who) - actual) as Balance,
                },
            )
        }
    }

    /// The outcome of a transfer that must leave the payer alive: `Ok` when it
    /// may go ahead, else the first rule that it breaks.
    pub open spec fn transfer_check(self, from: AccountId, to: AccountId, amount: Balance) -> Result<(), BalanceError> {
        if amount == 0 || from == to {
            Ok(())
        } else if self.free(from) < amount {
            Err(BalanceError::InsufficientBalance)
        } else if self.free(to) + amount > u128::MAX {
            Err(BalanceError::Overflow)
        } else if self.free(to) + amount + self.reserved(to) < self.existential_deposit {
            Err(BalanceError::ExistentialDeposit)
        } else if self.free(from) - amount + self.reserved(from) < self.existential_deposit {
            Err(BalanceError::KeepAlive)
        } else {
            Ok(())
        }
    }

    /// The state after a transfer that `transfer_check` allows.
    pub open spec fn transfer_spec(self, from: AccountId, to: AccountId, amount: Balance) -> BalancesView {
        if amount == 0 || from == to {
            self
        } else {
            let after_debit = self.with_account(
                from,
                AccountData { free: (self.free(from) - amount) as Balance, reserved: self.reserved(from) },
            );
            after_debit.with_account(
                to,
                AccountData { free: (self.free(to) + amount) as Balance, reserved: self.reserved(to) },
            )
        }
    }
}

impl View for Balances {
    type V = BalancesView;

    closed spec fn view(&self) -> BalancesView {
        BalancesView { accounts: self.accounts@, existential_deposit: self.existential_deposit }
    }
}

impl Balances {
    /// No account holds anything yet.
    pub fn new(existential_deposit: Balance) -> (r: Balances)
        ensures
            r@.accounts == Map::<AccountId, AccountData>::empty(),
            r@.existential_deposit == existential_deposit,
    {
        Balances { accounts: HashMap::new(), existential_deposit }
    }

    pub fn existential_deposit(&self) -> (r: Balance)
        ensures
            r == self@.existential_deposit,
    {
        self.existential_deposit
    }

    fn account(&self, who: AccountId) -> (r: AccountData)
        ensures
            r == self@.account(who),
    {
        match self.accounts.get(&who) {
            Some(d) => *d,
            None => AccountData { free: 0, reserved: 0 },
        }
    }

    fn put_account(&mut self, who: AccountId, data: AccountData)
        ensures
            final(self)@ == old(self)@.with_account(who, data),
    {
        self.accounts.insert(who, data);
    }

    /// The spendable balance of `who`.
    pub fn free_balance(&self, who: AccountId) -> (r: Balance)
        ensures
            r == self@.free(who),
    {
        self.account(who).free
    }

    /// The reserved balance of `who`.
    pub fn reserved_balance(&self, who: AccountId) -> (r: Balance)
        ensures
            r == self@.reserved(who),
    {
        self.account(who).reserved
    }

    /// Sets the free balance of `who`, keeping what it has reserved.
    pub fn set_free_balance(&mut self, who: AccountId, free: Balance)
        ensures
            final(self)@ == old(self)@.with_account(
                who,
                AccountData { free, reserved: old(self)@.reserved(who) },
            ),
    {
        let d = self.account(who);
        self.put_account(who, AccountData { free, reserved: d.reserved });
    }

    /// Whether `amount` of `who`'s free balance can be reserved.
    pub fn can_reserve(&self, who: AccountId, amount: Balance) -> (r: bool)
        ensures
            r == self@.can_reserve(who, amount),
    {
        let d = self.account(who);
        amount <= d.free && d.reserved.checked_add(amount).is_some()
    }

    /// Moves `amount` from the free to the reserved balance of `who`.
    pub fn reserve(&mut self, who: AccountId, amount: Balance) -> (r: Result<(), BalanceError>)
        ensures
            r == (if amount > old(self)@.free(who) {
                Err::<(), BalanceError>(BalanceError::InsufficientBalance)
            } else if !old(self)@.can_reserve(who, amount) {
                Err(BalanceError::Overflow)
            } else {
                Ok(())
            }),
            r is Ok ==> final(self)@ == old(self)@.reserve_spec(who, amount),
            r is Err ==> final(self)@ == old(self)@,
    {
        let d = self.account(who);
        if amount > d.free {
            return Err(BalanceError::InsufficientBalance);
        }
        match d.reserved.checked_add(amount) {
            Some(reserved) => {
                self.put_account(who, AccountData { free: d.free - amount, reserved });
                Ok(())
            },
            None => Err(BalanceError::Overflow),
        }
    }

    /// Moves up to `amount` from the reserved back to the free balance of
    /// `who`, and returns how much was moved.
    pub fn unreserve(&mut self, who: AccountId, amount: Balance) -> (r: Balance)
        ensures
            r == old(self)@.releasable(who, amount),
            final(self)@ == old(self)@.unreserve_spec(who, amount),
    {
        let d = self.account(who);
        let actual = if amount <= d.reserved {
            amount
        } else {
            d.reserved
        };
        if actual == 0 {
            return 0;
        }
        self.put_account(
            who,
            AccountData { free: d.free.saturating_add(actual), reserved: d.reserved - actual },
        );
        actual
    }

    /// Whether a transfer that keeps the payer alive may go ahead.
    pub fn transfer_check(&self, from: AccountId, to: AccountId, amount: Balance) -> (r: Result<(), BalanceError>)
        ensures
            r == self@.transfer_check(from, to, amount),
    {
        if amount == 0 || from == to {
            return Ok(());
        }
        let f = self.account(from);
        let t = self.account(to);
        if f.free < amount {
            return Err(BalanceError::InsufficientBalance);
        }
        let to_free = match t.free.checked_add(amount) {
            Some(v) => v,
            None => {
                return Err(BalanceError::Overflow);
            },
        };
        if to_free < self.existential_deposit && t.reserved < self.existential_deposit - to_free {
            return Err(BalanceError::ExistentialDeposit);
        }
        let from_free = f.free - amount;
        if from_free < self.existential_deposit && f.reserved < self.existential_deposit - from_free {
            return Err(BalanceError::KeepAlive);
        }
        Ok(())
    }

    /// Moves `amount` of free balance from `from` to `to`, refusing where the
    /// payer would be left below the existential deposit.
    pub fn transfer(&mut self, from: AccountId, to: AccountId, amount: Balance) -> (r: Result<(), BalanceError>)
        ensures
            r == old(self)@.transfer_check(from, to, amount),
            r is Ok ==> final(self)@ == old(self)@.transfer_spec(from, to, amount),
            r is Err ==> final(self)@ == old(self)@,
    {
        let check = self.transfer_check(from, to, amount);
        if check.is_err() || amount == 0 || from == to {
            return check;
        }
        let f = self.account(from);
        self.put_account(from, AccountData { free: f.free - amount, reserved: f.reserved });
        let t = self.account(to);
        self.put_account(to, AccountData { free: t.free + amount, reserved: t.reserved });
        Ok(())
    }
}

} // verus!
