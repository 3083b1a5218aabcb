//! A fungible token: balances, allowances that let one account spend
//! another's tokens, and a log of transfers and approvals.

use vstd::prelude::*;
use std::collections::HashMap;
use crate::types::{AccountId, Balance};

verus! {

broadcast use vstd::std_specs::hash::group_hash_axioms;

/// Tokens moved: `from` is `None` where they were created.
#[derive(Clone, Copy, Debug, PartialEq, Eq, Structural)]
pub struct Transfer {
    pub from: Option<AccountId>,
    pub to: Option<AccountId>,
    pub value: Balance,
}

/// `owner` allowed `spender` to spend up to `value` of its tokens.
#[derive(Clone, Copy, Debug, PartialEq, Eq, Structural)]
pub struct Approval {
    pub owner: AccountId,
    pub spender: AccountId,
    pub value: Balance,
}

/// An entry of the token's log.
#[derive(Clone, Copy, Debug, PartialEq, Eq, Structural)]
pub enum TokenEvent {
    Transfer(Transfer),
    Approval(Approval),
}

/// Why a token operation was refused. A refused operation changes nothing.
#[derive(Clone, Copy, Debug, PartialEq, Eq, Structural)]
pub enum Error {
    /// The payer holds less than the amount.
    InsufficientBalance,
    /// The spender may spend less than the amount.
    InsufficientApproval,
}

/// The token's state.
pub struct Erc20 {
    total_supply: Balance,
    balances: HashMap<AccountId, Balance>,
    allowances: HashMap<AccountId, HashMap<AccountId, Balance>>,
    events: Vec<TokenEvent>,
    /// Every account that has held a balance, each once.
    holders: Ghost<Seq<AccountId>>,
}

/// What `m` records for `k`, as an integer; nothing is zero.
pub open spec fn held(m: Map<AccountId, Balance>, k: AccountId) -> int {
    if m.contains_key(k) {
        m[k] as int
    } else {
        0
    }
}

/// The sum of what `m` records for the accounts in `keys`.
pub open spec fn sum_held(m: Map<AccountId, Balance>, keys: Seq<AccountId>) -> int
    decreases keys.len(),
{
    if keys.len() == 0 {
        0
    } else {
        sum_held(m, keys.drop_last()) + held(m, keys.last())
    }
}

/// Changing the value at `k` changes the sum by the difference, where `k` is
/// among the keys.
proof fn lemma_sum_update(m: Map<AccountId, Balance>, keys: Seq<AccountId>, k: AccountId, v: Balance)
    requires
        keys.no_duplicates(),
    ensures
        sum_held(m.insert(k, v), keys) == sum_held(m, keys) + (if keys.contains(k) {
            v - held(m, k)
        } else {
            0
        }),
    decreases keys.len(),
{
    if keys.len() > 0 {
        let p = keys.drop_last();
        assert(p.no_duplicates());
        lemma_sum_update(m, p, k, v);
        if keys.last() == k {
            assert(!p.contains(k)) by {
                if p.contains(k) {
                    let i = choose|i: int| 0 <= i < p.len() && p[i] == k;
                    assert(keys[i] == keys[keys.len() - 1]);
                }
            }
        } else {
            assert(keys.contains(k) ==> p.contains(k)) by {
                if keys.contains(k) {
                    let i = choose|i: int| 0 <= i < keys.len() && keys[i] == k;
                    assert(p[i] == k);
                }
            }
            assert(p.contains(k) ==> keys.contains(k)) by {
                if p.contains(k) {
                    let i = choose|i: int| 0 <= i < p.len() && p[i] == k;
                    assert(keys[i] == k);
                }
            }
        }
    }
}

/// `keys` with `k` added at the end unless it is there already.
pub open spec fn with_holder(keys: Seq<AccountId>, k: AccountId) -> Seq<AccountId> {
    if keys.contains(k) {
        keys
    } else {
        keys.push(k)
    }
}

/// Listing one more account that holds nothing keeps the list repeat-free,
/// keeps every listed account, and keeps the sum.
proof fn lemma_with_holder(m: Map<AccountId, Balance>, keys: Seq<AccountId>, k: AccountId)
    requires
        keys.no_duplicates(),
        !keys.contains(k) ==> held(m, k) == 0,
    ensures
        with_holder(keys, k).no_duplicates(),
        with_holder(keys, k).contains(k),
        forall|x: AccountId| keys.contains(x) ==> #[trigger] with_holder(keys, k).contains(x),
        sum_held(m, with_holder(keys, k)) == sum_held(m, keys),
{
    if !keys.contains(k) {
        let h = keys.push(k);
        assert(h.drop_last() =~= keys);
        assert(h[keys.len() as int] == k);
        assert forall|i: int, j: int| 0 <= i < j < h.len() implies h[i] != h[j] by {
            if j == keys.len() {
                assert(keys.contains(keys[i]));
            }
        }
        assert forall|x: AccountId| keys.contains(x) implies #[trigger] h.contains(x) by {
            let i = choose|i: int| 0 <= i < keys.len() && keys[i] == x;
            assert(h[i] == x);
        }
    }
}

/// What two distinct listed accounts hold together is at most the sum.
proof fn lemma_sum_bounds(m: Map<AccountId, Balance>, keys: Seq<AccountId>, a: AccountId, b: AccountId)
    requires
        keys.no_duplicates(),
    ensures
        sum_held(m, keys) >= 0,
        keys.contains(a) ==> held(m, a) <= sum_held(m, keys),
        keys.contains(a) && keys.contains(b) && a != b ==> held(m, a) + held(m, b) <= sum_held(m, keys),
    decreases keys.len(),
{
    if keys.len() > 0 {
        let p = keys.drop_last();
        let l = keys.last();
        assert(p.no_duplicates());
        lemma_sum_bounds(m, p, a, b);
        lemma_sum_bounds(m, p, b, a);
        assert forall|x: AccountId| keys.contains(x) && x != l implies p.contains(x) by {
            let i = choose|i: int| 0 <= i < keys.len() && keys[i] == x;
            assert(p[i] == x);
        }
    }
}

/// The abstract state of an [`Erc20`].
pub struct Erc20View {
    pub total_supply: Balance,
    pub balances: Map<AccountId, Balance>,
    pub allowances: Map<(AccountId, AccountId), Balance>,
    pub events: Seq<TokenEvent>,
}

impl Erc20View {
    /// What `who` holds; an account never written holds nothing.
    pub open spec fn balance(self, who: AccountId) -> Balance {
        if self.balances.contains_key(who) {
            self.balances[who]
        } else {
            0
        }
    }

    /// How much `spender` may still spend of `owner`'s tokens.
    pub open spec fn allowance(self, owner: AccountId, spender: AccountId) -> Balance {
        if self.allowances.contains_key((owner, spender)) {
            self.allowances[(owner, spender)]
        } else {
            0
        }
    }

    /// The outcome of moving `value` from `from` to `to`.
    pub open spec fn transfer_outcome(self, from: AccountId, to: AccountId, value: Balance) -> Result<(), Error> {
        if self.balance(from) < value {
            Err(Error::InsufficientBalance)
        } else {
            Ok(())
        }
    }

    /// The state after a transfer that `transfer_outcome` allows.
    pub open spec fn transfer_spec(self, from: AccountId, to: AccountId, value: Balance) -> Erc20View {
        let debited = self.balances.insert(from, (self.balance(from) - value) as Balance);
        let to_before = if debited.contains_key(to) {
            debited[to]
        } else {
            0
        };
        Erc20View {
            balances: debited.insert(to, (to_before + value) as Balance),
            events: self.events.push(
                TokenEvent::Transfer(Transfer { from: Some(from), to: Some(to), value }),
            ),
            ..self
        }
    }
}

impl View for Erc20 {
    type V = Erc20View;

    closed spec fn view(&self) -> Erc20View {
        Erc20View {
            total_supply: self.total_supply,
            balances: self.balances@,
            allowances: Map::new(
                |k: (AccountId, AccountId)|
                    self.allowances@.contains_key(k.0) && self.allowances@[k.0]@.contains_key(k.1),
                |k: (AccountId, AccountId)| self.allowances@[k.0]@[k.1],
            ),
            events: self.events@,
        }
    }
}

impl Erc20 {
    /// The balances add up to the total supply, summed over a repeat-free list
    /// of accounts that holds every account with a recorded balance.
    pub closed spec fn wf(&self) -> bool {
        &&& self.holders@.no_duplicates()
        &&& forall|k: AccountId| #[trigger] self.balances@.contains_key(k) ==> self.holders@.contains(k)
        &&& sum_held(self.balances@, self.holders@) == self.total_supply as int
    }

    /// No account holds more than the total supply.
    pub proof fn lemma_balance_within_supply(&self, who: AccountId)
        requires
            self.wf(),
        ensures
            self@.balance(who) <= self@.total_supply,
    {
        lemma_sum_bounds(self.balances@, self.holders@, who, who);
        if self.balances@.contains_key(who) {
            assert(self.holders@.contains(who));
        }
    }

    /// A token whose whole `supply` is created in `caller`'s account.
    pub fn new(caller: AccountId, supply: Balance) -> (r: Erc20)
        ensures
            r.wf(),
            r@.total_supply == supply,
            r@.balances == Map::<AccountId, Balance>::empty().insert(caller, supply),
            r@.allowances == Map::<(AccountId, AccountId), Balance>::empty(),
            r@.events == seq![TokenEvent::Transfer(Transfer { from: None, to: Some(caller), value: supply })],
    {
        let mut balances: HashMap<AccountId, Balance> = HashMap::new();
        balances.insert(caller, supply);
        let mut events: Vec<TokenEvent> = Vec::new();
        events.push(TokenEvent::Transfer(Transfer { from: None, to: Some(caller), value: supply }));
        let r = Erc20 {
            total_supply: supply,
            balances,
            allowances: HashMap::new(),
            events,
            holders: Ghost(Seq::empty().push(caller)),
        };
        proof {
            let h = r.holders@;
            assert(h.drop_last() =~= Seq::<AccountId>::empty());
            assert(sum_held(r.balances@, h.drop_last()) == 0);
            assert(h[0] == caller);
            assert forall|k: AccountId| #[trigger] r.balances@.contains_key(k) implies h.contains(k) by {
                assert(h[0] == k);
            }
        }
        assert(r@.allowances =~= Map::<(AccountId, AccountId), Balance>::empty());
        assert(r@.balances =~= Map::<AccountId, Balance>::empty().insert(caller, supply));
        r
    }

    pub fn total_supply(&self) -> (r: Balance)
        ensures
            r == self@.total_supply,
    {
        self.total_supply
    }

    pub fn balance_of(&self, who: AccountId) -> (r: Balance)
        ensures
            r == self@.balance(who),
    {
        match self.balances.get(&who) {
            Some(b) => *b,
            None => 0,
        }
    }

    pub fn allowance(&self, owner: AccountId, spender: AccountId) -> (r: Balance)
        ensures
            r == self@.allowance(owner, spender),
    {
        match self.allowances.get(&owner) {
            Some(inner) => match inner.get(&spender) {
                Some(v) => *v,
                None => 0,
            },
            None => 0,
        }
    }

    /// The log, oldest first.
    pub fn events(&self) -> (r: &Vec<TokenEvent>)
        ensures
            r@ == self@.events,
    {
        &self.events
    }

    fn set_allowance(&mut self, owner: AccountId, spender: AccountId, value: Balance)
        requires
            old(self).wf(),
        ensures
            final(self).wf(),
            final(self)@ == (Erc20View {
                allowances: old(self)@.allowances.insert((owner, spender), value),
                ..old(self)@
            }),
    {
        let mut inner = match self.allowances.remove(&owner) {
            Some(m) => m,
            None => HashMap::new(),
        };
        inner.insert(spender, value);
        self.allowances.insert(owner, inner);
        assert(self@.allowances =~= old(self)@.allowances.insert((owner, spender), value));
    }

    /// `caller` sends `value` of its tokens to `to`.
    pub fn transfer(&mut self, caller: AccountId, to: AccountId, value: Balance) -> (r: Result<(), Error>)
        requires
            old(self).wf(),
        ensures
            final(self).wf(),
            r == old(self)@.transfer_outcome(caller, to, value),
            r is Ok ==> final(self)@ == old(self)@.transfer_spec(caller, to, value),
            r is Err ==> final(self)@ == old(self)@,
    {
        self.inner_transfer(caller, to, value)
    }

    /// `caller` allows `to` to spend up to `value` of its tokens, replacing
    /// any earlier allowance.
    pub fn approve(&mut self, caller: AccountId, to: AccountId, value: Balance) -> (r: Result<(), Error>)
        requires
            old(self).wf(),
        ensures
            final(self).wf(),
            r is Ok,
            final(self)@ == (Erc20View {
                allowances: old(self)@.allowances.insert((caller, to), value),
                events: old(self)@.events.push(
                    TokenEvent::Approval(Approval { owner: caller, spender: to, value }),
                ),
                ..old(self)@
            }),
    {
        self.set_allowance(caller, to, value);
        self.events.push(TokenEvent::Approval(Approval { owner: caller, spender: to, value }));
        Ok(())
    }

    /// `caller` spends `value` of `from`'s tokens, sending them to `to`, within
    /// the allowance `from` gave it, which shrinks by `value`.
    pub fn transfer_from(&mut self, caller: AccountId, from: AccountId, to: AccountId, value: Balance) -> (r: Result<(), Error>)
        requires
            old(self).wf(),
        ensures
            final(self).wf(),
            r == (if old(self)@.allowance(from, caller) < value {
                Err::<(), Error>(Error::InsufficientApproval)
            } else {
                old(self)@.transfer_outcome(from, to, value)
            }),
            r is Ok ==> final(self)@ == (Erc20View {
                allowances: old(self)@.allowances.insert(
                    (from, caller),
                    (old(self)@.allowance(from, caller) - value) as Balance,
                ),
                ..old(self)@.transfer_spec(from, to, value)
            }),
            r is Err ==> final(self)@ == old(self)@,
    {
        let allowance = self.allowance(from, caller);
        if allowance < value {
            return Err(Error::InsufficientApproval);
        }
        match self.inner_transfer(from, to, value) {
            Ok(()) => {},
            Err(e) => {
                return Err(e);
            },
        }
        self.set_allowance(from, caller, allowance - value);
        Ok(())
    }

    /// Moves `value` from `from` to `to` and logs it.
    pub fn inner_transfer(&mut self, from: AccountId, to: AccountId, value: Balance) -> (r: Result<(), Error>)
        requires
            old(self).wf(),
        ensures
            final(self).wf(),
            r == old(self)@.transfer_outcome(from, to, value),
            r is Ok ==> final(self)@ == old(self)@.transfer_spec(from, to, value),
            r is Err ==> final(self)@ == old(self)@,
    {
        let from_balance = self.balance_of(from);
        if from_balance < value {
            return Err(Error::InsufficientBalance);
        }
        let ghost m0 = self.balances@;
        let ghost h0 = self.holders@;
        let ghost h1 = with_holder(with_holder(h0, from), to);
        proof {
            assert(!h0.contains(from) ==> !m0.contains_key(from));
            lemma_with_holder(m0, h0, from);
            let hf = with_holder(h0, from);
            assert(!hf.contains(to) ==> !h0.contains(to));
            assert(!hf.contains(to) ==> !m0.contains_key(to));
            lemma_with_holder(m0, hf, to);
            assert(h1.contains(from));
            lemma_sum_bounds(m0, h1, from, to);
        }
        self.holders = Ghost(h1);
        self.balances.insert(from, from_balance - value);
        proof {
            lemma_sum_update(m0, self.holders@, from, (from_balance - value) as Balance);
        }
        let to_balance = self.balance_of(to);
        let ghost m1 = self.balances@;
        self.balances.insert(to, to_balance + value);
        proof {
            lemma_sum_update(m1, self.holders@, to, (to_balance + value) as Balance);
        }
        self.events.push(TokenEvent::Transfer(Transfer { from: Some(from), to: Some(to), value }));
        assert(self@.allowances =~= old(self)@.allowances);
        Ok(())
    }
}

} // verus!
