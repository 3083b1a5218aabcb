//! The ledger: kitty records, the per-account ownership index, the currency
//! and the event log, with the operations that change them.

use vstd::prelude::*;
use std::collections::HashMap;
use crate::balances::{Balances, BalancesView};
use crate::dna::{dna_from_seed, gen_dna, gen_gender, gender_from_seed, mix_dna, mix_dna_bytes};
use crate::types::{AccountId, Balance, Config, Entropy, Error, Event, Gender, Kitty, KittyIndex};

verus! {

broadcast use {vstd::std_specs::hash::group_hash_axioms, vstd::array::group_array_axioms};

/// The ledger. Kitty `i` is stored at position `i` of `kitties`, so the
/// number of kitties is also the next id to be handed out; the ownership
/// index lists, for each account, the ids of the kitties it owns.
pub struct Pallet {
    config: Config,
    kitties: Vec<Kitty>,
    kitties_owned: HashMap<AccountId, Vec<KittyIndex>>,
    balances: Balances,
    events: Vec<Event>,
}

/// The abstract state of a [`Pallet`].
pub struct PalletView {
    pub config: Config,
    pub kitties: Seq<Kitty>,
    pub owned: Map<AccountId, Seq<KittyIndex>>,
    pub balances: BalancesView,
    pub events: Seq<Event>,
}

/// `s` with the one occurrence of `id` taken out: the last element takes its
/// place.
pub open spec fn remove_id(s: Seq<KittyIndex>, id: KittyIndex) -> Seq<KittyIndex> {
    s.update(s.index_of(id), s.last()).drop_last()
}

/// The genome a new kitty gets: the one supplied, else one generated.
pub open spec fn chosen_dna(dna: Option<[u8; 16]>, e: Entropy) -> Seq<u8> {
    match dna {
        Some(d) => d@,
        None => dna_from_seed(e.dna_seed@, e.block_number),
    }
}

/// The gender a new kitty gets: the one supplied, else one generated.
pub open spec fn chosen_gender(gender: Option<Gender>, e: Entropy) -> Gender {
    match gender {
        Some(g) => g,
        None => gender_from_seed(e.gender_seed@),
    }
}

impl PalletView {
    /// The ids owned by `a`, in the index's order.
    pub open spec fn owned_of(self, a: AccountId) -> Seq<KittyIndex> {
        if self.owned.contains_key(a) {
            self.owned[a]
        } else {
            Seq::empty()
        }
    }

    /// The number of kitties minted so far, which is the next id.
    pub open spec fn count(self) -> nat {
        self.kitties.len()
    }

    pub open spec fn has_kitty(self, id: KittyIndex) -> bool {
        id < self.kitties.len()
    }

    pub open spec fn kitty(self, id: KittyIndex) -> Kitty {
        self.kitties[id as int]
    }

    pub open spec fn is_full(self, a: AccountId) -> bool {
        self.owned_of(a).len() >= self.config.max_kitty_owned
    }

    /// The ledger is consistent: each account's list is free of repeats and
    /// within the cap; every listed id names a kitty that the account owns;
    /// every kitty is listed under its owner.
    pub open spec fn wf(self) -> bool {
        &&& self.kitties.len() <= u64::MAX
        &&& forall|a: AccountId|
            #![trigger self.owned_of(a)]
            self.owned_of(a).no_duplicates() && self.owned_of(a).len()
                <= self.config.max_kitty_owned
        &&& forall|a: AccountId, j: int|
            0 <= j < self.owned_of(a).len() ==> {
                &&& (#[trigger] self.owned_of(a)[j]) < self.kitties.len()
                &&& self.kitties[self.owned_of(a)[j] as int].owner == a
            }
        &&& forall|id: int|
            0 <= id < self.kitties.len() ==> self.owned_of(
                (#[trigger] self.kitties[id]).owner,
            ).contains(id as KittyIndex)
    }

    /// The state after a new kitty is appended for `owner`.
    pub open spec fn insert_spec(self, owner: AccountId, dna: Seq<u8>, gender: Gender, new: PalletView) -> bool {
        let id = self.kitties.len() as int;
        &&& new.config == self.config
        &&& new.kitties.len() == id + 1
        &&& new.kitties.drop_last() == self.kitties
        &&& new.kitties[id].dna@ == dna
        &&& new.kitties[id].gender == gender
        &&& new.kitties[id].price == None::<Balance>
        &&& new.kitties[id].owner == owner
        &&& new.owned == self.owned.insert(owner, self.owned_of(owner).push(id as KittyIndex))
    }

    /// What minting for `owner` returns: the next id, unless the counter is
    /// exhausted or `owner` has no room.
    pub open spec fn mint_outcome(self, owner: AccountId) -> Result<KittyIndex, Error> {
        if self.count() == u64::MAX {
            Err(Error::KittiesCountOverflow)
        } else if self.is_full(owner) {
            Err(Error::ExceedMaxKittyOwned)
        } else {
            Ok(self.count() as KittyIndex)
        }
    }

    /// What creating a kitty for `who` returns: minting's outcome, unless the
    /// reservation fee cannot be reserved from `who`.
    pub open spec fn create_outcome(self, who: AccountId) -> Result<KittyIndex, Error> {
        if !self.balances.can_reserve(who, self.config.reservation_fee) {
            Err(Error::NotEnoughBalance)
        } else {
            self.mint_outcome(who)
        }
    }

    /// What checking that `who` owns kitty `id` returns.
    pub open spec fn owner_check(self, id: KittyIndex, who: AccountId) -> Result<(), Error> {
        if !self.has_kitty(id) {
            Err(Error::KittyNotExist)
        } else if self.kitty(id).owner != who {
            Err(Error::NotKittyOwner)
        } else {
            Ok(())
        }
    }

    /// What `from` transferring kitty `id` to `to` returns.
    pub open spec fn transfer_outcome(self, from: AccountId, to: AccountId, id: KittyIndex) -> Result<(), Error> {
        if self.owner_check(id, from) is Err {
            self.owner_check(id, from)
        } else if from == to {
            Err(Error::TransferToSelf)
        } else if self.is_full(to) {
            Err(Error::ExceedMaxKittyOwned)
        } else {
            Ok(())
        }
    }

    /// What `buyer` bidding `bid` for kitty `id` returns: the price paid, or
    /// the first rule that the purchase breaks.
    pub open spec fn buy_outcome(self, buyer: AccountId, id: KittyIndex, bid: Balance) -> Result<Balance, Error> {
        if !self.has_kitty(id) {
            Err(Error::KittyNotExist)
        } else if self.kitty(id).owner == buyer {
            Err(Error::BuyerIsKittyOwner)
        } else if self.kitty(id).price is None {
            Err(Error::KittyNotForSale)
        } else if self.kitty(id).price.unwrap() > bid {
            Err(Error::KittyBidPriceTooLow)
        } else if self.balances.free(buyer) < bid {
            Err(Error::NotEnoughBalance)
        } else if self.is_full(buyer) {
            Err(Error::ExceedMaxKittyOwned)
        } else if self.balances.transfer_check(buyer, self.kitty(id).owner, bid) is Err {
            Err(Error::NotEnoughBalance)
        } else {
            Ok(bid)
        }
    }

    /// The state after a purchase that `buy_outcome` allows: the bid moves
    /// from buyer to seller, the kitty moves to the buyer off sale, and up to
    /// one reservation fee of the buyer's reserved balance is released.
    pub open spec fn buy_spec(self, buyer: AccountId, id: KittyIndex, bid: Balance) -> PalletView {
        let seller = self.kitty(id).owner;
        let paid = self.balances.transfer_spec(buyer, seller, bid);
        let fee = self.config.reservation_fee;
        PalletView {
            balances: paid.unreserve_spec(buyer, fee),
            events: self.events.push(
                Event::KittyBought(buyer, seller, id, bid, paid.releasable(buyer, fee)),
            ),
            ..self.move_spec(id, buyer)
        }
    }

    /// What breeding kitties `p1` and `p2` for `who` returns.
    pub open spec fn breed_outcome(self, who: AccountId, p1: KittyIndex, p2: KittyIndex) -> Result<KittyIndex, Error> {
        if self.owner_check(p1, who) is Err {
            Err(self.owner_check(p1, who)->Err_0)
        } else if self.owner_check(p2, who) is Err {
            Err(self.owner_check(p2, who)->Err_0)
        } else {
            self.create_outcome(who)
        }
    }

    /// The state after kitty `id` moves to `to`, its price cleared.
    pub open spec fn move_spec(self, id: KittyIndex, to: AccountId) -> PalletView {
        let k = self.kitty(id);
        let removed = self.owned.insert(k.owner, remove_id(self.owned_of(k.owner), id));
        let to_list = if removed.contains_key(to) {
            removed[to]
        } else {
            Seq::empty()
        };
        PalletView {
            kitties: self.kitties.update(id as int, Kitty { owner: to, price: None, ..k }),
            owned: removed.insert(to, to_list.push(id)),
            ..self
        }
    }
}

/// Taking `id` out of a repeat-free list that holds it shortens the list by
/// one, keeps it repeat-free, and keeps every other element.
proof fn lemma_remove_id(s: Seq<KittyIndex>, id: KittyIndex)
    requires
        s.no_duplicates(),
        s.contains(id),
    ensures
        remove_id(s, id).len() == s.len() - 1,
        remove_id(s, id).no_duplicates(),
        forall|x: KittyIndex| #[trigger] remove_id(s, id).contains(x) <==> (s.contains(x) && x != id),
{
    let p = s.index_of(id);
    let n = s.len() - 1;
    let r = remove_id(s, id);
    assert(0 <= p < s.len() && s[p] == id);
    assert forall|i: int| 0 <= i < n implies #[trigger] r[i] == (if i == p { s[n] } else { s[i] }) by {}
    assert forall|x: KittyIndex| #[trigger] r.contains(x) <==> (s.contains(x) && x != id) by {
        if r.contains(x) {
            let i = choose|i: int| 0 <= i < n && r[i] == x;
            if i == p {
                assert(s[n] == x);
            } else {
                assert(s[i] == x);
            }
        }
        if s.contains(x) && x != id {
            let k = choose|k: int| 0 <= k < s.len() && s[k] == x;
            if k < n {
                assert(r[k] == x);
            } else {
                assert(r[p] == x);
            }
        }
    }
    assert forall|i: int, j: int| 0 <= i < n && 0 <= j < n && i != j implies r[i] != r[j] by {
        let ii = if i == p { n } else { i };
        let jj = if j == p { n } else { j };
        assert(r[i] == s[ii] && r[j] == s[jj]);
    }
}

/// Moving an existing kitty to an account with room, or to its own owner,
/// keeps the ledger consistent.
proof fn lemma_move_preserves_wf(v: PalletView, id: KittyIndex, to: AccountId)
    requires
        v.wf(),
        v.has_kitty(id),
        to == v.kitty(id).owner || !v.is_full(to),
    ensures
        v.move_spec(id, to).wf(),
        v.move_spec(id, to).count() == v.count(),
{
    let o = v.kitty(id).owner;
    let l = v.owned_of(o);
    assert(v.kitties[id as int] == v.kitty(id));
    assert(l.contains(id));
    assert(l.no_duplicates());
    lemma_remove_id(l, id);
    let r = remove_id(l, id);
    let base = if to == o { r } else { v.owned_of(to) };
    let w = v.move_spec(id, to);
    assert forall|a: AccountId| #[trigger] w.owned_of(a) == if a == to {
        base.push(id)
    } else if a == o {
        r
    } else {
        v.owned_of(a)
    } by {}
    assert(!base.contains(id)) by {
        if to != o && base.contains(id) {
            let k = choose|k: int| 0 <= k < base.len() && base[k] == id;
            assert(v.owned_of(to)[k] == id);
        }
    }
    assert forall|a: AccountId, x: KittyIndex| #[trigger] w.owned_of(a).contains(x) && x != id
        implies v.owned_of(a).contains(x) by {
        if a == to {
            let k = choose|k: int| 0 <= k < w.owned_of(a).len() && w.owned_of(a)[k] == x;
            assert(base[k] == x);
            assert(base.contains(x));
        } else if a == o {
            assert(r.contains(x));
        }
    }
    assert forall|a: AccountId| #![trigger w.owned_of(a)]
        w.owned_of(a).no_duplicates() && w.owned_of(a).len() <= w.config.max_kitty_owned by {
        if a == to {
            assert(base.no_duplicates());
            assert forall|x: int, y: int| 0 <= x < w.owned_of(a).len() && 0 <= y < w.owned_of(a).len() && x != y
                implies w.owned_of(a)[x] != w.owned_of(a)[y] by {
                if x < base.len() && y < base.len() {
                } else if x < base.len() {
                    assert(base.contains(base[x]));
                } else {
                    assert(base.contains(base[y]));
                }
            }
        }
    }
    assert forall|a: AccountId, j: int| 0 <= j < w.owned_of(a).len() implies {
        &&& (#[trigger] w.owned_of(a)[j]) < w.kitties.len()
        &&& w.kitties[w.owned_of(a)[j] as int].owner == a
    } by {
        let x = w.owned_of(a)[j];
        assert(w.owned_of(a).contains(x));
        if x == id {
            if a != to {
                if a == o {
                    assert(r.contains(id));
                } else {
                    assert(v.owned_of(a).contains(id));
                    let k = choose|k: int| 0 <= k < v.owned_of(a).len() && v.owned_of(a)[k] == id;
                    assert(v.kitties[v.owned_of(a)[k] as int].owner == a);
                }
            }
        } else {
            assert(v.owned_of(a).contains(x));
            let k = choose|k: int| 0 <= k < v.owned_of(a).len() && v.owned_of(a)[k] == x;
            assert(v.kitties[v.owned_of(a)[k] as int].owner == a);
        }
    }
    assert forall|kid: int| 0 <= kid < w.kitties.len() implies w.owned_of(
        (#[trigger] w.kitties[kid]).owner,
    ).contains(kid as KittyIndex) by {
        if kid == id as int {
            assert(w.owned_of(to)[base.len() as int] == id);
        } else {
            let b = v.kitties[kid].owner;
            assert(w.kitties[kid] == v.kitties[kid]);
            assert(v.owned_of(b).contains(kid as KittyIndex));
            if b == to {
                assert(base.contains(kid as KittyIndex));
                let k = choose|k: int| 0 <= k < base.len() && base[k] == kid as KittyIndex;
                assert(w.owned_of(b)[k] == kid as KittyIndex);
            } else if b == o {
                assert(r.contains(kid as KittyIndex));
            }
        }
    }
}

/// Consistency depends on the configuration, the kitties and the ownership
/// index alone.
proof fn lemma_wf_frame(v: PalletView, w: PalletView)
    requires
        v.wf(),
        w.config == v.config,
        w.kitties == v.kitties,
        w.owned == v.owned,
    ensures
        w.wf(),
{
    assert forall|a: AccountId| #[trigger] w.owned_of(a) == v.owned_of(a) by {}
    assert forall|a: AccountId| #![trigger w.owned_of(a)]
        w.owned_of(a).no_duplicates() && w.owned_of(a).len() <= w.config.max_kitty_owned by {
        assert(v.owned_of(a) == w.owned_of(a));
    }
    assert forall|a: AccountId, j: int| 0 <= j < w.owned_of(a).len() implies {
        &&& (#[trigger] w.owned_of(a)[j]) < w.kitties.len()
        &&& w.kitties[w.owned_of(a)[j] as int].owner == a
    } by {
        assert(v.owned_of(a) == w.owned_of(a));
    }
    assert forall|id: int| 0 <= id < w.kitties.len() implies w.owned_of(
        (#[trigger] w.kitties[id]).owner,
    ).contains(id as KittyIndex) by {
        assert(v.owned_of(v.kitties[id].owner) == w.owned_of(w.kitties[id].owner));
    }
}

impl View for Pallet {
    type V = PalletView;

    closed spec fn view(&self) -> PalletView {
        PalletView {
            config: self.config,
            kitties: self.kitties@,
            owned: Map::new(
                |a: AccountId| self.kitties_owned@.contains_key(a),
                |a: AccountId| self.kitties_owned@[a]@,
            ),
            balances: self.balances@,
            events: self.events@,
        }
    }
}

impl Pallet {
    /// An empty ledger over the given balances.
    pub fn new(config: Config, balances: Balances) -> (r: Pallet)
        ensures
            r@.wf(),
            r@.config == config,
            r@.kitties == Seq::<Kitty>::empty(),
            r@.owned == Map::<AccountId, Seq<KittyIndex>>::empty(),
            r@.balances == balances@,
            r@.events == Seq::<Event>::empty(),
    {
        let r = Pallet {
            config,
            kitties: Vec::new(),
            kitties_owned: HashMap::new(),
            balances,
            events: Vec::new(),
        };
        assert(r@.owned =~= Map::<AccountId, Seq<KittyIndex>>::empty());
        r
    }

    /// The number of kitties minted so far.
    pub fn kitties_count(&self) -> (r: u64)
        requires
            self@.wf(),
        ensures
            r == self@.count(),
    {
        self.kitties.len() as u64
    }

    /// The kitty with id `id`, if there is one.
    pub fn kitties(&self, id: KittyIndex) -> (r: Option<Kitty>)
        ensures
            r == (if self@.has_kitty(id) {
                Some(self@.kitty(id))
            } else {
                None::<Kitty>
            }),
    {
        if id < self.kitties.len() as u64 {
            Some(self.kitties[id as usize])
        } else {
            None
        }
    }

    /// The ids owned by `who`.
    pub fn kitties_owned(&self, who: AccountId) -> (r: Vec<KittyIndex>)
        ensures
            r@ == self@.owned_of(who),
    {
        match self.kitties_owned.get(&who) {
            Some(v) => {
                let mut r: Vec<KittyIndex> = Vec::new();
                let mut i: usize = 0;
                while i < v.len()
                    invariant
                        i <= v@.len(),
                        r@ == v@.subrange(0, i as int),
                    decreases v.len() - i,
                {
                    r.push(v[i]);
                    i = i + 1;
                    assert(r@ =~= v@.subrange(0, i as int));
                }
                assert(r@ =~= v@);
                r
            },
            None => Vec::new(),
        }
    }

    fn owned_len(&self, who: AccountId) -> (r: usize)
        ensures
            r == self@.owned_of(who).len(),
    {
        match self.kitties_owned.get(&who) {
            Some(v) => v.len(),
            None => 0,
        }
    }

    fn is_full(&self, who: AccountId) -> (r: bool)
        ensures
            r == self@.is_full(who),
    {
        self.owned_len(who) as u64 >= self.config.max_kitty_owned as u64
    }

    /// The owner of kitty `id`, if there is one.
    pub fn owner(&self, id: KittyIndex) -> (r: Option<AccountId>)
        ensures
            r == (if self@.has_kitty(id) {
                Some(self@.kitty(id).owner)
            } else {
                None::<AccountId>
            }),
    {
        if id < self.kitties.len() as u64 {
            Some(self.kitties[id as usize].owner)
        } else {
            None
        }
    }

    pub fn config(&self) -> (r: Config)
        ensures
            r == self@.config,
    {
        self.config
    }

    /// The events recorded so far, oldest first.
    pub fn events(&self) -> (r: &Vec<Event>)
        ensures
            r@ == self@.events,
    {
        &self.events
    }

    pub fn free_balance(&self, who: AccountId) -> (r: Balance)
        ensures
            r == self@.balances.free(who),
    {
        self.balances.free_balance(who)
    }

    pub fn reserved_balance(&self, who: AccountId) -> (r: Balance)
        ensures
            r == self@.balances.reserved(who),
    {
        self.balances.reserved_balance(who)
    }

    /// Appends a kitty for `owner` under the next id, when the counter can
    /// grow and `owner` has room.
    fn insert_kitty(&mut self, owner: AccountId, dna: [u8; 16], gender: Gender) -> (r: Result<KittyIndex, Error>)
        requires
            old(self)@.wf(),
        ensures
            final(self)@.wf(),
            r == (if old(self)@.count() == u64::MAX {
                Err::<KittyIndex, Error>(Error::KittiesCountOverflow)
            } else if old(self)@.is_full(owner) {
                Err(Error::ExceedMaxKittyOwned)
            } else {
                Ok(old(self)@.count() as KittyIndex)
            }),
            r is Ok ==> old(self)@.insert_spec(owner, dna@, gender, final(self)@),
            r is Ok ==> final(self)@.balances == old(self)@.balances,
            r is Ok ==> final(self)@.events == old(self)@.events,
            r is Err ==> final(self)@ == old(self)@,
    {
        let kitty_id = self.kitties.len() as u64;
        if kitty_id == u64::MAX {
            return Err(Error::KittiesCountOverflow);
        }
        if self.is_full(owner) {
            return Err(Error::ExceedMaxKittyOwned);
        }
        let ghost old_v = self@;
        let mut list = match self.kitties_owned.remove(&owner) {
            Some(v) => v,
            None => Vec::new(),
        };
        assert(list@ == old_v.owned_of(owner));
        list.push(kitty_id);
        self.kitties_owned.insert(owner, list);
        self.kitties.push(Kitty { dna, price: None, gender, owner });
        let ghost new_v = self@;
        assert(new_v.owned =~= old_v.owned.insert(owner, old_v.owned_of(owner).push(kitty_id)));
        assert(new_v.kitties.drop_last() =~= old_v.kitties);
        assert forall|a: AccountId| #[trigger] new_v.owned_of(a) == if a == owner {
            old_v.owned_of(a).push(kitty_id)
        } else {
            old_v.owned_of(a)
        } by {}
        assert forall|a: AccountId, j: int| 0 <= j < new_v.owned_of(a).len() implies {
            &&& (#[trigger] new_v.owned_of(a)[j]) < new_v.kitties.len()
            &&& new_v.kitties[new_v.owned_of(a)[j] as int].owner == a
        } by {
            if a == owner && j == old_v.owned_of(a).len() {
            } else {
                assert(new_v.owned_of(a)[j] == old_v.owned_of(a)[j]);
            }
        }
        assert forall|id: int| 0 <= id < new_v.kitties.len() implies new_v.owned_of(
            (#[trigger] new_v.kitties[id]).owner,
        ).contains(id as KittyIndex) by {
            if id < old_v.kitties.len() {
                let o = old_v.kitties[id].owner;
                assert(new_v.kitties[id] == old_v.kitties[id]);
                let k = choose|k: int| 0 <= k < old_v.owned_of(o).len() && old_v.owned_of(o)[k] == id as KittyIndex;
                assert(new_v.owned_of(o)[k] == id as KittyIndex);
            } else {
                assert(new_v.owned_of(owner)[old_v.owned_of(owner).len() as int] == kitty_id);
            }
        }
        assert forall|a: AccountId| #![trigger new_v.owned_of(a)]
            new_v.owned_of(a).no_duplicates() && new_v.owned_of(a).len() <= new_v.config.max_kitty_owned by {
            if a == owner {
                assert forall|x: int, y: int| 0 <= x < new_v.owned_of(a).len() && 0 <= y < new_v.owned_of(a).len() && x != y
                    implies new_v.owned_of(a)[x] != new_v.owned_of(a)[y] by {
                    if x < old_v.owned_of(a).len() && y < old_v.owned_of(a).len() {
                    } else if x < old_v.owned_of(a).len() {
                        assert(old_v.owned_of(a)[x] < old_v.kitties.len());
                    } else {
                        assert(old_v.owned_of(a)[y] < old_v.kitties.len());
                    }
                }
            }
        }
        Ok(kitty_id)
    }
    /// Moves kitty `kitty_id` to `to` and takes it off sale. Fails, changing
    /// nothing, when there is no such kitty or `to` is another account with no
    /// room.
    pub fn transfer_kitty_to(&mut self, kitty_id: KittyIndex, to: AccountId) -> (r: Result<(), Error>)
        requires
            old(self)@.wf(),
        ensures
            final(self)@.wf(),
            r == (if !old(self)@.has_kitty(kitty_id) {
                Err::<(), Error>(Error::KittyNotExist)
            } else if to != old(self)@.kitty(kitty_id).owner && old(self)@.is_full(to) {
                Err(Error::ExceedMaxKittyOwned)
            } else {
                Ok(())
            }),
            r is Ok ==> final(self)@ == old(self)@.move_spec(kitty_id, to),
            r is Err ==> final(self)@ == old(self)@,
    {
        if kitty_id >= self.kitties.len() as u64 {
            return Err(Error::KittyNotExist);
        }
        let mut kitty = self.kitties[kitty_id as usize];
        let prev_owner = kitty.owner;
        if prev_owner != to && self.is_full(to) {
            return Err(Error::ExceedMaxKittyOwned);
        }
        let ghost old_v = self@;
        proof {
            lemma_move_preserves_wf(old_v, kitty_id, to);
            assert(old_v.kitties[kitty_id as int] == kitty);
            assert(old_v.owned_of(prev_owner).contains(kitty_id));
        }
        let mut prev_list = match self.kitties_owned.remove(&prev_owner) {
            Some(v) => v,
            None => Vec::new(),
        };
        assert(prev_list@ == old_v.owned_of(prev_owner));
        let mut pos: usize = 0;
        while prev_list[pos] != kitty_id
            invariant
                prev_list@ == old_v.owned_of(prev_owner),
                prev_list@.contains(kitty_id),
                pos < prev_list.len(),
                forall|j: int| 0 <= j < pos ==> prev_list@[j] != kitty_id,
            decreases prev_list@.len() - pos,
        {
            pos = pos + 1;
            proof {
                if pos == prev_list@.len() {
                    let k = choose|k: int| 0 <= k < prev_list@.len() && prev_list@[k] == kitty_id;
                    assert(prev_list@[k] != kitty_id);
                }
            }
        }
        proof {
            let l = old_v.owned_of(prev_owner);
            let p = l.index_of(kitty_id);
            assert(l[p] == kitty_id);
            assert(p == pos as int) by {
                if p != pos as int {
                    assert(l.no_duplicates());
                }
            }
        }
        prev_list.swap_remove(pos);
        assert(prev_list@ == remove_id(old_v.owned_of(prev_owner), kitty_id));
        self.kitties_owned.insert(prev_owner, prev_list);
        let ghost mid_owned = self.kitties_owned@;
        let mut to_list = match self.kitties_owned.remove(&to) {
            Some(v) => v,
            None => Vec::new(),
        };
        to_list.push(kitty_id);
        self.kitties_owned.insert(to, to_list);
        kitty.owner = to;
        kitty.price = None;
        self.kitties.set(kitty_id as usize, kitty);
        proof {
            let w = old_v.move_spec(kitty_id, to);
            assert(self@.kitties =~= w.kitties);
            assert(self@.owned =~= w.owned);
        }
        Ok(())
    }
    /// Mints a kitty for `owner` with the genome and gender supplied, or with
    /// ones generated from `entropy` where they are not. Reserves nothing.
    pub fn mint(
        &mut self,
        owner: AccountId,
        dna: Option<[u8; 16]>,
        gender: Option<Gender>,
        entropy: &Entropy,
    ) -> (r: Result<KittyIndex, Error>)
        requires
            old(self)@.wf(),
        ensures
            final(self)@.wf(),
            r == old(self)@.mint_outcome(owner),
            r is Ok ==> old(self)@.insert_spec(
                owner,
                chosen_dna(dna, *entropy),
                chosen_gender(gender, *entropy),
                final(self)@,
            ),
            r is Ok ==> final(self)@.balances == old(self)@.balances,
            r is Ok ==> final(self)@.events == old(self)@.events,
            r is Err ==> final(self)@ == old(self)@,
    {
        let dna = match dna {
            Some(d) => d,
            None => gen_dna(&entropy.dna_seed, entropy.block_number),
        };
        let gender = match gender {
            Some(g) => g,
            None => gen_gender(&entropy.gender_seed),
        };
        self.insert_kitty(owner, dna, gender)
    }

    /// Reserves the fee from `owner` and mints a kitty for it; all or nothing.
    fn reserve_and_insert(&mut self, owner: AccountId, dna: [u8; 16], gender: Gender) -> (r: Result<KittyIndex, Error>)
        requires
            old(self)@.wf(),
        ensures
            final(self)@.wf(),
            r == old(self)@.create_outcome(owner),
            r is Ok ==> old(self)@.insert_spec(owner, dna@, gender, final(self)@),
            r is Ok ==> final(self)@.balances == old(self)@.balances.reserve_spec(
                owner,
                old(self)@.config.reservation_fee,
            ),
            r is Ok ==> final(self)@.events == old(self)@.events,
            r is Err ==> final(self)@ == old(self)@,
    {
        let fee = self.config.reservation_fee;
        if !self.balances.can_reserve(owner, fee) {
            return Err(Error::NotEnoughBalance);
        }
        if self.kitties.len() as u64 == u64::MAX {
            return Err(Error::KittiesCountOverflow);
        }
        if self.is_full(owner) {
            return Err(Error::ExceedMaxKittyOwned);
        }
        let ghost old_v = self@;
        match self.balances.reserve(owner, fee) {
            Ok(()) => {},
            Err(_) => {
                return Err(Error::NotEnoughBalance);
            },
        }
        proof {
            lemma_wf_frame(old_v, self@);
        }
        let r = self.insert_kitty(owner, dna, gender);
        r
    }

    /// Creates a kitty for `sender` with a generated genome and gender,
    /// reserving the configured fee from its free balance. All or nothing.
    pub fn create_kitty(&mut self, sender: AccountId, entropy: &Entropy) -> (r: Result<KittyIndex, Error>)
        requires
            old(self)@.wf(),
        ensures
            final(self)@.wf(),
            r == old(self)@.create_outcome(sender),
            r is Ok ==> old(self)@.insert_spec(
                sender,
                dna_from_seed(entropy.dna_seed@, entropy.block_number),
                gender_from_seed(entropy.gender_seed@),
                final(self)@,
            ),
            r is Ok ==> final(self)@.balances == old(self)@.balances.reserve_spec(
                sender,
                old(self)@.config.reservation_fee,
            ),
            r matches Ok(id) ==> final(self)@.events == old(self)@.events.push(
                Event::KittyCreated(sender, id, old(self)@.config.reservation_fee),
            ),
            r is Err ==> final(self)@ == old(self)@,
    {
        let dna = gen_dna(&entropy.dna_seed, entropy.block_number);
        let gender = gen_gender(&entropy.gender_seed);
        let kitty_id = match self.reserve_and_insert(sender, dna, gender) {
            Ok(id) => id,
            Err(e) => {
                return Err(e);
            },
        };
        let ghost before = self@;
        self.events.push(Event::KittyCreated(sender, kitty_id, self.config.reservation_fee));
        proof {
            lemma_wf_frame(before, self@);
        }
        Ok(kitty_id)
    }

    /// Whether `acct` owns kitty `kitty_id`; fails when there is no such kitty.
    pub fn is_kitty_owner(&self, kitty_id: KittyIndex, acct: AccountId) -> (r: Result<bool, Error>)
        ensures
            r == (if self@.has_kitty(kitty_id) {
                Ok::<bool, Error>(self@.kitty(kitty_id).owner == acct)
            } else {
                Err(Error::KittyNotExist)
            }),
    {
        match self.kitties(kitty_id) {
            Some(kitty) => Ok(kitty.owner == acct),
            None => Err(Error::KittyNotExist),
        }
    }

    /// Sets the asking price of a kitty that `sender` owns; `None` takes it
    /// off sale.
    pub fn set_price(&mut self, sender: AccountId, kitty_id: KittyIndex, new_price: Option<Balance>) -> (r: Result<(), Error>)
        requires
            old(self)@.wf(),
        ensures
            final(self)@.wf(),
            r == old(self)@.owner_check(kitty_id, sender),
            r is Ok ==> final(self)@ == (PalletView {
                kitties: old(self)@.kitties.update(
                    kitty_id as int,
                    Kitty { price: new_price, ..old(self)@.kitty(kitty_id) },
                ),
                events: old(self)@.events.push(Event::KittyPriceSet(sender, kitty_id, new_price)),
                ..old(self)@
            }),
            r is Err ==> final(self)@ == old(self)@,
    {
        match self.is_kitty_owner(kitty_id, sender) {
            Err(e) => {
                return Err(e);
            },
            Ok(false) => {
                return Err(Error::NotKittyOwner);
            },
            Ok(true) => {},
        }
        let ghost old_v = self@;
        let n: usize = self.kitties.len();
        assert(kitty_id < n);
        let mut kitty = self.kitties[kitty_id as usize];
        kitty.price = new_price;
        self.kitties.set(kitty_id as usize, kitty);
        let ghost mid = self@;
        self.events.push(Event::KittyPriceSet(sender, kitty_id, new_price));
        proof {
            let w = mid;
            assert(w.kitties =~= old_v.kitties.update(kitty_id as int, kitty));
            assert forall|a: AccountId| #![trigger w.owned_of(a)]
                w.owned_of(a).no_duplicates() && w.owned_of(a).len() <= w.config.max_kitty_owned by {
                assert(old_v.owned_of(a) == w.owned_of(a));
            }
            assert forall|id: int| 0 <= id < w.kitties.len() implies (#[trigger] w.kitties[id]).owner
                == old_v.kitties[id].owner by {}
            assert forall|a: AccountId, j: int| 0 <= j < w.owned_of(a).len() implies {
                &&& (#[trigger] w.owned_of(a)[j]) < w.kitties.len()
                &&& w.kitties[w.owned_of(a)[j] as int].owner == a
            } by {
                assert(old_v.owned_of(a) == w.owned_of(a));
                assert(old_v.owned_of(a)[j] < old_v.kitties.len());
                assert(w.kitties[w.owned_of(a)[j] as int].owner == old_v.kitties[w.owned_of(a)[j] as int].owner);
            }
            assert forall|id: int| 0 <= id < w.kitties.len() implies w.owned_of(
                (#[trigger] w.kitties[id]).owner,
            ).contains(id as KittyIndex) by {
                assert(old_v.kitties[id].owner == w.kitties[id].owner);
                assert(old_v.owned_of(old_v.kitties[id].owner) == w.owned_of(w.kitties[id].owner));
            }
            lemma_wf_frame(mid, self@);
        }
        Ok(())
    }

    /// Transfers a kitty that `from` owns to another account with room, and
    /// takes it off sale.
    pub fn transfer(&mut self, from: AccountId, to: AccountId, kitty_id: KittyIndex) -> (r: Result<(), Error>)
        requires
            old(self)@.wf(),
        ensures
            final(self)@.wf(),
            r == old(self)@.transfer_outcome(from, to, kitty_id),
            r is Ok ==> final(self)@ == (PalletView {
                events: old(self)@.events.push(Event::KittyTransferred(from, to, kitty_id)),
                ..old(self)@.move_spec(kitty_id, to)
            }),
            r is Err ==> final(self)@ == old(self)@,
    {
        match self.is_kitty_owner(kitty_id, from) {
            Err(e) => {
                return Err(e);
            },
            Ok(false) => {
                return Err(Error::NotKittyOwner);
            },
            Ok(true) => {},
        }
        if from == to {
            return Err(Error::TransferToSelf);
        }
        if self.is_full(to) {
            return Err(Error::ExceedMaxKittyOwned);
        }
        let ghost old_v = self@;
        proof {
            lemma_move_preserves_wf(old_v, kitty_id, to);
        }
        match self.transfer_kitty_to(kitty_id, to) {
            Ok(()) => {},
            Err(e) => {
                return Err(e);
            },
        }
        let ghost moved = self@;
        self.events.push(Event::KittyTransferred(from, to, kitty_id));
        proof {
            lemma_wf_frame(moved, self@);
        }
        Ok(())
    }
    /// `buyer` buys kitty `kitty_id` for `bid_price`, which must reach its
    /// asking price: the bid moves from the buyer's free balance to the
    /// seller's, the kitty moves to the buyer off sale, and up to one
    /// reservation fee held for the buyer is released. Returns the price paid.
    ///
    /// The fee released is the buyer's, not the seller's: the reservation made
    /// when the kitty was created stays with the account that created it.
    pub fn buy_kitty(&mut self, buyer: AccountId, kitty_id: KittyIndex, bid_price: Balance) -> (r: Result<Balance, Error>)
        requires
            old(self)@.wf(),
        ensures
            final(self)@.wf(),
            r == old(self)@.buy_outcome(buyer, kitty_id, bid_price),
            r is Ok ==> final(self)@ == old(self)@.buy_spec(buyer, kitty_id, bid_price),
            r is Err ==> final(self)@ == old(self)@,
    {
        let kitty = match self.kitties(kitty_id) {
            Some(k) => k,
            None => {
                return Err(Error::KittyNotExist);
            },
        };
        if kitty.owner == buyer {
            return Err(Error::BuyerIsKittyOwner);
        }
        match kitty.price {
            Some(ask_price) => {
                if ask_price > bid_price {
                    return Err(Error::KittyBidPriceTooLow);
                }
            },
            None => {
                return Err(Error::KittyNotForSale);
            },
        }
        if self.balances.free_balance(buyer) < bid_price {
            return Err(Error::NotEnoughBalance);
        }
        if self.is_full(buyer) {
            return Err(Error::ExceedMaxKittyOwned);
        }
        let seller = kitty.owner;
        if self.balances.transfer_check(buyer, seller, bid_price).is_err() {
            return Err(Error::NotEnoughBalance);
        }
        let ghost old_v = self@;
        proof {
            lemma_move_preserves_wf(old_v, kitty_id, buyer);
        }
        match self.balances.transfer(buyer, seller, bid_price) {
            Ok(()) => {},
            Err(_) => {
                return Err(Error::NotEnoughBalance);
            },
        }
        let ghost paid_v = self@;
        proof {
            lemma_wf_frame(old_v, paid_v);
        }
        match self.transfer_kitty_to(kitty_id, buyer) {
            Ok(()) => {},
            Err(e) => {
                return Err(e);
            },
        }
        let ghost moved_v = self@;
        let released = self.balances.unreserve(buyer, self.config.reservation_fee);
        self.events.push(Event::KittyBought(buyer, seller, kitty_id, bid_price, released));
        proof {
            lemma_wf_frame(moved_v, self@);
            let w = old_v.buy_spec(buyer, kitty_id, bid_price);
            assert(moved_v.owned == old_v.move_spec(kitty_id, buyer).owned);
            assert(self@.owned =~= w.owned);
            assert(self@.kitties =~= w.kitties);
        }
        Ok(bid_price)
    }

    /// The genome bred from kitties `parent1` and `parent2`: a mask generated
    /// from `entropy` picks each bit from the first parent where it is set and
    /// from the second where it is clear.
    pub fn breed_dna(&self, parent1: KittyIndex, parent2: KittyIndex, entropy: &Entropy) -> (r: Result<[u8; 16], Error>)
        ensures
            r is Err <==> !(self@.has_kitty(parent1) && self@.has_kitty(parent2)),
            r is Err ==> r == Err::<[u8; 16], Error>(Error::KittyNotExist),
            r matches Ok(d) ==> d@ == mix_dna(
                dna_from_seed(entropy.dna_seed@, entropy.block_number),
                self@.kitty(parent1).dna@,
                self@.kitty(parent2).dna@,
            ),
    {
        let dna1 = match self.kitties(parent1) {
            Some(k) => k.dna,
            None => {
                return Err(Error::KittyNotExist);
            },
        };
        let dna2 = match self.kitties(parent2) {
            Some(k) => k.dna,
            None => {
                return Err(Error::KittyNotExist);
            },
        };
        let mask = gen_dna(&entropy.dna_seed, entropy.block_number);
        Ok(mix_dna_bytes(&mask, &dna1, &dna2))
    }

    /// Breeds a new kitty for `sender` from two kitties it owns, reserving the
    /// configured fee as creating one does. The gender is generated from
    /// `entropy`. The two parents may be the same kitty.
    pub fn breed_kitty(&mut self, sender: AccountId, parent1: KittyIndex, parent2: KittyIndex, entropy: &Entropy) -> (r: Result<KittyIndex, Error>)
        requires
            old(self)@.wf(),
        ensures
            final(self)@.wf(),
            r == old(self)@.breed_outcome(sender, parent1, parent2),
            r is Ok ==> old(self)@.insert_spec(
                sender,
                mix_dna(
                    dna_from_seed(entropy.dna_seed@, entropy.block_number),
                    old(self)@.kitty(parent1).dna@,
                    old(self)@.kitty(parent2).dna@,
                ),
                gender_from_seed(entropy.gender_seed@),
                final(self)@,
            ),
            r is Ok ==> final(self)@.balances == old(self)@.balances.reserve_spec(
                sender,
                old(self)@.config.reservation_fee,
            ),
            r matches Ok(id) ==> final(self)@.events == old(self)@.events.push(Event::KittyBreed(sender, id)),
            r is Err ==> final(self)@ == old(self)@,
    {
        match self.is_kitty_owner(parent1, sender) {
            Err(e) => {
                return Err(e);
            },
            Ok(false) => {
                return Err(Error::NotKittyOwner);
            },
            Ok(true) => {},
        }
        match self.is_kitty_owner(parent2, sender) {
            Err(e) => {
                return Err(e);
            },
            Ok(false) => {
                return Err(Error::NotKittyOwner);
            },
            Ok(true) => {},
        }
        let new_dna = match self.breed_dna(parent1, parent2, entropy) {
            Ok(d) => d,
            Err(e) => {
                return Err(e);
            },
        };
        let gender = gen_gender(&entropy.gender_seed);
        let kitty_id = match self.reserve_and_insert(sender, new_dna, gender) {
            Ok(id) => id,
            Err(e) => {
                return Err(e);
            },
        };
        let ghost before = self@;
        self.events.push(Event::KittyBreed(sender, kitty_id));
        proof {
            lemma_wf_frame(before, self@);
        }
        Ok(kitty_id)
    }
}

/// The kitties a ledger starts with: owner, genome and gender of each.
pub struct GenesisConfig {
    pub kitties: Vec<(AccountId, [u8; 16], Gender)>,
}

impl Default for GenesisConfig {
    fn default() -> (r: GenesisConfig)
        ensures
            r.kitties@ == Seq::<(AccountId, [u8; 16], Gender)>::empty(),
    {
        GenesisConfig { kitties: Vec::new() }
    }
}

/// The kitty that a genesis entry describes.
pub open spec fn genesis_kitty(entry: (AccountId, [u8; 16], Gender)) -> Kitty {
    Kitty { dna: entry.1, price: None, gender: entry.2, owner: entry.0 }
}

impl GenesisConfig {
    /// Mints the listed kitties in order, with no fee reserved. A failure is
    /// meant to abort start-up: the ledger is then left with the kitties
    /// before the failing entry.
    pub fn build(&self, pallet: &mut Pallet) -> (r: Result<(), Error>)
        requires
            old(pallet)@.wf(),
        ensures
            final(pallet)@.wf(),
            final(pallet)@.config == old(pallet)@.config,
            final(pallet)@.balances == old(pallet)@.balances,
            final(pallet)@.events == old(pallet)@.events,
            r is Ok ==> final(pallet)@.kitties == old(pallet)@.kitties + self.kitties@.map_values(
                |e: (AccountId, [u8; 16], Gender)| genesis_kitty(e),
            ),
            r matches Err(e) ==> exists|i: int|
                0 <= i < self.kitties@.len() && final(pallet)@.kitties == old(pallet)@.kitties
                    + self.kitties@.subrange(0, i).map_values(
                    |e: (AccountId, [u8; 16], Gender)| genesis_kitty(e),
                ) && #[trigger] final(pallet)@.mint_outcome(self.kitties@[i].0) == Err::<
                    KittyIndex,
                    Error,
                >(e),
    {
        let ghost start = pallet@;
        let mut i: usize = 0;
        while i < self.kitties.len()
            invariant
                i <= self.kitties@.len(),
                start == old(pallet)@,
                pallet@.wf(),
                pallet@.config == start.config,
                pallet@.balances == start.balances,
                pallet@.events == start.events,
                pallet@.kitties == start.kitties + self.kitties@.subrange(0, i as int).map_values(
                    |e: (AccountId, [u8; 16], Gender)| genesis_kitty(e),
                ),
            decreases self.kitties@.len() - i,
        {
            let (acct, dna, gender) = self.kitties[i];
            let ghost before = pallet@;
            match pallet.insert_kitty(acct, dna, gender) {
                Ok(_) => {},
                Err(e) => {
                    assert(pallet@.mint_outcome(self.kitties@[i as int].0) == Err::<KittyIndex, Error>(e));
                    return Err(e);
                },
            }
            proof {
                let prefix = self.kitties@.subrange(0, i as int + 1).map_values(
                    |e: (AccountId, [u8; 16], Gender)| genesis_kitty(e),
                );
                let w = pallet@;
                assert(w.kitties[before.kitties.len() as int].dna =~= dna);
                assert(w.kitties[before.kitties.len() as int] == genesis_kitty(self.kitties@[i as int]));
                assert(w.kitties =~= w.kitties.drop_last().push(w.kitties.last()));
                assert(w.kitties =~= start.kitties + prefix);
            }
            i = i + 1;
        }
        assert(self.kitties@.subrange(0, i as int) =~= self.kitties@);
        Ok(())
    }
}

} // verus!
