//! A plainer kitty registry: each kitty is a genome and an owner, with no
//! prices, no ownership cap and no fees. Breeding needs two distinct
//! existing kitties, whoever owns them.

use vstd::prelude::*;
use crate::dna::{blake2_128_of, mix_dna, random_value, sender_payload};
use crate::types::AccountId;

verus! {

/// A kitty: its sixteen bytes of genome.
#[derive(Clone, Copy, Debug, PartialEq, Eq)]
pub struct Kitty(pub [u8; 16]);

/// Identifies a kitty in this registry.
pub type KittyIndex = u32;

/// Why an operation was refused. A refused operation changes nothing.
#[derive(Clone, Copy, Debug, PartialEq, Eq, Structural)]
pub enum Error {
    /// The kitty counter cannot grow any further.
    KittiesCountOverflow,
    /// The caller does not own the kitty.
    NotOwner,
    /// Both parents are the same kitty.
    SameKittyIndex,
    /// No kitty has this id.
    InvalidKittyIndex,
}

/// A record of a completed operation.
#[derive(Clone, Copy, Debug, PartialEq, Eq, Structural)]
pub enum Event {
    /// owner, new kitty id
    KittyCreate(AccountId, KittyIndex),
    /// from, to, kitty id
    KittyTransfer(AccountId, AccountId, KittyIndex),
}

/// Randomness supplied by the host for one call: a random seed and the index
/// of the current transaction in its block, if any.
#[derive(Clone, Copy, Debug, PartialEq, Eq)]
pub struct RandomSource {
    pub random_seed: [u8; 32],
    pub extrinsic_index: Option<u32>,
}

/// The random value a call by `sender` draws from `src`.
pub open spec fn random_of(src: RandomSource, sender: AccountId) -> Seq<u8> {
    blake2_128_of(sender_payload(src.random_seed@, sender, src.extrinsic_index))
}

/// The registry. Kitty `i` and its owner are stored at position `i`.
pub struct Pallet {
    kitties: Vec<(Kitty, AccountId)>,
    events: Vec<Event>,
}

/// The abstract state of the registry.
pub struct RegistryView {
    pub kitties: Seq<(Kitty, AccountId)>,
    pub events: Seq<Event>,
}

impl RegistryView {
    pub open spec fn wf(self) -> bool {
        self.kitties.len() <= u32::MAX
    }

    /// The stored count: none before the first kitty.
    pub open spec fn count(self) -> Option<u32> {
        if self.kitties.len() == 0 {
            None
        } else {
            Some(self.kitties.len() as u32)
        }
    }

    pub open spec fn has_kitty(self, id: KittyIndex) -> bool {
        id < self.kitties.len()
    }

    /// The state after a kitty with genome `dna` is appended for `owner`.
    pub open spec fn append_spec(self, owner: AccountId, dna: Seq<u8>, new: RegistryView) -> bool {
        let id = self.kitties.len() as int;
        &&& new.kitties.len() == id + 1
        &&& new.kitties.drop_last() == self.kitties
        &&& new.kitties[id].0.0@ == dna
        &&& new.kitties[id].1 == owner
        &&& new.events == self.events.push(Event::KittyCreate(owner, id as KittyIndex))
    }
}

impl View for Pallet {
    type V = RegistryView;

    closed spec fn view(&self) -> RegistryView {
        RegistryView { kitties: self.kitties@, events: self.events@ }
    }
}

impl Pallet {
    pub fn new() -> (r: Pallet)
        ensures
            r@.wf(),
            r@.kitties == Seq::<(Kitty, AccountId)>::empty(),
            r@.events == Seq::<Event>::empty(),
    {
        Pallet { kitties: Vec::new(), events: Vec::new() }
    }

    /// The number of kitties created, none before the first.
    pub fn kitties_count(&self) -> (r: Option<u32>)
        requires
            self@.wf(),
        ensures
            r == self@.count(),
    {
        if self.kitties.len() == 0 {
            None
        } else {
            Some(self.kitties.len() as u32)
        }
    }

    pub fn kitties(&self, id: KittyIndex) -> (r: Option<Kitty>)
        ensures
            r == (if self@.has_kitty(id) {
                Some(self@.kitties[id as int].0)
            } else {
                None::<Kitty>
            }),
    {
        if (id as usize) < self.kitties.len() {
            Some(self.kitties[id as usize].0)
        } else {
            None
        }
    }

    pub fn owner(&self, id: KittyIndex) -> (r: Option<AccountId>)
        ensures
            r == (if self@.has_kitty(id) {
                Some(self@.kitties[id as int].1)
            } else {
                None::<AccountId>
            }),
    {
        if (id as usize) < self.kitties.len() {
            Some(self.kitties[id as usize].1)
        } else {
            None
        }
    }

    pub fn events(&self) -> (r: &Vec<Event>)
        ensures
            r@ == self@.events,
    {
        &self.events
    }

    /// The id the next kitty gets, unless the counter is exhausted.
    fn next_id(&self) -> (r: Result<KittyIndex, Error>)
        requires
            self@.wf(),
        ensures
            r == (if self@.count() == Some(u32::MAX) {
                Err::<KittyIndex, Error>(Error::KittiesCountOverflow)
            } else {
                Ok(self@.kitties.len() as KittyIndex)
            }),
    {
        match self.kitties_count() {
            Some(count) => {
                if count == u32::MAX {
                    Err(Error::KittiesCountOverflow)
                } else {
                    Ok(count)
                }
            },
            None => Ok(0),
        }
    }

    /// Creates a kitty for `who` whose genome is `who`'s random value.
    pub fn create(&mut self, who: AccountId, src: &RandomSource) -> (r: Result<KittyIndex, Error>)
        requires
            old(self)@.wf(),
        ensures
            final(self)@.wf(),
            r == (if old(self)@.count() == Some(u32::MAX) {
                Err::<KittyIndex, Error>(Error::KittiesCountOverflow)
            } else {
                Ok(old(self)@.kitties.len() as KittyIndex)
            }),
            r is Ok ==> old(self)@.append_spec(who, random_of(*src, who), final(self)@),
            r is Err ==> final(self)@ == old(self)@,
    {
        let kitty_id = match self.next_id() {
            Ok(id) => id,
            Err(e) => {
                return Err(e);
            },
        };
        let dna = random_value(&src.random_seed, who, src.extrinsic_index);
        self.kitties.push((Kitty(dna), who));
        self.events.push(Event::KittyCreate(who, kitty_id));
        assert(self@.kitties.drop_last() =~= old(self)@.kitties);
        Ok(kitty_id)
    }

    /// `who` hands kitty `kitty_id`, which it owns, to `dest`.
    pub fn transfer(&mut self, who: AccountId, dest: AccountId, kitty_id: KittyIndex) -> (r: Result<(), Error>)
        requires
            old(self)@.wf(),
        ensures
            final(self)@.wf(),
            r == (if old(self)@.has_kitty(kitty_id) && old(self)@.kitties[kitty_id as int].1 == who {
                Ok::<(), Error>(())
            } else {
                Err(Error::NotOwner)
            }),
            r is Ok ==> final(self)@ == (RegistryView {
                kitties: old(self)@.kitties.update(
                    kitty_id as int,
                    (old(self)@.kitties[kitty_id as int].0, dest),
                ),
                events: old(self)@.events.push(Event::KittyTransfer(who, dest, kitty_id)),
            }),
            r is Err ==> final(self)@ == old(self)@,
    {
        if self.owner(kitty_id) != Some(who) {
            return Err(Error::NotOwner);
        }
        let kitty = self.kitties[kitty_id as usize].0;
        self.kitties.set(kitty_id as usize, (kitty, dest));
        self.events.push(Event::KittyTransfer(who, dest, kitty_id));
        Ok(())
    }

    /// Breeds a kitty for `who` from two distinct existing kitties: `who`'s
    /// random value picks each bit from the first parent where it is set and
    /// from the second where it is clear.
    pub fn breed(&mut self, who: AccountId, kitty_id_1: KittyIndex, kitty_id_2: KittyIndex, src: &RandomSource) -> (r: Result<KittyIndex, Error>)
        requires
            old(self)@.wf(),
        ensures
            final(self)@.wf(),
            r == (if kitty_id_1 == kitty_id_2 {
                Err::<KittyIndex, Error>(Error::SameKittyIndex)
            } else if !old(self)@.has_kitty(kitty_id_1) || !old(self)@.has_kitty(kitty_id_2) {
                Err(Error::InvalidKittyIndex)
            } else if old(self)@.count() == Some(u32::MAX) {
                Err(Error::KittiesCountOverflow)
            } else {
                Ok(old(self)@.kitties.len() as KittyIndex)
            }),
            r is Ok ==> old(self)@.append_spec(
                who,
                mix_dna(
                    random_of(*src, who),
                    old(self)@.kitties[kitty_id_1 as int].0.0@,
                    old(self)@.kitties[kitty_id_2 as int].0.0@,
                ),
                final(self)@,
            ),
            r is Err ==> final(self)@ == old(self)@,
    {
        if kitty_id_1 == kitty_id_2 {
            return Err(Error::SameKittyIndex);
        }
        let kitty1 = match self.kitties(kitty_id_1) {
            Some(k) => k,
            None => {
                return Err(Error::InvalidKittyIndex);
            },
        };
        let kitty2 = match self.kitties(kitty_id_2) {
            Some(k) => k,
            None => {
                return Err(Error::InvalidKittyIndex);
            },
        };
        let kitty_id = match self.next_id() {
            Ok(id) => id,
            Err(e) => {
                return Err(e);
            },
        };
        let dna_1 = kitty1.0;
        let dna_2 = kitty2.0;
        let selector = random_value(&src.random_seed, who, src.extrinsic_index);
        let mut new_dna: [u8; 16] = [0u8; 16];
        let mut i: usize = 0;
        while i < 16
            invariant
                i <= 16,
                new_dna@.len() == 16,
                forall|j: int|
                    0 <= j < i ==> new_dna@[j] == (selector@[j] & dna_1@[j]) | (!selector@[j] & dna_2@[j]),
            decreases 16 - i,
        {
            new_dna[i] = (selector[i] & dna_1[i]) | (!selector[i] & dna_2[i]);
            i = i + 1;
        }
        assert(new_dna@ =~= mix_dna(selector@, dna_1@, dna_2@));
        self.kitties.push((Kitty(new_dna), who));
        self.events.push(Event::KittyCreate(who, kitty_id));
        assert(self@.kitties.drop_last() =~= old(self)@.kitties);
        Ok(kitty_id)
    }
}

} // verus!
