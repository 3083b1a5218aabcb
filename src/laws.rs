//! Properties of the ledger that relate several operations or hold of every
//! consistent state, proved over the same spec functions that the
//! operations' contracts use.

use vstd::prelude::*;
use crate::dna::{bit_of, lemma_mix_byte_bit, mix_dna};
use crate::pallet::PalletView;
use crate::types::{AccountId, Balance, Error, KittyIndex};

verus! {

/// Whether some step of a run minted id `n`.
pub open spec fn was_minted(minted: Seq<Option<KittyIndex>>, n: nat) -> bool {
    exists|i: int| 0 <= i < minted.len() && #[trigger] minted[i] == Some(n as KittyIndex)
}

/// Ids are handed out as 0, 1, 2, ... with no gap and no reuse. Take a run
/// of the ledger from an empty one, where step `i` goes from `states[i]` to
/// `states[i + 1]` and either mints, returning `Some(id)` with `id` the
/// count before it and adding one kitty (as minting, creating and breeding
/// ensure), or returns `None` and keeps the count (as every other operation
/// and every failure ensures). Then the ids minted strictly increase, and
/// every id below the final count was minted at some step.
pub proof fn lemma_ids_sequential(states: Seq<PalletView>, minted: Seq<Option<KittyIndex>>)
    requires
        states.len() == minted.len() + 1,
        states[0].count() == 0,
        forall|i: int|
            0 <= i < minted.len() ==> match #[trigger] minted[i] {
                Some(id) => id == states[i].count() && states[i + 1].count() == states[i].count() + 1,
                None => states[i + 1].count() == states[i].count(),
            },
    ensures
        forall|i: int, j: int|
            0 <= i < j < minted.len() && minted[i] is Some && minted[j] is Some ==> (
            #[trigger] minted[i]).unwrap() < (#[trigger] minted[j]).unwrap(),
        forall|n: nat| n < states.last().count() ==> #[trigger] was_minted(minted, n),
    decreases minted.len(),
{
    if minted.len() > 0 {
        let k = minted.len() - 1;
        let s0 = states.drop_last();
        let m0 = minted.drop_last();
        assert forall|i: int| 0 <= i < m0.len() implies match #[trigger] m0[i] {
            Some(id) => id == s0[i].count() && s0[i + 1].count() == s0[i].count() + 1,
            None => s0[i + 1].count() == s0[i].count(),
        } by {
            assert(minted[i] == m0[i]);
            assert(states[i] == s0[i] && states[i + 1] == s0[i + 1]);
        }
        lemma_ids_sequential(s0, m0);
        lemma_counts_grow(states, minted);
        assert forall|i: int, j: int|
            0 <= i < j < minted.len() && minted[i] is Some && minted[j] is Some implies (
            #[trigger] minted[i]).unwrap() < (#[trigger] minted[j]).unwrap() by {
            if j < k {
                assert(m0[i] == minted[i] && m0[j] == minted[j]);
            } else {
                assert(states[i + 1].count() <= states[k].count());
            }
        }
        assert forall|n: nat| n < states.last().count() implies #[trigger] was_minted(minted, n) by {
            if n < s0.last().count() {
                assert(was_minted(m0, n));
                let i = choose|i: int| 0 <= i < m0.len() && #[trigger] m0[i] == Some(n as KittyIndex);
                assert(minted[i] == m0[i]);
            } else {
                assert(minted[k] == Some(n as KittyIndex));
            }
        }
    }
}

/// Along such a run the count never decreases.
proof fn lemma_counts_grow(states: Seq<PalletView>, minted: Seq<Option<KittyIndex>>)
    requires
        states.len() == minted.len() + 1,
        forall|i: int|
            0 <= i < minted.len() ==> match #[trigger] minted[i] {
                Some(id) => id == states[i].count() && states[i + 1].count() == states[i].count() + 1,
                None => states[i + 1].count() == states[i].count(),
            },
    ensures
        forall|i: int, j: int| 0 <= i <= j < states.len() ==> #[trigger] states[i].count() <= #[trigger] states[j].count(),
    decreases minted.len(),
{
    if minted.len() > 0 {
        let s0 = states.drop_last();
        let m0 = minted.drop_last();
        assert forall|i: int| 0 <= i < m0.len() implies match #[trigger] m0[i] {
            Some(id) => id == s0[i].count() && s0[i + 1].count() == s0[i].count() + 1,
            None => s0[i + 1].count() == s0[i].count(),
        } by {
            assert(minted[i] == m0[i]);
        }
        lemma_counts_grow(s0, m0);
        let k = minted.len() - 1;
        assert(minted[k] == minted[k]);
        assert forall|i: int, j: int| 0 <= i <= j < states.len() implies #[trigger] states[i].count()
            <= #[trigger] states[j].count() by {
            if j < states.len() - 1 {
                assert(s0[i] == states[i] && s0[j] == states[j]);
            } else if i < j {
                assert(s0[i] == states[i] && s0[k] == states[k]);
            }
        }
    }
}

/// In a consistent ledger every kitty is listed under exactly one account,
/// its owner: an account's list holds the id if and only if the account is
/// the kitty's owner.
pub proof fn lemma_listed_under_owner_only(v: PalletView, id: KittyIndex, a: AccountId)
    requires
        v.wf(),
        v.has_kitty(id),
    ensures
        v.owned_of(a).contains(id) <==> a == v.kitty(id).owner,
{
    assert(v.kitties[id as int] == v.kitty(id));
    if v.owned_of(a).contains(id) {
        let j = choose|j: int| 0 <= j < v.owned_of(a).len() && v.owned_of(a)[j] == id;
        assert(v.kitties[v.owned_of(a)[j] as int].owner == a);
    }
}

/// A transfer and a purchase both leave the moved kitty with its new owner
/// and off sale.
pub proof fn lemma_moved_kitty_off_sale(v: PalletView, id: KittyIndex, to: AccountId, buyer: AccountId, bid: Balance)
    requires
        v.has_kitty(id),
    ensures
        v.move_spec(id, to).kitty(id).price is None,
        v.move_spec(id, to).kitty(id).owner == to,
        v.buy_spec(buyer, id, bid).kitty(id).price is None,
        v.buy_spec(buyer, id, bid).kitty(id).owner == buyer,
{
}

/// A bid below the asking price of a kitty that the bidder does not own is
/// refused as too low.
pub proof fn lemma_low_bid_refused(v: PalletView, buyer: AccountId, id: KittyIndex, bid: Balance)
    requires
        v.has_kitty(id),
        v.kitty(id).owner != buyer,
        v.kitty(id).price matches Some(ask) && bid < ask,
    ensures
        v.buy_outcome(buyer, id, bid) == Err::<Balance, Error>(Error::KittyBidPriceTooLow),
{
}

/// An account that already owns as many kitties as it may cannot receive a
/// newly minted one, while the counter can still grow; creating one for it
/// fails the same way once the fee could be reserved.
pub proof fn lemma_full_account_cannot_mint(v: PalletView, who: AccountId)
    requires
        v.count() < u64::MAX,
        v.owned_of(who).len() >= v.config.max_kitty_owned,
    ensures
        v.mint_outcome(who) == Err::<KittyIndex, Error>(Error::ExceedMaxKittyOwned),
        v.balances.can_reserve(who, v.config.reservation_fee) ==> v.create_outcome(who) == Err::<
            KittyIndex,
            Error,
        >(Error::ExceedMaxKittyOwned),
{
}

/// Every bit of a bred genome is the bit of one of the two parents at the
/// same position: the first parent's where the mask bit is set, the second's
/// where it is clear.
pub proof fn lemma_bred_bits_from_parents(mask: Seq<u8>, dna1: Seq<u8>, dna2: Seq<u8>)
    requires
        mask.len() == 16,
        dna1.len() == 16,
        dna2.len() == 16,
    ensures
        mix_dna(mask, dna1, dna2).len() == 16,
        forall|i: int, k: u8|
            0 <= i < 16 && k < 8 ==> #[trigger] bit_of(mix_dna(mask, dna1, dna2)[i], k) == if bit_of(
                mask[i],
                k,
            ) {
                bit_of(dna1[i], k)
            } else {
                bit_of(dna2[i], k)
            },
        forall|i: int, k: u8|
            0 <= i < 16 && k < 8 ==> (#[trigger] bit_of(mix_dna(mask, dna1, dna2)[i], k) == bit_of(
                dna1[i],
                k,
            ) || bit_of(mix_dna(mask, dna1, dna2)[i], k) == bit_of(dna2[i], k)),
{
    assert forall|i: int, k: u8| 0 <= i < 16 && k < 8 implies #[trigger] bit_of(
        mix_dna(mask, dna1, dna2)[i],
        k,
    ) == if bit_of(mask[i], k) {
        bit_of(dna1[i], k)
    } else {
        bit_of(dna2[i], k)
    } by {
        lemma_mix_byte_bit(mask[i], dna1[i], dna2[i], k);
    }
}

} // verus!
