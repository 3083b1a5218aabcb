//! Proof of existence: an account claims a byte string (typically a digest),
//! recording itself as owner and the block of the claim; the owner may revoke
//! the claim or hand it to another account.

use vstd::prelude::*;
use crate::types::AccountId;

verus! {

/// Why a claim operation was refused. A refused operation changes nothing.
#[derive(Clone, Copy, Debug, PartialEq, Eq, Structural)]
pub enum Error {
    /// The byte string is claimed already.
    ProofAlreadyExist,
    /// The byte string is not claimed.
    ClaimNotExist,
    /// The caller does not own the claim.
    NotClaimOwner,
    /// A claim cannot be handed to its owner.
    NotDestination,
    /// The byte string is longer than allowed.
    ClaimSizeOutOfBound,
}

/// A record of a completed claim operation.
#[derive(Debug, PartialEq, Eq)]
pub enum ClaimEvent {
    /// owner, claim
    ClaimCreated(AccountId, Vec<u8>),
    /// former owner, claim
    ClaimRevoked(AccountId, Vec<u8>),
    /// former owner, claim, new owner
    ClaimTransaction(AccountId, Vec<u8>, AccountId),
}

/// One claim: the byte string, its owner, and the block it was recorded at.
struct Proof {
    claim: Vec<u8>,
    owner: AccountId,
    block_number: u64,
}

/// The claim store. Each byte string is claimed at most once.
pub struct Pallet {
    max_vec_len: u32,
    proofs: Vec<Proof>,
    events: Vec<ClaimEvent>,
}

/// The abstract state of a claim store.
pub struct PoeView {
    pub max_vec_len: u32,
    /// Each claimed byte string with its owner and block number.
    pub proofs: Map<Seq<u8>, (AccountId, u64)>,
    pub events: Seq<ClaimEvent>,
}

/// `a` and `b` hold the same bytes.
fn same_bytes(a: &Vec<u8>, b: &Vec<u8>) -> (r: bool)
    ensures
        r == (a@ == b@),
{
    if a.len() != b.len() {
        return false;
    }
    let mut i: usize = 0;
    while i < a.len()
        invariant
            a@.len() == b@.len(),
            i <= a@.len(),
            forall|j: int| 0 <= j < i ==> a@[j] == b@[j],
        decreases a@.len() - i,
    {
        if a[i] != b[i] {
            return false;
        }
        i = i + 1;
    }
    assert(a@ =~= b@);
    true
}

/// A copy of `a`.
fn copy_bytes(a: &Vec<u8>) -> (r: Vec<u8>)
    ensures
        r@ == a@,
{
    let mut r: Vec<u8> = Vec::new();
    let mut i: usize = 0;
    while i < a.len()
        invariant
            i <= a@.len(),
            r@ == a@.subrange(0, i as int),
        decreases a@.len() - i,
    {
        r.push(a[i]);
        i = i + 1;
        assert(r@ =~= a@.subrange(0, i as int));
    }
    assert(r@ =~= a@);
    r
}

impl Pallet {
    /// Byte strings are listed at most once.
    pub closed spec fn wf(&self) -> bool {
        forall|i: int, j: int|
            0 <= i < j < self.proofs@.len() ==> (#[trigger] self.proofs@[i]).claim@
                != (#[trigger] self.proofs@[j]).claim@
    }

    closed spec fn index_of(&self, k: Seq<u8>) -> int {
        choose|i: int| 0 <= i < self.proofs@.len() && self.proofs@[i].claim@ == k
    }

    pub closed spec fn view(&self) -> PoeView {
        PoeView {
            max_vec_len: self.max_vec_len,
            proofs: Map::new(
                |k: Seq<u8>| exists|i: int| 0 <= i < self.proofs@.len() && self.proofs@[i].claim@ == k,
                |k: Seq<u8>|
                    (self.proofs@[self.index_of(k)].owner, self.proofs@[self.index_of(k)].block_number),
            ),
            events: self.events@,
        }
    }

    /// The entry at `i` is the one the view shows for its byte string.
    proof fn lemma_entry(&self, i: int)
        requires
            self.wf(),
            0 <= i < self.proofs@.len(),
        ensures
            self.view().proofs.contains_key(self.proofs@[i].claim@),
            self.view().proofs[self.proofs@[i].claim@] == (self.proofs@[i].owner, self.proofs@[i].block_number),
    {
        let k = self.proofs@[i].claim@;
        let j = self.index_of(k);
        assert(0 <= j < self.proofs@.len() && self.proofs@[j].claim@ == k);
        if i < j {
            assert(self.proofs@[i].claim@ != self.proofs@[j].claim@);
        } else if j < i {
            assert(self.proofs@[j].claim@ != self.proofs@[i].claim@);
        }
    }

    /// An empty store that accepts byte strings of up to `max_vec_len` bytes.
    pub fn new(max_vec_len: u32) -> (r: Pallet)
        ensures
            r.wf(),
            r.view().max_vec_len == max_vec_len,
            r.view().proofs == Map::<Seq<u8>, (AccountId, u64)>::empty(),
            r.view().events == Seq::<ClaimEvent>::empty(),
    {
        let r = Pallet { max_vec_len, proofs: Vec::new(), events: Vec::new() };
        assert(r.view().proofs =~= Map::<Seq<u8>, (AccountId, u64)>::empty());
        r
    }

    fn find(&self, claim: &Vec<u8>) -> (r: Option<usize>)
        requires
            self.wf(),
        ensures
            match r {
                Some(i) => i < self.proofs@.len() && self.proofs@[i as int].claim@ == claim@,
                None => !self.view().proofs.contains_key(claim@),
            },
    {
        let mut i: usize = 0;
        while i < self.proofs.len()
            invariant
                i <= self.proofs@.len(),
                forall|j: int| 0 <= j < i ==> self.proofs@[j].claim@ != claim@,
            decreases self.proofs@.len() - i,
        {
            if same_bytes(&self.proofs[i].claim, claim) {
                return Some(i);
            }
            i = i + 1;
        }
        None
    }

    /// The owner and block number of the claim on `claim`, if there is one.
    pub fn proofs(&self, claim: &Vec<u8>) -> (r: Option<(AccountId, u64)>)
        requires
            self.wf(),
        ensures
            r == (if self.view().proofs.contains_key(claim@) {
                Some(self.view().proofs[claim@])
            } else {
                None::<(AccountId, u64)>
            }),
    {
        match self.find(claim) {
            Some(i) => {
                proof {
                    self.lemma_entry(i as int);
                }
                Some((self.proofs[i].owner, self.proofs[i].block_number))
            },
            None => None,
        }
    }

    /// The events recorded so far, oldest first.
    pub fn events(&self) -> (r: &Vec<ClaimEvent>)
        ensures
            r@ == self.view().events,
    {
        &self.events
    }

    /// `sender` claims `claim` at block `block_number`.
    pub fn create_claim(&mut self, sender: AccountId, claim: Vec<u8>, block_number: u64) -> (r: Result<(), Error>)
        requires
            old(self).wf(),
        ensures
            final(self).wf(),
            r == (if claim@.len() > old(self).view().max_vec_len {
                Err::<(), Error>(Error::ClaimSizeOutOfBound)
            } else if old(self).view().proofs.contains_key(claim@) {
                Err(Error::ProofAlreadyExist)
            } else {
                Ok(())
            }),
            r is Ok ==> final(self).view() == (PoeView {
                proofs: old(self).view().proofs.insert(claim@, (sender, block_number)),
                events: old(self).view().events.push(ClaimEvent::ClaimCreated(sender, claim)),
                ..old(self).view()
            }),
            r is Err ==> final(self).view() == old(self).view(),
    {
        if claim.len() as u64 > self.max_vec_len as u64 {
            return Err(Error::ClaimSizeOutOfBound);
        }
        if self.find(&claim).is_some() {
            proof {
                let i = choose|i: int| 0 <= i < self.proofs@.len() && self.proofs@[i].claim@ == claim@;
                self.lemma_entry(i);
            }
            return Err(Error::ProofAlreadyExist);
        }
        let ghost old_self = *self;
        let stored = copy_bytes(&claim);
        self.proofs.push(Proof { claim: stored, owner: sender, block_number });
        self.events.push(ClaimEvent::ClaimCreated(sender, claim));
        proof {
            let n = old_self.proofs@.len() as int;
            assert forall|i: int| 0 <= i < n implies self.proofs@[i] == old_self.proofs@[i] by {}
            assert forall|i: int, j: int| 0 <= i < j < self.proofs@.len() implies (#[trigger] self.proofs@[i]).claim@
                != (#[trigger] self.proofs@[j]).claim@ by {
                if j == n {
                    assert(old_self.view().proofs.dom().contains(old_self.proofs@[i].claim@));
                }
            }
            let want = old_self.view().proofs.insert(claim@, (sender, block_number));
            assert forall|k: Seq<u8>| #[trigger] self.view().proofs.contains_key(k) <==> want.contains_key(k) by {
                if self.view().proofs.contains_key(k) && k != claim@ {
                    let i = choose|i: int| 0 <= i < self.proofs@.len() && self.proofs@[i].claim@ == k;
                    assert(old_self.proofs@[i].claim@ == k);
                }
                if want.contains_key(k) && k != claim@ {
                    let i = choose|i: int| 0 <= i < old_self.proofs@.len() && old_self.proofs@[i].claim@ == k;
                    assert(self.proofs@[i].claim@ == k);
                }
                if k == claim@ {
                    assert(self.proofs@[n].claim@ == k);
                }
            }
            assert forall|k: Seq<u8>| #[trigger] self.view().proofs.contains_key(k) implies self.view().proofs[k]
                == want[k] by {
                let i = choose|i: int| 0 <= i < self.proofs@.len() && self.proofs@[i].claim@ == k;
                self.lemma_entry(i);
                if i < n {
                    old_self.lemma_entry(i);
                }
            }
            assert(self.view().proofs =~= want);
        }
        Ok(())
    }
    /// `sender` withdraws its claim on `claim`.
    pub fn revoke_claim(&mut self, sender: AccountId, claim: Vec<u8>) -> (r: Result<(), Error>)
        requires
            old(self).wf(),
        ensures
            final(self).wf(),
            r == (if !old(self).view().proofs.contains_key(claim@) {
                Err::<(), Error>(Error::ClaimNotExist)
            } else if old(self).view().proofs[claim@].0 != sender {
                Err(Error::NotClaimOwner)
            } else {
                Ok(())
            }),
            r is Ok ==> final(self).view() == (PoeView {
                proofs: old(self).view().proofs.remove(claim@),
                events: old(self).view().events.push(ClaimEvent::ClaimRevoked(sender, claim)),
                ..old(self).view()
            }),
            r is Err ==> final(self).view() == old(self).view(),
    {
        let i = match self.find(&claim) {
            Some(i) => i,
            None => {
                return Err(Error::ClaimNotExist);
            },
        };
        proof {
            self.lemma_entry(i as int);
        }
        if self.proofs[i].owner != sender {
            return Err(Error::NotClaimOwner);
        }
        let ghost old_self = *self;
        self.proofs.swap_remove(i);
        self.events.push(ClaimEvent::ClaimRevoked(sender, claim));
        proof {
            let n = old_self.proofs@.len() - 1;
            let ii = i as int;
            assert forall|j: int| 0 <= j < n implies #[trigger] self.proofs@[j] == (if j == ii {
                old_self.proofs@[n]
            } else {
                old_self.proofs@[j]
            }) by {}
            assert forall|a: int, b: int| 0 <= a < b < self.proofs@.len() implies (#[trigger] self.proofs@[a]).claim@
                != (#[trigger] self.proofs@[b]).claim@ by {
                let aa = if a == ii { n } else { a };
                let bb = if b == ii { n } else { b };
                assert(self.proofs@[a] == old_self.proofs@[aa]);
                assert(self.proofs@[b] == old_self.proofs@[bb]);
                if aa < bb {
                    assert(old_self.proofs@[aa].claim@ != old_self.proofs@[bb].claim@);
                } else {
                    assert(old_self.proofs@[bb].claim@ != old_self.proofs@[aa].claim@);
                }
            }
            let want = old_self.view().proofs.remove(claim@);
            assert forall|k: Seq<u8>| #[trigger] self.view().proofs.contains_key(k) <==> want.contains_key(k) by {
                if self.view().proofs.contains_key(k) {
                    let j = choose|j: int| 0 <= j < self.proofs@.len() && self.proofs@[j].claim@ == k;
                    let jj = if j == ii { n } else { j };
                    assert(old_self.proofs@[jj].claim@ == k);
                    assert(jj != ii);
                    if k == claim@ {
                        if jj < ii {
                            assert(old_self.proofs@[jj].claim@ != old_self.proofs@[ii].claim@);
                        } else {
                            assert(old_self.proofs@[ii].claim@ != old_self.proofs@[jj].claim@);
                        }
                    }
                }
                if want.contains_key(k) {
                    let j = choose|j: int| 0 <= j < old_self.proofs@.len() && old_self.proofs@[j].claim@ == k;
                    assert(j != ii);
                    if j == n {
                        assert(self.proofs@[ii].claim@ == k);
                    } else {
                        assert(self.proofs@[j].claim@ == k);
                    }
                }
            }
            assert forall|k: Seq<u8>| #[trigger] self.view().proofs.contains_key(k) implies self.view().proofs[k]
                == want[k] by {
                let j = choose|j: int| 0 <= j < self.proofs@.len() && self.proofs@[j].claim@ == k;
                self.lemma_entry(j);
                let jj = if j == ii { n } else { j };
                old_self.lemma_entry(jj);
            }
            assert(self.view().proofs =~= want);
        }
        Ok(())
    }

    /// `sender` hands its claim on `claim` to `dest`, recorded at block
    /// `block_number`.
    pub fn transfer_claim(&mut self, sender: AccountId, claim: Vec<u8>, dest: AccountId, block_number: u64) -> (r: Result<(), Error>)
        requires
            old(self).wf(),
        ensures
            final(self).wf(),
            r == (if !old(self).view().proofs.contains_key(claim@) {
                Err::<(), Error>(Error::ClaimNotExist)
            } else if old(self).view().proofs[claim@].0 != sender {
                Err(Error::NotClaimOwner)
            } else if dest == sender {
                Err(Error::NotDestination)
            } else {
                Ok(())
            }),
            r is Ok ==> final(self).view() == (PoeView {
                proofs: old(self).view().proofs.insert(claim@, (dest, block_number)),
                events: old(self).view().events.push(ClaimEvent::ClaimTransaction(sender, claim, dest)),
                ..old(self).view()
            }),
            r is Err ==> final(self).view() == old(self).view(),
    {
        let i = match self.find(&claim) {
            Some(i) => i,
            None => {
                return Err(Error::ClaimNotExist);
            },
        };
        proof {
            self.lemma_entry(i as int);
        }
        if self.proofs[i].owner != sender {
            return Err(Error::NotClaimOwner);
        }
        if dest == sender {
            return Err(Error::NotDestination);
        }
        let ghost old_self = *self;
        let stored = copy_bytes(&claim);
        self.proofs.set(i, Proof { claim: stored, owner: dest, block_number });
        self.events.push(ClaimEvent::ClaimTransaction(sender, claim, dest));
        proof {
            let ii = i as int;
            assert forall|j: int| 0 <= j < self.proofs@.len() implies (#[trigger] self.proofs@[j]).claim@
                == old_self.proofs@[j].claim@ by {}
            assert forall|a: int, b: int| 0 <= a < b < self.proofs@.len() implies (#[trigger] self.proofs@[a]).claim@
                != (#[trigger] self.proofs@[b]).claim@ by {
                assert(old_self.proofs@[a].claim@ != old_self.proofs@[b].claim@);
            }
            let want = old_self.view().proofs.insert(claim@, (dest, block_number));
            assert forall|k: Seq<u8>| #[trigger] self.view().proofs.contains_key(k) <==> want.contains_key(k) by {
                if self.view().proofs.contains_key(k) {
                    let j = choose|j: int| 0 <= j < self.proofs@.len() && self.proofs@[j].claim@ == k;
                    assert(old_self.proofs@[j].claim@ == k);
                }
                if want.contains_key(k) && k != claim@ {
                    let j = choose|j: int| 0 <= j < old_self.proofs@.len() && old_self.proofs@[j].claim@ == k;
                    assert(self.proofs@[j].claim@ == k);
                }
                if k == claim@ {
                    assert(self.proofs@[ii].claim@ == k);
                }
            }
            assert forall|k: Seq<u8>| #[trigger] self.view().proofs.contains_key(k) implies self.view().proofs[k]
                == want[k] by {
                let j = choose|j: int| 0 <= j < self.proofs@.len() && self.proofs@[j].claim@ == k;
                self.lemma_entry(j);
                if j != ii {
                    old_self.lemma_entry(j);
                }
            }
            assert(self.view().proofs =~= want);
        }
        Ok(())
    }
}

} // verus!
