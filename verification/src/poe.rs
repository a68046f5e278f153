//! Proof of existence: an account claims a byte string (typically a hash)
//! and becomes its owner until it revokes or transfers the claim.

use vstd::prelude::*;
use crate::assoc::{assoc_map, has_key, keys_distinct, lemma_assoc_absent, lemma_assoc_index,
    lemma_assoc_push, lemma_assoc_swap_remove, lemma_assoc_update};
use crate::system::{ensure_signed, signer, AccountId, BlockNumber, DispatchError, Origin};

verus! {

/// The pallet's configuration.
#[derive(Clone, Copy, Debug, PartialEq, Eq)]
pub struct Config {
    /// The longest claim, in bytes, that the pallet accepts.
    pub max_claim_length: u32,
}

/// What a successful dispatchable reports.
#[derive(Clone, Debug, PartialEq, Eq)]
pub enum Event {
    /// `who` claimed `claim`.
    ClaimCreated(AccountId, Vec<u8>),
    /// `who` revoked `claim`.
    ClaimRevoked(AccountId, Vec<u8>),
    /// The owner handed `claim` over to the receiver.
    ClaimTransfered(AccountId, AccountId, Vec<u8>),
}

/// The pallet's own errors.
#[derive(Clone, Copy, Debug, PartialEq, Eq)]
pub enum Error {
    /// The proof has already been claimed.
    ProofAlreadyClaimed,
    /// The claim is longer than the configured maximum.
    ClaimTooLong,
    /// The proof does not exist.
    NoSuchProof,
    /// The proof is owned by another account.
    NotProofOwner,
}

/// One stored proof: the claim, its owner and the block it was last written in.
#[derive(Clone, Debug, PartialEq, Eq)]
struct ClaimRecord {
    claim: Vec<u8>,
    owner: AccountId,
    block: BlockNumber,
}

/// The pallet's storage, read abstractly.
pub struct ProofStore {
    /// The configured maximum claim length.
    pub max_claim_length: u32,
    /// Each claimed byte string to its owner and the block of its last write.
    pub proofs: Map<Seq<u8>, (AccountId, BlockNumber)>,
}

/// The pallet and its storage.
#[derive(Clone, Debug, PartialEq, Eq)]
pub struct Pallet {
    max_claim_length: u32,
    proofs: Vec<ClaimRecord>,
}

/// The answer of a dispatchable.
pub type DispatchResult = Result<Event, DispatchError<Error, ()>>;

spec fn record_entry(r: ClaimRecord) -> (Seq<u8>, (AccountId, BlockNumber)) {
    (r.claim@, (r.owner, r.block))
}

impl Pallet {
    spec fn entries(&self) -> Seq<(Seq<u8>, (AccountId, BlockNumber))> {
        self.proofs@.map_values(|r: ClaimRecord| record_entry(r))
    }

    /// The storage invariant: no claim is stored twice, and none is longer
    /// than the configured maximum.
    pub closed spec fn wf(&self) -> bool {
        &&& keys_distinct(self.entries())
        &&& forall|i: int| 0 <= i < self.proofs@.len() ==> #[trigger] self.proofs@[i].claim@.len() <= self.max_claim_length
    }
}

impl View for Pallet {
    type V = ProofStore;

    closed spec fn view(&self) -> ProofStore {
        ProofStore { max_claim_length: self.max_claim_length, proofs: assoc_map(self.entries()) }
    }
}

/// The checks that `create_claim` makes for a signed caller, in order.
pub open spec fn create_claim_error(s: ProofStore, claim: Seq<u8>) -> Option<Error> {
    if claim.len() > s.max_claim_length {
        Some(Error::ClaimTooLong)
    } else if s.proofs.contains_key(claim) {
        Some(Error::ProofAlreadyClaimed)
    } else {
        None
    }
}

/// The storage after `create_claim` and whether it succeeded.
pub open spec fn spec_create_claim(s: ProofStore, origin: Origin, claim: Seq<u8>, now: BlockNumber) -> (
    ProofStore,
    Result<(), DispatchError<Error, ()>>,
) {
    match signer(origin) {
        None => (s, Err(DispatchError::BadOrigin)),
        Some(who) => match create_claim_error(s, claim) {
            Some(e) => (s, Err(DispatchError::Module(e))),
            None => (ProofStore { proofs: s.proofs.insert(claim, (who, now)), ..s }, Ok(())),
        },
    }
}

/// The checks that `revoke_claim` and `transfer_claim` make for a signed caller, in order.
pub open spec fn owner_action_error(s: ProofStore, who: AccountId, claim: Seq<u8>) -> Option<Error> {
    if claim.len() > s.max_claim_length {
        Some(Error::ClaimTooLong)
    } else if !s.proofs.contains_key(claim) {
        Some(Error::NoSuchProof)
    } else if s.proofs[claim].0 != who {
        Some(Error::NotProofOwner)
    } else {
        None
    }
}

/// The storage after `revoke_claim` and whether it succeeded.
pub open spec fn spec_revoke_claim(s: ProofStore, origin: Origin, claim: Seq<u8>) -> (
    ProofStore,
    Result<(), DispatchError<Error, ()>>,
) {
    match signer(origin) {
        None => (s, Err(DispatchError::BadOrigin)),
        Some(who) => match owner_action_error(s, who, claim) {
            Some(e) => (s, Err(DispatchError::Module(e))),
            None => (ProofStore { proofs: s.proofs.remove(claim), ..s }, Ok(())),
        },
    }
}

/// The storage after `transfer_claim` and whether it succeeded.
pub open spec fn spec_transfer_claim(
    s: ProofStore,
    origin: Origin,
    receiver: AccountId,
    claim: Seq<u8>,
    now: BlockNumber,
) -> (ProofStore, Result<(), DispatchError<Error, ()>>) {
    match signer(origin) {
        None => (s, Err(DispatchError::BadOrigin)),
        Some(who) => match owner_action_error(s, who, claim) {
            Some(e) => (s, Err(DispatchError::Module(e))),
            None => (ProofStore { proofs: s.proofs.insert(claim, (receiver, now)), ..s }, Ok(())),
        },
    }
}

/// `a` and `b` hold the same bytes.
fn bytes_equal(a: &Vec<u8>, b: &Vec<u8>) -> (r: bool)
    ensures
        r == (a@ == b@),
{
    if a.len() != b.len() {
        return false;
    }
    let n = a.len();
    let mut i: usize = 0;
    while i < n
        invariant
            n == a@.len(),
            n == b@.len(),
            0 <= i <= n,
            forall|j: int| 0 <= j < i ==> a@[j] == b@[j],
        decreases n - i,
    {
        if a[i] != b[i] {
            return false;
        }
        i = i + 1;
    }
    assert(a@ =~= b@);
    true
}

impl Pallet {
    /// An empty registry with the given configuration.
    pub fn new(config: Config) -> (p: Pallet)
        ensures
            p.wf(),
            p@.max_claim_length == config.max_claim_length,
            p@.proofs == Map::<Seq<u8>, (AccountId, BlockNumber)>::empty(),
    {
        let p = Pallet { max_claim_length: config.max_claim_length, proofs: Vec::new() };
        assert(p@.proofs =~= Map::<Seq<u8>, (AccountId, BlockNumber)>::empty());
        p
    }

    /// The configured maximum claim length.
    pub fn max_claim_length(&self) -> (r: u32)
        ensures
            r == self@.max_claim_length,
    {
        self.max_claim_length
    }

    /// The slot that holds `claim`, if any.
    fn find(&self, claim: &Vec<u8>) -> (r: Option<usize>)
        ensures
            match r {
                Some(i) => i < self.proofs@.len() && self.entries()[i as int].0 == claim@,
                None => !has_key(self.entries(), claim@),
            },
    {
        let n = self.proofs.len();
        let mut i: usize = 0;
        while i < n
            invariant
                n == self.proofs@.len(),
                0 <= i <= n,
                forall|j: int| 0 <= j < i ==> #[trigger] self.entries()[j].0 != claim@,
            decreases n - i,
        {
            if bytes_equal(&self.proofs[i].claim, claim) {
                return Some(i);
            }
            i = i + 1;
        }
        None
    }

    /// The owner of `claim` and the block of its last write, if it is claimed.
    pub fn proofs(&self, claim: &Vec<u8>) -> (r: Option<(AccountId, BlockNumber)>)
        requires
            self.wf(),
        ensures
            r == (if self@.proofs.contains_key(claim@) {
                Some(self@.proofs[claim@])
            } else {
                None::<(AccountId, BlockNumber)>
            }),
    {
        match self.find(claim) {
            Some(i) => {
                proof {
                    lemma_assoc_index(self.entries(), i as int);
                }
                Some((self.proofs[i].owner, self.proofs[i].block))
            },
            None => {
                proof {
                    lemma_assoc_absent(self.entries(), claim@);
                }
                None
            },
        }
    }

    /// Claim `claim` for the signer of `origin` at block `now`.
    pub fn create_claim(&mut self, origin: Origin, claim: Vec<u8>, now: BlockNumber) -> (r: DispatchResult)
        requires
            old(self).wf(),
        ensures
            final(self).wf(),
            final(self)@ == spec_create_claim(old(self)@, origin, claim@, now).0,
            match r {
                Ok(ev) => spec_create_claim(old(self)@, origin, claim@, now).1 is Ok
                    && ev == Event::ClaimCreated(signer(origin)->0, claim),
                Err(e) => spec_create_claim(old(self)@, origin, claim@, now).1 == Err::<(), DispatchError<Error, ()>>(e),
            },
    {
        let sender = match ensure_signed(origin) {
            Ok(who) => who,
            Err(_) => return Err(DispatchError::BadOrigin),
        };
        if claim.len() > self.max_claim_length as usize {
            return Err(DispatchError::Module(Error::ClaimTooLong));
        }
        match self.find(&claim) {
            Some(i) => {
                proof {
                    lemma_assoc_index(self.entries(), i as int);
                }
                return Err(DispatchError::Module(Error::ProofAlreadyClaimed));
            },
            None => {},
        }
        proof {
            lemma_assoc_absent(self.entries(), claim@);
        }
        let ghost before = self.entries();
        let stored = claim.clone();
        assert(stored@ =~= claim@);
        self.proofs.push(ClaimRecord { claim: stored, owner: sender, block: now });
        proof {
            lemma_assoc_push(before, claim@, (sender, now));
            assert(self.entries() =~= before.push((claim@, (sender, now))));
        }
        Ok(Event::ClaimCreated(sender, claim))
    }

    /// Revoke `claim`; only its owner may.
    pub fn revoke_claim(&mut self, origin: Origin, claim: Vec<u8>) -> (r: DispatchResult)
        requires
            old(self).wf(),
        ensures
            final(self).wf(),
            final(self)@ == spec_revoke_claim(old(self)@, origin, claim@).0,
            match r {
                Ok(ev) => spec_revoke_claim(old(self)@, origin, claim@).1 is Ok
                    && ev == Event::ClaimRevoked(signer(origin)->0, claim),
                Err(e) => spec_revoke_claim(old(self)@, origin, claim@).1 == Err::<(), DispatchError<Error, ()>>(e),
            },
    {
        let sender = match ensure_signed(origin) {
            Ok(who) => who,
            Err(_) => return Err(DispatchError::BadOrigin),
        };
        if claim.len() > self.max_claim_length as usize {
            return Err(DispatchError::Module(Error::ClaimTooLong));
        }
        let i = match self.find(&claim) {
            Some(i) => i,
            None => {
                proof {
                    lemma_assoc_absent(self.entries(), claim@);
                }
                return Err(DispatchError::Module(Error::NoSuchProof));
            },
        };
        proof {
            lemma_assoc_index(self.entries(), i as int);
        }
        if self.proofs[i].owner != sender {
            return Err(DispatchError::Module(Error::NotProofOwner));
        }
        let ghost before = self.entries();
        let ghost old_records = self.proofs@;
        let _removed = self.proofs.swap_remove(i);
        proof {
            lemma_assoc_swap_remove(before, i as int);
            assert(self.entries() =~= before.update(i as int, before.last()).drop_last());
            assert forall|j: int| 0 <= j < self.proofs@.len() implies #[trigger] self.proofs@[j].claim@.len() <= self.max_claim_length by {
                if j == i {
                    assert(self.proofs@[j] == old_records[old_records.len() - 1]);
                } else {
                    assert(self.proofs@[j] == old_records[j]);
                }
            }
        }
        Ok(Event::ClaimRevoked(sender, claim))
    }

    /// Hand `claim` over to `receiver` at block `now`; only its owner may.
    pub fn transfer_claim(&mut self, origin: Origin, receiver: AccountId, claim: Vec<u8>, now: BlockNumber) -> (r: DispatchResult)
        requires
            old(self).wf(),
        ensures
            final(self).wf(),
            final(self)@ == spec_transfer_claim(old(self)@, origin, receiver, claim@, now).0,
            match r {
                Ok(ev) => spec_transfer_claim(old(self)@, origin, receiver, claim@, now).1 is Ok
                    && ev == Event::ClaimTransfered(signer(origin)->0, receiver, claim),
                Err(e) => spec_transfer_claim(old(self)@, origin, receiver, claim@, now).1 == Err::<(), DispatchError<Error, ()>>(e),
            },
    {
        let sender = match ensure_signed(origin) {
            Ok(who) => who,
            Err(_) => return Err(DispatchError::BadOrigin),
        };
        if claim.len() > self.max_claim_length as usize {
            return Err(DispatchError::Module(Error::ClaimTooLong));
        }
        let i = match self.find(&claim) {
            Some(i) => i,
            None => {
                proof {
                    lemma_assoc_absent(self.entries(), claim@);
                }
                return Err(DispatchError::Module(Error::NoSuchProof));
            },
        };
        proof {
            lemma_assoc_index(self.entries(), i as int);
        }
        if self.proofs[i].owner != sender {
            return Err(DispatchError::Module(Error::NotProofOwner));
        }
        let ghost before = self.entries();
        let ghost old_records = self.proofs@;
        let stored = self.proofs[i].claim.clone();
        assert(stored@ =~= old_records[i as int].claim@);
        self.proofs.set(i, ClaimRecord { claim: stored, owner: receiver, block: now });
        proof {
            lemma_assoc_update(before, i as int, (receiver, now));
            assert(self.entries() =~= before.update(i as int, (before[i as int].0, (receiver, now))));
            assert forall|j: int| 0 <= j < self.proofs@.len() implies #[trigger] self.proofs@[j].claim@.len() <= self.max_claim_length by {
                if j != i {
                    assert(self.proofs@[j] == old_records[j]);
                }
            }
        }
        Ok(Event::ClaimTransfered(sender, receiver, claim))
    }
}


/// Every claim in a well-formed store is at most the configured length.
pub proof fn lemma_stored_claims_bounded(p: &Pallet)
    requires
        p.wf(),
    ensures
        forall|c: Seq<u8>| #[trigger] p@.proofs.contains_key(c) ==> c.len() <= p@.max_claim_length,
{
    assert forall|c: Seq<u8>| #[trigger] p@.proofs.contains_key(c) implies c.len() <= p@.max_claim_length by {
        let i = choose|i: int| 0 <= i < p.entries().len() && #[trigger] p.entries()[i].0 == c;
        assert(p.entries()[i] == record_entry(p.proofs@[i]));
        assert(p.proofs@[i].claim@.len() <= p.max_claim_length);
    }
}

/// A call that fails leaves the store as it was.
pub proof fn lemma_failed_calls_leave_store_unchanged(
    s: ProofStore,
    origin: Origin,
    receiver: AccountId,
    claim: Seq<u8>,
    now: BlockNumber,
)
    ensures
        spec_create_claim(s, origin, claim, now).1 is Err ==> spec_create_claim(s, origin, claim, now).0 == s,
        spec_revoke_claim(s, origin, claim).1 is Err ==> spec_revoke_claim(s, origin, claim).0 == s,
        spec_transfer_claim(s, origin, receiver, claim, now).1 is Err
            ==> spec_transfer_claim(s, origin, receiver, claim, now).0 == s,
{
}

/// Once created, a claim belongs to its creator, recorded at the block of
/// creation, and no other claim changes.
pub proof fn lemma_create_records_owner(s: ProofStore, who: AccountId, claim: Seq<u8>, now: BlockNumber)
    requires
        spec_create_claim(s, Origin::Signed(who), claim, now).1 is Ok,
    ensures
        spec_create_claim(s, Origin::Signed(who), claim, now).0.proofs[claim] == (who, now),
        forall|c: Seq<u8>| c != claim ==> (#[trigger] spec_create_claim(s, Origin::Signed(who), claim, now).0.proofs.contains_key(c)
            == s.proofs.contains_key(c)),
        forall|c: Seq<u8>| c != claim && s.proofs.contains_key(c)
            ==> #[trigger] spec_create_claim(s, Origin::Signed(who), claim, now).0.proofs[c] == s.proofs[c],
{
}

/// Revoking a claim right after creating it restores the store.
pub proof fn lemma_revoke_undoes_create(s: ProofStore, who: AccountId, claim: Seq<u8>, now: BlockNumber)
    requires
        spec_create_claim(s, Origin::Signed(who), claim, now).1 is Ok,
    ensures
        spec_revoke_claim(spec_create_claim(s, Origin::Signed(who), claim, now).0, Origin::Signed(who), claim)
            == (s, Ok::<(), DispatchError<Error, ()>>(())),
{
    let s1 = spec_create_claim(s, Origin::Signed(who), claim, now).0;
    assert(s1.proofs.remove(claim) =~= s.proofs);
}

/// A claim that is held cannot be claimed again, by anyone.
pub proof fn lemma_claim_is_exclusive(s: ProofStore, origin: Origin, claim: Seq<u8>, now: BlockNumber)
    requires
        s.proofs.contains_key(claim),
        signer(origin) is Some,
        claim.len() <= s.max_claim_length,
    ensures
        spec_create_claim(s, origin, claim, now)
            == (s, Err::<(), DispatchError<Error, ()>>(DispatchError::Module(Error::ProofAlreadyClaimed))),
{
}

/// Only the owner of a claim can revoke or transfer it.
pub proof fn lemma_only_owner_acts(
    s: ProofStore,
    who: AccountId,
    receiver: AccountId,
    claim: Seq<u8>,
    now: BlockNumber,
)
    requires
        s.proofs.contains_key(claim),
        s.proofs[claim].0 != who,
        claim.len() <= s.max_claim_length,
    ensures
        spec_revoke_claim(s, Origin::Signed(who), claim)
            == (s, Err::<(), DispatchError<Error, ()>>(DispatchError::Module(Error::NotProofOwner))),
        spec_transfer_claim(s, Origin::Signed(who), receiver, claim, now)
            == (s, Err::<(), DispatchError<Error, ()>>(DispatchError::Module(Error::NotProofOwner))),
{
}

/// After a transfer the receiver owns the claim: it can revoke it, and the
/// previous owner no longer can.
pub proof fn lemma_transfer_hands_over(
    s: ProofStore,
    who: AccountId,
    receiver: AccountId,
    claim: Seq<u8>,
    now: BlockNumber,
)
    requires
        spec_transfer_claim(s, Origin::Signed(who), receiver, claim, now).1 is Ok,
    ensures
        ({
            let t = spec_transfer_claim(s, Origin::Signed(who), receiver, claim, now).0;
            &&& t.proofs[claim] == (receiver, now)
            &&& spec_revoke_claim(t, Origin::Signed(receiver), claim).1 is Ok
            &&& who != receiver ==> spec_revoke_claim(t, Origin::Signed(who), claim)
                == (t, Err::<(), DispatchError<Error, ()>>(DispatchError::Module(Error::NotProofOwner)))
        }),
{
}


/// An unsigned call is refused with `BadOrigin` and changes nothing.
pub proof fn lemma_unsigned_calls_refused(
    s: ProofStore,
    origin: Origin,
    receiver: AccountId,
    claim: Seq<u8>,
    now: BlockNumber,
)
    requires
        !(origin is Signed),
    ensures
        spec_create_claim(s, origin, claim, now) == (s, Err::<(), DispatchError<Error, ()>>(DispatchError::BadOrigin)),
        spec_revoke_claim(s, origin, claim) == (s, Err::<(), DispatchError<Error, ()>>(DispatchError::BadOrigin)),
        spec_transfer_claim(s, origin, receiver, claim, now)
            == (s, Err::<(), DispatchError<Error, ()>>(DispatchError::BadOrigin)),
{
}

/// A signed caller's claim succeeds exactly when it is within the maximum
/// length and nobody holds it, whatever other claims the caller holds; it
/// then records the caller and the block and changes no other claim. A
/// claim that is too long is refused as such before it is looked up.
pub proof fn lemma_create_claim_outcome(s: ProofStore, who: AccountId, claim: Seq<u8>, now: BlockNumber)
    ensures
        spec_create_claim(s, Origin::Signed(who), claim, now).1 is Ok
            <==> (claim.len() <= s.max_claim_length && !s.proofs.contains_key(claim)),
        claim.len() <= s.max_claim_length && !s.proofs.contains_key(claim) ==> spec_create_claim(
            s,
            Origin::Signed(who),
            claim,
            now,
        ).0 == (ProofStore { max_claim_length: s.max_claim_length, proofs: s.proofs.insert(claim, (who, now)) }),
        claim.len() > s.max_claim_length ==> spec_create_claim(s, Origin::Signed(who), claim, now)
            == (s, Err::<(), DispatchError<Error, ()>>(DispatchError::Module(Error::ClaimTooLong))),
        claim.len() <= s.max_claim_length && s.proofs.contains_key(claim) ==> spec_create_claim(
            s,
            Origin::Signed(who),
            claim,
            now,
        ) == (s, Err::<(), DispatchError<Error, ()>>(DispatchError::Module(Error::ProofAlreadyClaimed))),
{
}

/// A signed caller revokes a claim exactly when it is within the maximum
/// length, held, and held by the caller; revoking removes that claim and
/// nothing else. Refusals come in that order and change nothing.
pub proof fn lemma_revoke_claim_outcome(s: ProofStore, who: AccountId, claim: Seq<u8>)
    ensures
        spec_revoke_claim(s, Origin::Signed(who), claim).1 is Ok <==> (claim.len() <= s.max_claim_length
            && s.proofs.contains_key(claim) && s.proofs[claim].0 == who),
        spec_revoke_claim(s, Origin::Signed(who), claim).1 is Ok ==> spec_revoke_claim(s, Origin::Signed(who), claim).0
            == (ProofStore { max_claim_length: s.max_claim_length, proofs: s.proofs.remove(claim) }),
        claim.len() > s.max_claim_length ==> spec_revoke_claim(s, Origin::Signed(who), claim)
            == (s, Err::<(), DispatchError<Error, ()>>(DispatchError::Module(Error::ClaimTooLong))),
        claim.len() <= s.max_claim_length && !s.proofs.contains_key(claim) ==> spec_revoke_claim(s, Origin::Signed(who), claim)
            == (s, Err::<(), DispatchError<Error, ()>>(DispatchError::Module(Error::NoSuchProof))),
        claim.len() <= s.max_claim_length && s.proofs.contains_key(claim) && s.proofs[claim].0 != who
            ==> spec_revoke_claim(s, Origin::Signed(who), claim)
            == (s, Err::<(), DispatchError<Error, ()>>(DispatchError::Module(Error::NotProofOwner))),
{
}

/// A signed caller hands a claim over exactly when it is within the
/// maximum length, held, and held by the caller; the claim then belongs to
/// the receiver as of `now`, and no other claim changes. Refusals come in
/// that order and change nothing.
pub proof fn lemma_transfer_claim_outcome(
    s: ProofStore,
    who: AccountId,
    receiver: AccountId,
    claim: Seq<u8>,
    now: BlockNumber,
)
    ensures
        spec_transfer_claim(s, Origin::Signed(who), receiver, claim, now).1 is Ok <==> (claim.len()
            <= s.max_claim_length && s.proofs.contains_key(claim) && s.proofs[claim].0 == who),
        spec_transfer_claim(s, Origin::Signed(who), receiver, claim, now).1 is Ok ==> spec_transfer_claim(
            s,
            Origin::Signed(who),
            receiver,
            claim,
            now,
        ).0 == (ProofStore { max_claim_length: s.max_claim_length, proofs: s.proofs.insert(claim, (receiver, now)) }),
        claim.len() > s.max_claim_length ==> spec_transfer_claim(s, Origin::Signed(who), receiver, claim, now)
            == (s, Err::<(), DispatchError<Error, ()>>(DispatchError::Module(Error::ClaimTooLong))),
        claim.len() <= s.max_claim_length && !s.proofs.contains_key(claim) ==> spec_transfer_claim(
            s,
            Origin::Signed(who),
            receiver,
            claim,
            now,
        ) == (s, Err::<(), DispatchError<Error, ()>>(DispatchError::Module(Error::NoSuchProof))),
        claim.len() <= s.max_claim_length && s.proofs.contains_key(claim) && s.proofs[claim].0 != who
            ==> spec_transfer_claim(s, Origin::Signed(who), receiver, claim, now)
            == (s, Err::<(), DispatchError<Error, ()>>(DispatchError::Module(Error::NotProofOwner))),
{
}

} // verus!
