//! The registry of claims: proof that a piece of data existed, and whose it
//! is.
//!
//! A claim is a byte string of bounded length. Whoever enters it first owns
//! it, and may revoke it or hand it to somebody else. With each claim the
//! registry keeps the number of the block in which it last changed hands.

use vstd::prelude::*;
use crate::origin::{ensure_signed, Origin};
use crate::primitives::Identity;

verus! {

/// The number of a block.
pub type BlockNumber = u64;

/// What a claims registry is set up with.
#[derive(Clone, Copy, Debug, PartialEq, Eq)]
pub struct Config {
    /// The largest number of bytes that a claim may have.
    pub claim_limit: u32,
}

/// What a successful operation announces.
#[derive(Clone, Debug, PartialEq, Eq)]
pub enum Event {
    /// A claim was entered: its owner and its bytes.
    ClaimCreated(Identity, Vec<u8>),
    /// A claim was revoked: its last owner and its bytes.
    ClaimRevoked(Identity, Vec<u8>),
    /// A claim was handed over: the old owner, the new owner, its bytes.
    ClaimTransferred(Identity, Identity, Vec<u8>),
}

/// An event as contracts speak of it.
pub ghost enum EventView {
    ClaimCreated(Identity, Seq<u8>),
    ClaimRevoked(Identity, Seq<u8>),
    ClaimTransferred(Identity, Identity, Seq<u8>),
}

impl View for Event {
    type V = EventView;

    open spec fn view(&self) -> EventView {
        match *self {
            Event::ClaimCreated(who, proof) => EventView::ClaimCreated(who, proof@),
            Event::ClaimRevoked(who, proof) => EventView::ClaimRevoked(who, proof@),
            Event::ClaimTransferred(from, to, proof) => EventView::ClaimTransferred(from, to, proof@),
        }
    }
}

/// Why an operation did nothing.
#[derive(Clone, Copy, Debug, PartialEq, Eq)]
pub enum Error {
    /// The call was not signed by an identity.
    BadOrigin,
    /// The claim has an owner already.
    ProofAlreadyClaimed,
    /// Nobody has entered this claim.
    NoSuchProof,
    /// The claim belongs to somebody else.
    NotProofOwner,
    /// The claim would go to the one who has it.
    TransferToSelf,
    /// The claim has more bytes than the registry accepts.
    ClaimLengthExceedsLimit,
}

/// The claims registry as contracts speak of it.
pub ghost struct ClaimsView {
    /// The largest number of bytes that a claim may have.
    pub limit: nat,
    /// For each claim its owner and the block in which it last changed
    /// hands.
    pub proofs: Map<Seq<u8>, (Identity, BlockNumber)>,
}

/// Why the claim cannot be entered, if anything stands against it: the
/// first of the checks that fails.
pub open spec fn create_refusal(pre: ClaimsView, origin: Origin, proof: Seq<u8>) -> Option<Error> {
    if origin.signer() is None {
        Some(Error::BadOrigin)
    } else if proof.len() > pre.limit {
        Some(Error::ClaimLengthExceedsLimit)
    } else if pre.proofs.contains_key(proof) {
        Some(Error::ProofAlreadyClaimed)
    } else {
        None
    }
}

/// Why the claim cannot be revoked, if anything stands against it: the
/// first of the checks that fails.
pub open spec fn revoke_refusal(pre: ClaimsView, origin: Origin, proof: Seq<u8>) -> Option<Error> {
    if origin.signer() is None {
        Some(Error::BadOrigin)
    } else if proof.len() > pre.limit {
        Some(Error::ClaimLengthExceedsLimit)
    } else if !pre.proofs.contains_key(proof) {
        Some(Error::NoSuchProof)
    } else if pre.proofs[proof].0 != origin.signer()->0 {
        Some(Error::NotProofOwner)
    } else {
        None
    }
}

/// Why the claim cannot be handed to `to`, if anything stands against it:
/// the first of the checks that fails.
pub open spec fn transfer_refusal(
    pre: ClaimsView,
    origin: Origin,
    to: Identity,
    proof: Seq<u8>,
) -> Option<Error> {
    if origin.signer() is None {
        Some(Error::BadOrigin)
    } else if origin.signer() == Some(to) {
        Some(Error::TransferToSelf)
    } else if proof.len() > pre.limit {
        Some(Error::ClaimLengthExceedsLimit)
    } else if !pre.proofs.contains_key(proof) {
        Some(Error::NoSuchProof)
    } else if pre.proofs[proof].0 != origin.signer()->0 {
        Some(Error::NotProofOwner)
    } else {
        None
    }
}

struct Claim {
    proof: Vec<u8>,
    owner: Identity,
    block: BlockNumber,
}

spec fn distinct(claims: Seq<Claim>) -> bool {
    forall|i: int, j: int|
        0 <= i < j < claims.len() ==> (#[trigger] claims[i]).proof@ != (#[trigger] claims[j]).proof@
}

spec fn has_claim(claims: Seq<Claim>, proof: Seq<u8>) -> bool {
    exists|i: int| 0 <= i < claims.len() && (#[trigger] claims[i]).proof@ == proof
}

spec fn claim_index(claims: Seq<Claim>, proof: Seq<u8>) -> int {
    choose|i: int| 0 <= i < claims.len() && (#[trigger] claims[i]).proof@ == proof
}

spec fn entry(claim: Claim) -> (Identity, BlockNumber) {
    (claim.owner, claim.block)
}

spec fn proofs_of(claims: Seq<Claim>) -> Map<Seq<u8>, (Identity, BlockNumber)> {
    Map::new(
        |proof: Seq<u8>| has_claim(claims, proof),
        |proof: Seq<u8>| entry(claims[claim_index(claims, proof)]),
    )
}

proof fn lemma_claim_at(claims: Seq<Claim>, i: int)
    requires
        distinct(claims),
        0 <= i < claims.len(),
    ensures
        proofs_of(claims).contains_key(claims[i].proof@),
        proofs_of(claims)[claims[i].proof@] == entry(claims[i]),
{
    let j = claim_index(claims, claims[i].proof@);
    assert(claims[j].proof@ == claims[i].proof@);
}

/// A claim that is added under bytes that had none is the one new entry.
proof fn lemma_proofs_push(claims: Seq<Claim>, claim: Claim)
    requires
        distinct(claims),
        !has_claim(claims, claim.proof@),
    ensures
        distinct(claims.push(claim)),
        proofs_of(claims.push(claim)) == proofs_of(claims).insert(claim.proof@, entry(claim)),
{
    let pushed = claims.push(claim);
    assert forall|a: int, b: int| 0 <= a < b < pushed.len() implies (#[trigger] pushed[a]).proof@
        != (#[trigger] pushed[b]).proof@ by {
        assert(pushed[a] == claims[a]);
        if b < claims.len() {
            assert(pushed[b] == claims[b]);
        }
    }
    let grown = proofs_of(claims).insert(claim.proof@, entry(claim));
    assert forall|proof: Seq<u8>| #[trigger] proofs_of(pushed).contains_key(proof) implies grown.contains_key(proof) by {
        let j = claim_index(pushed, proof);
        if j < claims.len() {
            assert(claims[j].proof@ == proof);
        }
    }
    assert forall|proof: Seq<u8>| #[trigger] grown.contains_key(proof) implies proofs_of(pushed).contains_key(proof)
        && proofs_of(pushed)[proof] == grown[proof] by {
        if proof == claim.proof@ {
            lemma_claim_at(pushed, claims.len() as int);
        } else {
            let j = claim_index(claims, proof);
            assert(pushed[j].proof@ == proof);
            lemma_claim_at(pushed, j);
            lemma_claim_at(claims, j);
        }
    }
    assert(proofs_of(pushed) =~= grown);
}

/// A claim that takes the place of one with the same bytes changes that
/// entry and no other.
proof fn lemma_proofs_update(claims: Seq<Claim>, i: int, claim: Claim)
    requires
        distinct(claims),
        0 <= i < claims.len(),
        claim.proof@ == claims[i].proof@,
    ensures
        distinct(claims.update(i, claim)),
        proofs_of(claims.update(i, claim)) == proofs_of(claims).insert(claim.proof@, entry(claim)),
{
    let updated = claims.update(i, claim);
    assert forall|a: int, b: int| 0 <= a < b < updated.len() implies (#[trigger] updated[a]).proof@
        != (#[trigger] updated[b]).proof@ by {
        assert(updated[a].proof@ == claims[a].proof@);
        assert(updated[b].proof@ == claims[b].proof@);
    }
    let changed = proofs_of(claims).insert(claim.proof@, entry(claim));
    assert forall|proof: Seq<u8>| #[trigger] proofs_of(updated).contains_key(proof) implies changed.contains_key(proof) by {
        let j = claim_index(updated, proof);
        assert(claims[j].proof@ == proof);
    }
    assert forall|proof: Seq<u8>| #[trigger] changed.contains_key(proof) implies proofs_of(updated).contains_key(proof)
        && proofs_of(updated)[proof] == changed[proof] by {
        if proof == claim.proof@ {
            lemma_claim_at(updated, i);
        } else {
            let j = claim_index(claims, proof);
            assert(updated[j].proof@ == proof);
            lemma_claim_at(updated, j);
            lemma_claim_at(claims, j);
        }
    }
    assert(proofs_of(updated) =~= changed);
}

/// Taking a claim out removes its entry and no other.
proof fn lemma_proofs_remove(claims: Seq<Claim>, i: int)
    requires
        distinct(claims),
        0 <= i < claims.len(),
    ensures
        distinct(claims.remove(i)),
        proofs_of(claims.remove(i)) == proofs_of(claims).remove(claims[i].proof@),
{
    let rest = claims.remove(i);
    assert forall|a: int, b: int| 0 <= a < b < rest.len() implies (#[trigger] rest[a]).proof@
        != (#[trigger] rest[b]).proof@ by {
        let a0 = if a < i { a } else { a + 1 };
        let b0 = if b < i { b } else { b + 1 };
        assert(rest[a] == claims[a0]);
        assert(rest[b] == claims[b0]);
    }
    let shrunk = proofs_of(claims).remove(claims[i].proof@);
    assert forall|proof: Seq<u8>| #[trigger] proofs_of(rest).contains_key(proof) implies shrunk.contains_key(proof)
        && proofs_of(rest)[proof] == shrunk[proof] by {
        let j = claim_index(rest, proof);
        let j0 = if j < i { j } else { j + 1 };
        assert(rest[j] == claims[j0]);
        assert(claims[j0].proof@ == proof);
        lemma_claim_at(rest, j);
        lemma_claim_at(claims, j0);
    }
    assert forall|proof: Seq<u8>| #[trigger] shrunk.contains_key(proof) implies proofs_of(rest).contains_key(proof) by {
        let j0 = claim_index(claims, proof);
        let j = if j0 < i { j0 } else { j0 - 1 };
        assert(rest[j] == claims[j0]);
        assert(rest[j].proof@ == proof);
    }
    assert(proofs_of(rest) =~= shrunk);
}

/// Whether two byte strings are the same.
fn same_bytes(a: &Vec<u8>, b: &Vec<u8>) -> (same: bool)
    ensures
        same == (a@ == b@),
{
    if a.len() != b.len() {
        return false;
    }
    let mut i: usize = 0;
    while i < a.len()
        invariant
            a@.len() == b@.len(),
            i <= a@.len(),
            forall|k: int| 0 <= k < i ==> a@[k] == b@[k],
        decreases a@.len() - i,
    {
        if a[i] != b[i] {
            return false;
        }
        i += 1;
    }
    assert(a@ =~= b@);
    true
}

/// A copy of a byte string.
fn copy_bytes(bytes: &Vec<u8>) -> (copy: Vec<u8>)
    ensures
        copy@ == bytes@,
{
    let mut copy: Vec<u8> = Vec::new();
    let mut i: usize = 0;
    while i < bytes.len()
        invariant
            i <= bytes@.len(),
            copy@ == bytes@.take(i as int),
        decreases bytes@.len() - i,
    {
        copy.push(bytes[i]);
        assert(bytes@.take(i + 1) =~= bytes@.take(i as int).push(bytes@[i as int]));
        i += 1;
    }
    assert(bytes@.take(bytes@.len() as int) =~= bytes@);
    copy
}

/// The registry of claims.
pub struct Pallet {
    config: Config,
    claims: Vec<Claim>,
}

impl View for Pallet {
    type V = ClaimsView;

    closed spec fn view(&self) -> ClaimsView {
        ClaimsView { limit: self.config.claim_limit as nat, proofs: proofs_of(self.claims@) }
    }
}

impl Pallet {
    /// The registry's invariant: a claim is entered once at most, and none
    /// is longer than the limit.
    pub closed spec fn wf(&self) -> bool {
        &&& distinct(self.claims@)
        &&& forall|i: int|
            0 <= i < self.claims@.len() ==> (#[trigger] self.claims@[i]).proof@.len()
                <= self.config.claim_limit
    }

    /// No claim in the registry is longer than the limit.
    pub proof fn lemma_claims_bounded(&self, proof: Seq<u8>)
        requires
            self.wf(),
            self@.proofs.contains_key(proof),
        ensures
            proof.len() <= self@.limit,
    {
        let i = claim_index(self.claims@, proof);
        assert(self.claims@[i].proof@ == proof);
    }

    /// A registry without claims.
    pub fn new(config: Config) -> (registry: Self)
        ensures
            registry.wf(),
            registry@ == (ClaimsView { limit: config.claim_limit as nat, proofs: Map::empty() }),
    {
        let registry = Pallet { config, claims: Vec::new() };
        assert(registry@.proofs =~= Map::empty());
        registry
    }

    fn find(&self, proof: &Vec<u8>) -> (found: Option<usize>)
        ensures
            match found {
                Some(i) => i < self.claims@.len() && self.claims@[i as int].proof@ == proof@,
                None => !has_claim(self.claims@, proof@),
            },
    {
        let mut i: usize = 0;
        while i < self.claims.len()
            invariant
                i <= self.claims@.len(),
                forall|k: int| 0 <= k < i ==> (#[trigger] self.claims@[k]).proof@ != proof@,
            decreases self.claims@.len() - i,
        {
            if same_bytes(&self.claims[i].proof, proof) {
                return Some(i);
            }
            i += 1;
        }
        None
    }

    fn within_limit(&self, proof: &Vec<u8>) -> (within: bool)
        ensures
            within == (proof@.len() <= self@.limit),
    {
        proof.len() <= self.config.claim_limit as usize
    }

    /// The owner of the claim and the block in which it last changed hands,
    /// or nothing where nobody has entered it.
    pub fn get_proofs(&self, proof: &Vec<u8>) -> (found: Option<(Identity, BlockNumber)>)
        requires
            self.wf(),
        ensures
            match found {
                Some(entry) => self@.proofs.contains_key(proof@) && self@.proofs[proof@] == entry,
                None => !self@.proofs.contains_key(proof@),
            },
    {
        match self.find(proof) {
            Some(i) => {
                proof {
                    lemma_claim_at(self.claims@, i as int);
                }
                Some((self.claims[i].owner, self.claims[i].block))
            },
            None => None,
        }
    }

    /// Enters a claim for the signer, in the block `current_block`.
    ///
    /// Fails with `BadOrigin` where nobody signed, else with
    /// `ClaimLengthExceedsLimit` where the claim is too long, else with
    /// `ProofAlreadyClaimed` where it has an owner; the registry is then
    /// unchanged.
    pub fn create_claim(
        &mut self,
        origin: Origin,
        proof: Vec<u8>,
        current_block: BlockNumber,
    ) -> (done: Result<Event, Error>)
        requires
            old(self).wf(),
        ensures
            final(self).wf(),
            final(self)@.limit == old(self)@.limit,
            match done {
                Ok(event) => {
                    &&& create_refusal(old(self)@, origin, proof@) is None
                    &&& event@ == EventView::ClaimCreated(origin.signer()->0, proof@)
                    &&& final(self)@.proofs == old(self)@.proofs.insert(
                        proof@,
                        (origin.signer()->0, current_block),
                    )
                },
                Err(error) => {
                    &&& create_refusal(old(self)@, origin, proof@) == Some(error)
                    &&& final(self)@ == old(self)@
                },
            },
    {
        let sender = match ensure_signed(origin) {
            Ok(sender) => sender,
            Err(_) => {
                return Err(Error::BadOrigin);
            },
        };
        if !self.within_limit(&proof) {
            return Err(Error::ClaimLengthExceedsLimit);
        }
        if self.find(&proof).is_some() {
            return Err(Error::ProofAlreadyClaimed);
        }
        let claim = Claim { proof: copy_bytes(&proof), owner: sender, block: current_block };
        proof {
            lemma_proofs_push(self.claims@, claim);
        }
        self.claims.push(claim);
        Ok(Event::ClaimCreated(sender, proof))
    }

    /// Revokes the signer's claim.
    ///
    /// Fails with `BadOrigin` where nobody signed, else with
    /// `ClaimLengthExceedsLimit` where the claim is too long, else with
    /// `NoSuchProof` where nobody has entered it, else with `NotProofOwner`
    /// where it is somebody else's; the registry is then unchanged.
    pub fn revoke_claim(&mut self, origin: Origin, proof: Vec<u8>) -> (done: Result<Event, Error>)
        requires
            old(self).wf(),
        ensures
            final(self).wf(),
            final(self)@.limit == old(self)@.limit,
            match done {
                Ok(event) => {
                    &&& revoke_refusal(old(self)@, origin, proof@) is None
                    &&& event@ == EventView::ClaimRevoked(origin.signer()->0, proof@)
                    &&& final(self)@.proofs == old(self)@.proofs.remove(proof@)
                },
                Err(error) => {
                    &&& revoke_refusal(old(self)@, origin, proof@) == Some(error)
                    &&& final(self)@ == old(self)@
                },
            },
    {
        let sender = match ensure_signed(origin) {
            Ok(sender) => sender,
            Err(_) => {
                return Err(Error::BadOrigin);
            },
        };
        if !self.within_limit(&proof) {
            return Err(Error::ClaimLengthExceedsLimit);
        }
        let i = match self.find(&proof) {
            Some(i) => i,
            None => {
                return Err(Error::NoSuchProof);
            },
        };
        proof {
            lemma_claim_at(self.claims@, i as int);
        }
        if sender != self.claims[i].owner {
            return Err(Error::NotProofOwner);
        }
        proof {
            lemma_proofs_remove(self.claims@, i as int);
        }
        let _ = self.claims.remove(i);
        Ok(Event::ClaimRevoked(sender, proof))
    }

    /// Hands the signer's claim to `to`, in the block `current_block`.
    ///
    /// Fails with `BadOrigin` where nobody signed, else with
    /// `TransferToSelf` where the signer is `to`, else with
    /// `ClaimLengthExceedsLimit` where the claim is too long, else with
    /// `NoSuchProof` where nobody has entered it, else with `NotProofOwner`
    /// where it is somebody else's; the registry is then unchanged.
    pub fn transfer_claim(
        &mut self,
        from: Origin,
        to: Identity,
        proof: Vec<u8>,
        current_block: BlockNumber,
    ) -> (done: Result<Event, Error>)
        requires
            old(self).wf(),
        ensures
            final(self).wf(),
            final(self)@.limit == old(self)@.limit,
            match done {
                Ok(event) => {
                    &&& transfer_refusal(old(self)@, from, to, proof@) is None
                    &&& event@ == EventView::ClaimTransferred(from.signer()->0, to, proof@)
                    &&& final(self)@.proofs == old(self)@.proofs.insert(proof@, (to, current_block))
                },
                Err(error) => {
                    &&& transfer_refusal(old(self)@, from, to, proof@) == Some(error)
                    &&& final(self)@ == old(self)@
                },
            },
    {
        let sender = match ensure_signed(from) {
            Ok(sender) => sender,
            Err(_) => {
                return Err(Error::BadOrigin);
            },
        };
        if sender == to {
            return Err(Error::TransferToSelf);
        }
        if !self.within_limit(&proof) {
            return Err(Error::ClaimLengthExceedsLimit);
        }
        let i = match self.find(&proof) {
            Some(i) => i,
            None => {
                return Err(Error::NoSuchProof);
            },
        };
        proof {
            lemma_claim_at(self.claims@, i as int);
        }
        if sender != self.claims[i].owner {
            return Err(Error::NotProofOwner);
        }
        let claim = Claim { proof: copy_bytes(&proof), owner: to, block: current_block };
        proof {
            lemma_proofs_update(self.claims@, i as int, claim);
        }
        self.claims.set(i, claim);
        Ok(Event::ClaimTransferred(sender, to, proof))
    }
}

} // verus!
