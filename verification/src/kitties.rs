//! The asset registry: creation, transfer, escrowed sale and breeding.
//!
//! Every operation takes the identity of a caller that has been
//! authenticated already, checks all that it has to check before it writes
//! anything, and returns the event to announce, or the reason why nothing
//! was done.

use vstd::prelude::*;
use crate::allocator::IndexAllocator;
use crate::dna::{derived, mix, mixed, random_value, Context};
use crate::escrow::{held_up, moved, releasable, released, EscrowLedger, Holding};
use crate::primitives::{AssetIndex, Balance, Identity};
use crate::store::{Asset, AssetStore, AssetView, Kitty};

verus! {

/// What a registry is set up with.
#[derive(Clone, Copy, Debug, PartialEq, Eq)]
pub struct Config {
    /// The stake that is put on hold against the creator of an asset, and
    /// that a buyer takes over with the asset.
    pub creation_stake: Balance,
}

/// What a successful operation announces.
#[derive(Clone, Copy, Debug, PartialEq, Eq)]
pub enum Event {
    /// An asset was created or bred: its owner and its index.
    AssetCreated(Identity, AssetIndex),
    /// An asset was given away: the old owner, the new owner, the index.
    AssetTransferred(Identity, Identity, AssetIndex),
    /// An asset was bought: the buyer, the seller, the index, the price.
    AssetBought(Identity, Identity, AssetIndex, Balance),
    /// An asset was sold: the seller, the buyer, the index, the price.
    AssetSold(Identity, Identity, AssetIndex, Balance),
}

/// Why an operation did nothing.
#[derive(Clone, Copy, Debug, PartialEq, Eq)]
pub enum Error {
    /// Every index has been issued.
    RegistryFull,
    /// There is no asset with that index.
    NotFound,
    /// The asset belongs to somebody else.
    NotOwner,
    /// The asset would go to the one who has it.
    SelfTransfer,
    /// An asset cannot be bred with itself.
    IdenticalParents,
    /// The funds to put on hold are not available.
    InsufficientFunds,
}

/// The registry as contracts speak of it.
pub ghost struct RegistryView {
    /// The stake of a creation.
    pub stake: nat,
    /// The index that the next creation or breeding will try to issue.
    pub next_index: nat,
    /// The existing assets.
    pub assets: Map<AssetIndex, AssetView>,
    /// The indices of the assets that were created or bred, in the order of
    /// the calls.
    pub issued: Seq<AssetIndex>,
}

/// The asset `index` in the hands of `new_owner`, its payload and all other
/// assets as they were.
pub open spec fn handed_over(
    assets: Map<AssetIndex, AssetView>,
    index: AssetIndex,
    new_owner: Identity,
) -> Map<AssetIndex, AssetView> {
    assets.insert(index, AssetView { payload: assets[index].payload, owner: new_owner })
}

/// The registry after it has issued its next index to a new asset.
pub open spec fn with_new_asset(
    pre: RegistryView,
    payload: Seq<u8>,
    owner: Identity,
) -> RegistryView {
    RegistryView {
        next_index: pre.next_index + 1,
        assets: pre.assets.insert(pre.next_index as AssetIndex, AssetView { payload, owner }),
        issued: pre.issued.push(pre.next_index as AssetIndex),
        ..pre
    }
}

/// The registry after it has spent its next index on nothing.
pub open spec fn with_gap(pre: RegistryView) -> RegistryView {
    RegistryView { next_index: pre.next_index + 1, ..pre }
}

/// Why `from` cannot hand the asset `index` to `to`, if anything stands
/// against it: the first of the checks that fails.
pub open spec fn transfer_refusal(
    assets: Map<AssetIndex, AssetView>,
    from: Identity,
    to: Identity,
    index: AssetIndex,
) -> Option<Error> {
    if !assets.contains_key(index) {
        Some(Error::NotFound)
    } else if assets[index].owner != from {
        Some(Error::NotOwner)
    } else if from == to {
        Some(Error::SelfTransfer)
    } else {
        None
    }
}

/// Why `seller` cannot sell the asset `index` to `buyer` at `price`, if
/// anything stands against it: what stands against the transfer, or else
/// that the buyer cannot have the stake and the price put on hold.
pub open spec fn sale_refusal(
    pre: RegistryView,
    ledger: Map<Identity, Holding>,
    seller: Identity,
    buyer: Identity,
    index: AssetIndex,
    price: nat,
) -> Option<Error> {
    match transfer_refusal(pre.assets, seller, buyer, index) {
        Some(error) => Some(error),
        None => if pre.stake + price > ledger[buyer].available {
            Some(Error::InsufficientFunds)
        } else {
            None
        },
    }
}

/// Why `who` cannot create an asset, if anything stands against it.
pub open spec fn create_refusal(
    pre: RegistryView,
    ledger: Map<Identity, Holding>,
    who: Identity,
) -> Option<Error> {
    if pre.next_index == AssetIndex::MAX {
        Some(Error::RegistryFull)
    } else if pre.stake > ledger[who].available {
        Some(Error::InsufficientFunds)
    } else {
        None
    }
}

/// Why the two assets cannot be bred, if anything stands against it.
pub open spec fn breed_refusal(
    pre: RegistryView,
    first: AssetIndex,
    second: AssetIndex,
) -> Option<Error> {
    if first == second {
        Some(Error::IdenticalParents)
    } else if !pre.assets.contains_key(first) || !pre.assets.contains_key(second) {
        Some(Error::NotFound)
    } else if pre.next_index == AssetIndex::MAX {
        Some(Error::RegistryFull)
    } else {
        None
    }
}

/// The ledger after the settlement of a sale: the stake and the price are
/// put on hold against the buyer, as much is released from the seller's
/// hold, the price is released from the buyer's hold, and the price moves
/// from the buyer's available funds to the seller's.
pub open spec fn settled(
    ledger: Map<Identity, Holding>,
    buyer: Identity,
    seller: Identity,
    stake: nat,
    price: nat,
) -> Map<Identity, Holding> {
    moved(
        released(released(held_up(ledger, buyer, stake + price), seller, stake + price), buyer, price),
        buyer,
        seller,
        price,
    )
}

/// The registry of assets.
pub struct Pallet {
    config: Config,
    allocator: IndexAllocator,
    store: AssetStore,
    issued: Ghost<Seq<AssetIndex>>,
}

impl View for Pallet {
    type V = RegistryView;

    closed spec fn view(&self) -> RegistryView {
        RegistryView {
            stake: self.config.creation_stake as nat,
            next_index: self.allocator@,
            assets: self.store@,
            issued: self.issued@,
        }
    }
}

impl Pallet {
    /// The registry's invariant: the existing assets are those that were
    /// issued, the issued indices are strictly increasing, and all of them
    /// lie below the next index.
    pub closed spec fn wf(&self) -> bool {
        let issued = self.issued@;
        &&& forall|k: int| 0 <= k < issued.len() ==> #[trigger] issued[k] < self.allocator@
        &&& forall|j: int, k: int|
            0 <= j < k < issued.len() ==> #[trigger] issued[j] < #[trigger] issued[k]
        &&& forall|index: AssetIndex| #[trigger]
            self.store@.contains_key(index) <==> issued.contains(index)
    }

    /// The indices that creations and breedings were given, in the order of
    /// the calls, are strictly increasing, so none was given twice; and all
    /// of them lie below the next index.
    pub proof fn lemma_issued_increasing(&self)
        requires
            self.wf(),
        ensures
            forall|j: int, k: int|
                0 <= j < k < self@.issued.len() ==> #[trigger] self@.issued[j]
                    < #[trigger] self@.issued[k],
            forall|k: int| 0 <= k < self@.issued.len() ==> #[trigger] self@.issued[k] < self@.next_index,
            self@.next_index <= AssetIndex::MAX,
    {
        self.allocator.lemma_bounded();
    }

    /// The assets that exist are those whose index a creation or a breeding
    /// was given: nothing else is in the registry, and nothing was ever
    /// taken out.
    pub proof fn lemma_existing_are_issued(&self, index: AssetIndex)
        requires
            self.wf(),
        ensures
            self@.assets.contains_key(index) <==> self@.issued.contains(index),
            self@.assets.contains_key(index) ==> index < self@.next_index,
    {
        if self@.issued.contains(index) {
            let k = choose|k: int| 0 <= k < self@.issued.len() && self@.issued[k] == index;
            assert(self@.issued[k] < self@.next_index);
        }
    }

    /// Every payload in the registry has sixteen bytes.
    pub proof fn lemma_payload_len(&self, index: AssetIndex)
        requires
            self@.assets.contains_key(index),
        ensures
            self@.assets[index].payload.len() == 16,
    {
        self.store.lemma_payload_len(index);
    }

    /// A registry without assets, which will issue index zero first.
    pub fn new(config: Config) -> (registry: Self)
        ensures
            registry.wf(),
            registry@ == (RegistryView {
                stake: config.creation_stake as nat,
                next_index: 0,
                assets: Map::empty(),
                issued: Seq::empty(),
            }),
    {
        Pallet {
            config,
            allocator: IndexAllocator::new(),
            store: AssetStore::new(),
            issued: Ghost(Seq::empty()),
        }
    }

    /// A registry without assets whose first index will be `next_index`:
    /// the indices below it stay unused.
    pub fn starting_at(config: Config, next_index: AssetIndex) -> (registry: Self)
        ensures
            registry.wf(),
            registry@ == (RegistryView {
                stake: config.creation_stake as nat,
                next_index: next_index as nat,
                assets: Map::empty(),
                issued: Seq::empty(),
            }),
    {
        Pallet {
            config,
            allocator: IndexAllocator::starting_at(next_index),
            store: AssetStore::new(),
            issued: Ghost(Seq::empty()),
        }
    }

    /// The stake of a creation.
    pub fn creation_stake(&self) -> (stake: Balance)
        ensures
            stake == self@.stake,
    {
        self.config.creation_stake
    }

    /// The index that the next creation or breeding will try to issue. A
    /// new registry starts at zero.
    pub fn next_index(&self) -> (index: AssetIndex)
        ensures
            index == self@.next_index,
    {
        self.allocator.next_index()
    }

    /// The asset with this index.
    pub fn get(&self, index: AssetIndex) -> (found: Result<Asset, Error>)
        ensures
            match found {
                Ok(asset) => self@.assets.contains_key(index) && asset@ == self@.assets[index],
                Err(error) => !self@.assets.contains_key(index) && error == Error::NotFound,
            },
    {
        match self.store.get(index) {
            Ok(asset) => Ok(asset),
            Err(_) => Err(Error::NotFound),
        }
    }

    /// The one owner of the asset with this index, or `NotFound` where no
    /// such asset exists.
    pub fn owner_of(&self, index: AssetIndex) -> (found: Result<Identity, Error>)
        ensures
            match found {
                Ok(owner) => self@.assets.contains_key(index) && owner == self@.assets[index].owner,
                Err(error) => !self@.assets.contains_key(index) && error == Error::NotFound,
            },
    {
        match self.store.owner_of(index) {
            Ok(owner) => Ok(owner),
            Err(_) => Err(Error::NotFound),
        }
    }

    /// Creates an asset for the caller, with a payload derived from the
    /// chain context and the caller.
    ///
    /// Fails with `RegistryFull` where no index is left, else with
    /// `InsufficientFunds` where the caller cannot have the stake put on
    /// hold. In the second case the index is spent all the same.
    pub fn create(
        &mut self,
        ledger: &mut EscrowLedger,
        who: Identity,
        context: &Context,
    ) -> (done: Result<Event, Error>)
        requires
            old(self).wf(),
            old(ledger).wf(),
        ensures
            final(self).wf(),
            final(ledger).wf(),
            final(ledger).issuance() == old(ledger).issuance(),
            match done {
                Ok(event) => {
                    &&& create_refusal(old(self)@, old(ledger)@, who) is None
                    &&& event == Event::AssetCreated(who, old(self)@.next_index as AssetIndex)
                    &&& final(self)@ == with_new_asset(old(self)@, derived(*context, who), who)
                    &&& final(ledger)@ == held_up(old(ledger)@, who, old(self)@.stake)
                },
                Err(error) => {
                    &&& create_refusal(old(self)@, old(ledger)@, who) == Some(error)
                    &&& final(self)@ == if error == Error::RegistryFull {
                        old(self)@
                    } else {
                        with_gap(old(self)@)
                    }
                    &&& final(ledger)@ == old(ledger)@
                },
            },
    {
        let dna = random_value(who, context);
        self.create_with_dna(ledger, who, dna)
    }

    /// Creates an asset for the caller with the payload `dna`: what `create`
    /// does once the payload has been derived.
    pub fn create_with_dna(
        &mut self,
        ledger: &mut EscrowLedger,
        who: Identity,
        dna: [u8; 16],
    ) -> (done: Result<Event, Error>)
        requires
            old(self).wf(),
            old(ledger).wf(),
        ensures
            final(self).wf(),
            final(ledger).wf(),
            final(ledger).issuance() == old(ledger).issuance(),
            match done {
                Ok(event) => {
                    &&& create_refusal(old(self)@, old(ledger)@, who) is None
                    &&& event == Event::AssetCreated(who, old(self)@.next_index as AssetIndex)
                    &&& final(self)@ == with_new_asset(old(self)@, dna@, who)
                    &&& final(ledger)@ == held_up(old(ledger)@, who, old(self)@.stake)
                },
                Err(error) => {
                    &&& create_refusal(old(self)@, old(ledger)@, who) == Some(error)
                    &&& final(self)@ == if error == Error::RegistryFull {
                        old(self)@
                    } else {
                        with_gap(old(self)@)
                    }
                    &&& final(ledger)@ == old(ledger)@
                },
            },
    {
        let index = match self.allocator.allocate() {
            Ok(index) => index,
            Err(_) => {
                return Err(Error::RegistryFull);
            },
        };
        if ledger.hold(who, self.config.creation_stake).is_err() {
            return Err(Error::InsufficientFunds);
        }
        self.record(index, Kitty(dna), who);
        Ok(Event::AssetCreated(who, index))
    }

    /// Enters the asset that the index just issued belongs to.
    fn record(&mut self, index: AssetIndex, payload: Kitty, owner: Identity)
        requires
            index + 1 == old(self)@.next_index,
            forall|k: int| 0 <= k < old(self)@.issued.len() ==> #[trigger] old(self)@.issued[k] < index,
            forall|j: int, k: int|
                0 <= j < k < old(self)@.issued.len() ==> #[trigger] old(self)@.issued[j]
                    < #[trigger] old(self)@.issued[k],
            forall|i: AssetIndex| #[trigger]
                old(self)@.assets.contains_key(i) <==> old(self)@.issued.contains(i),
        ensures
            final(self).wf(),
            final(self)@ == (RegistryView {
                assets: old(self)@.assets.insert(index, AssetView { payload: payload@, owner }),
                issued: old(self)@.issued.push(index),
                ..old(self)@
            }),
    {
        let ghost before = self.issued@;
        assert(!self.store@.contains_key(index)) by {
            if before.contains(index) {
                let k = choose|k: int| 0 <= k < before.len() && before[k] == index;
                assert(before[k] < index);
            }
        }
        self.store.insert(index, payload, owner);
        self.issued = Ghost(before.push(index));
        assert forall|i: AssetIndex| #[trigger]
            self.store@.contains_key(i) <==> self.issued@.contains(i) by {
            if before.contains(i) {
                let k = choose|k: int| 0 <= k < before.len() && before[k] == i;
                assert(self.issued@[k] == i);
            }
            if i == index {
                assert(self.issued@[before.len() as int] == i);
            }
            if self.issued@.contains(i) {
                let k = choose|k: int| 0 <= k < self.issued@.len() && self.issued@[k] == i;
                if k < before.len() {
                    assert(before[k] == i);
                }
            }
        }
    }

    /// Hands the asset `index` from `from` to `to`, where `from` owns it and
    /// `to` is somebody else.
    fn transfer_ownership(
        &mut self,
        from: Identity,
        to: Identity,
        index: AssetIndex,
    ) -> (done: Result<(), Error>)
        requires
            old(self).wf(),
        ensures
            final(self).wf(),
            match done {
                Ok(_) => {
                    &&& transfer_refusal(old(self)@.assets, from, to, index) is None
                    &&& final(self)@ == (RegistryView {
                        assets: handed_over(old(self)@.assets, index, to),
                        ..old(self)@
                    })
                },
                Err(error) => {
                    &&& transfer_refusal(old(self)@.assets, from, to, index) == Some(error)
                    &&& final(self)@ == old(self)@
                },
            },
    {
        if let Err(error) = self.check_transfer(from, to, index) {
            return Err(error);
        }
        let _ = self.store.set_owner(index, to);
        Ok(())
    }

    /// The checks of a transfer, none of which writes.
    fn check_transfer(
        &self,
        from: Identity,
        to: Identity,
        index: AssetIndex,
    ) -> (checked: Result<(), Error>)
        ensures
            match checked {
                Ok(_) => transfer_refusal(self@.assets, from, to, index) is None,
                Err(error) => transfer_refusal(self@.assets, from, to, index) == Some(error),
            },
    {
        let owner = match self.store.owner_of(index) {
            Ok(owner) => owner,
            Err(_) => {
                return Err(Error::NotFound);
            },
        };
        if from != owner {
            return Err(Error::NotOwner);
        }
        if from == to {
            return Err(Error::SelfTransfer);
        }
        Ok(())
    }

    /// Gives the caller's asset `kitty_id` to `new_owner`. No funds move.
    ///
    /// Fails with `NotFound` where there is no such asset, else with
    /// `NotOwner` where it is not the caller's, else with `SelfTransfer`
    /// where the caller is the new owner; the registry is then unchanged.
    pub fn transfer(
        &mut self,
        who: Identity,
        new_owner: Identity,
        kitty_id: AssetIndex,
    ) -> (done: Result<Event, Error>)
        requires
            old(self).wf(),
        ensures
            final(self).wf(),
            match done {
                Ok(event) => {
                    &&& transfer_refusal(old(self)@.assets, who, new_owner, kitty_id) is None
                    &&& event == Event::AssetTransferred(who, new_owner, kitty_id)
                    &&& final(self)@ == (RegistryView {
                        assets: handed_over(old(self)@.assets, kitty_id, new_owner),
                        ..old(self)@
                    })
                },
                Err(error) => {
                    &&& transfer_refusal(old(self)@.assets, who, new_owner, kitty_id) == Some(error)
                    &&& final(self)@ == old(self)@
                },
            },
    {
        match self.transfer_ownership(who, new_owner, kitty_id) {
            Ok(_) => Ok(Event::AssetTransferred(who, new_owner, kitty_id)),
            Err(error) => Err(error),
        }
    }

    /// Settles a sale at `price` in the ledger, in four steps: the stake and
    /// the price are put on hold against the buyer; as much is released from
    /// the seller's hold; the price is released from the buyer's hold, which
    /// leaves the stake there; and the price moves from the buyer to the
    /// seller.
    ///
    /// Only the first step can fail, and then nothing has happened.
    pub fn transfer_balance(
        &self,
        ledger: &mut EscrowLedger,
        buyer: Identity,
        seller: Identity,
        price: Balance,
    ) -> (done: Result<(), Error>)
        requires
            old(ledger).wf(),
        ensures
            final(ledger).wf(),
            final(ledger).issuance() == old(ledger).issuance(),
            match done {
                Ok(_) => {
                    &&& self@.stake + price <= old(ledger)@[buyer].available
                    &&& final(ledger)@ == settled(old(ledger)@, buyer, seller, self@.stake, price as nat)
                },
                Err(error) => {
                    &&& error == Error::InsufficientFunds
                    &&& self@.stake + price > old(ledger)@[buyer].available
                    &&& final(ledger)@ == old(ledger)@
                },
            },
    {
        proof {
            ledger.lemma_holding_bounded(buyer);
        }
        let amount = match self.config.creation_stake.checked_add(price) {
            Some(amount) => amount,
            None => {
                return Err(Error::InsufficientFunds);
            },
        };
        if ledger.hold(buyer, amount).is_err() {
            return Err(Error::InsufficientFunds);
        }
        let _ = ledger.release(seller, amount);
        let _ = ledger.release(buyer, price);
        match ledger.transfer(buyer, seller, price) {
            Ok(_) => Ok(()),
            Err(_) => Err(Error::InsufficientFunds),
        }
    }

    /// What `buy` and `sell` share: all checks, then the settlement, then
    /// the change of owner.
    fn trade(
        &mut self,
        ledger: &mut EscrowLedger,
        seller: Identity,
        buyer: Identity,
        index: AssetIndex,
        price: Balance,
    ) -> (done: Result<(), Error>)
        requires
            old(self).wf(),
            old(ledger).wf(),
        ensures
            final(self).wf(),
            final(ledger).wf(),
            final(ledger).issuance() == old(ledger).issuance(),
            match done {
                Ok(_) => {
                    &&& sale_refusal(old(self)@, old(ledger)@, seller, buyer, index, price as nat) is None
                    &&& final(self)@ == (RegistryView {
                        assets: handed_over(old(self)@.assets, index, buyer),
                        ..old(self)@
                    })
                    &&& final(ledger)@ == settled(
                        old(ledger)@,
                        buyer,
                        seller,
                        old(self)@.stake,
                        price as nat,
                    )
                },
                Err(error) => {
                    &&& sale_refusal(old(self)@, old(ledger)@, seller, buyer, index, price as nat)
                        == Some(error)
                    &&& final(self)@ == old(self)@
                    &&& final(ledger)@ == old(ledger)@
                },
            },
    {
        if let Err(error) = self.check_transfer(seller, buyer, index) {
            return Err(error);
        }
        if let Err(error) = self.transfer_balance(ledger, buyer, seller, price) {
            return Err(error);
        }
        let _ = self.store.set_owner(index, buyer);
        Ok(())
    }

    /// The caller buys the asset `kitty_id` from `seller` at `price`.
    ///
    /// Fails with `NotFound` where there is no such asset, else with
    /// `NotOwner` where it is not the seller's, else with `SelfTransfer`
    /// where the seller is the buyer, else with `InsufficientFunds` where
    /// the buyer cannot have the stake and the price put on hold. Registry
    /// and ledger are then unchanged: the asset stays with its owner.
    pub fn buy(
        &mut self,
        ledger: &mut EscrowLedger,
        buyer: Identity,
        seller: Identity,
        kitty_id: AssetIndex,
        price: Balance,
    ) -> (done: Result<Event, Error>)
        requires
            old(self).wf(),
            old(ledger).wf(),
        ensures
            final(self).wf(),
            final(ledger).wf(),
            final(ledger).issuance() == old(ledger).issuance(),
            match done {
                Ok(event) => {
                    &&& sale_refusal(old(self)@, old(ledger)@, seller, buyer, kitty_id, price as nat) is None
                    &&& event == Event::AssetBought(buyer, seller, kitty_id, price)
                    &&& final(self)@ == (RegistryView {
                        assets: handed_over(old(self)@.assets, kitty_id, buyer),
                        ..old(self)@
                    })
                    &&& final(ledger)@ == settled(
                        old(ledger)@,
                        buyer,
                        seller,
                        old(self)@.stake,
                        price as nat,
                    )
                },
                Err(error) => {
                    &&& sale_refusal(old(self)@, old(ledger)@, seller, buyer, kitty_id, price as nat)
                        == Some(error)
                    &&& final(self)@ == old(self)@
                    &&& final(ledger)@ == old(ledger)@
                },
            },
    {
        match self.trade(ledger, seller, buyer, kitty_id, price) {
            Ok(_) => Ok(Event::AssetBought(buyer, seller, kitty_id, price)),
            Err(error) => Err(error),
        }
    }

    /// The caller sells the asset `kitty_id` to `buyer` at `price`.
    ///
    /// Fails with `NotFound` where there is no such asset, else with
    /// `NotOwner` where it is not the caller's, else with `SelfTransfer`
    /// where the caller is the buyer, else with `InsufficientFunds` where
    /// the buyer cannot have the stake and the price put on hold. Registry
    /// and ledger are then unchanged.
    pub fn sell(
        &mut self,
        ledger: &mut EscrowLedger,
        seller: Identity,
        buyer: Identity,
        kitty_id: AssetIndex,
        price: Balance,
    ) -> (done: Result<Event, Error>)
        requires
            old(self).wf(),
            old(ledger).wf(),
        ensures
            final(self).wf(),
            final(ledger).wf(),
            final(ledger).issuance() == old(ledger).issuance(),
            match done {
                Ok(event) => {
                    &&& sale_refusal(old(self)@, old(ledger)@, seller, buyer, kitty_id, price as nat) is None
                    &&& event == Event::AssetSold(seller, buyer, kitty_id, price)
                    &&& final(self)@ == (RegistryView {
                        assets: handed_over(old(self)@.assets, kitty_id, buyer),
                        ..old(self)@
                    })
                    &&& final(ledger)@ == settled(
                        old(ledger)@,
                        buyer,
                        seller,
                        old(self)@.stake,
                        price as nat,
                    )
                },
                Err(error) => {
                    &&& sale_refusal(old(self)@, old(ledger)@, seller, buyer, kitty_id, price as nat)
                        == Some(error)
                    &&& final(self)@ == old(self)@
                    &&& final(ledger)@ == old(ledger)@
                },
            },
    {
        match self.trade(ledger, seller, buyer, kitty_id, price) {
            Ok(_) => Ok(Event::AssetSold(seller, buyer, kitty_id, price)),
            Err(error) => Err(error),
        }
    }

    /// Breeds a new asset for the caller from two existing ones, whoever
    /// owns them, with a selector derived from the chain context and the
    /// caller.
    ///
    /// Fails with `IdenticalParents` where the two indices are equal, else
    /// with `NotFound` where one of the assets does not exist, else with
    /// `RegistryFull` where no index is left; the registry is then
    /// unchanged.
    pub fn breed(
        &mut self,
        who: Identity,
        kitty_id_1: AssetIndex,
        kitty_id_2: AssetIndex,
        context: &Context,
    ) -> (done: Result<Event, Error>)
        requires
            old(self).wf(),
        ensures
            final(self).wf(),
            match done {
                Ok(event) => {
                    &&& breed_refusal(old(self)@, kitty_id_1, kitty_id_2) is None
                    &&& event == Event::AssetCreated(who, old(self)@.next_index as AssetIndex)
                    &&& final(self)@ == with_new_asset(
                        old(self)@,
                        mixed(
                            derived(*context, who),
                            old(self)@.assets[kitty_id_1].payload,
                            old(self)@.assets[kitty_id_2].payload,
                        ),
                        who,
                    )
                },
                Err(error) => {
                    &&& breed_refusal(old(self)@, kitty_id_1, kitty_id_2) == Some(error)
                    &&& final(self)@ == old(self)@
                },
            },
    {
        let selector = random_value(who, context);
        self.breed_with_selector(who, kitty_id_1, kitty_id_2, &selector)
    }

    /// Breeds a new asset with the given selector: what `breed` does once
    /// the selector has been derived. Each bit of the child's payload is the
    /// first parent's where the selector has a one, the second parent's
    /// where it has a zero.
    pub fn breed_with_selector(
        &mut self,
        who: Identity,
        kitty_id_1: AssetIndex,
        kitty_id_2: AssetIndex,
        selector: &[u8; 16],
    ) -> (done: Result<Event, Error>)
        requires
            old(self).wf(),
        ensures
            final(self).wf(),
            match done {
                Ok(event) => {
                    &&& breed_refusal(old(self)@, kitty_id_1, kitty_id_2) is None
                    &&& event == Event::AssetCreated(who, old(self)@.next_index as AssetIndex)
                    &&& final(self)@ == with_new_asset(
                        old(self)@,
                        mixed(
                            selector@,
                            old(self)@.assets[kitty_id_1].payload,
                            old(self)@.assets[kitty_id_2].payload,
                        ),
                        who,
                    )
                },
                Err(error) => {
                    &&& breed_refusal(old(self)@, kitty_id_1, kitty_id_2) == Some(error)
                    &&& final(self)@ == old(self)@
                },
            },
    {
        if kitty_id_1 == kitty_id_2 {
            return Err(Error::IdenticalParents);
        }
        let kitty1 = match self.store.get(kitty_id_1) {
            Ok(asset) => asset.payload,
            Err(_) => {
                return Err(Error::NotFound);
            },
        };
        let kitty2 = match self.store.get(kitty_id_2) {
            Ok(asset) => asset.payload,
            Err(_) => {
                return Err(Error::NotFound);
            },
        };
        let index = match self.allocator.allocate() {
            Ok(index) => index,
            Err(_) => {
                return Err(Error::RegistryFull);
            },
        };
        let new_dna = mix(selector, &kitty1.0, &kitty2.0);
        self.record(index, Kitty(new_dna), who);
        Ok(Event::AssetCreated(who, index))
    }
}

/// What a sale does to the two parties' funds, where the seller has at least
/// the stake and the price on hold: the seller's hold goes down by exactly
/// the stake and the price, the buyer's goes up by exactly the stake, and
/// nobody else's funds change.
///
/// The seller's available funds go up by what was released and by the
/// price; the buyer's go down by the stake and the price.
pub proof fn lemma_sale_moves_stake(
    ledger: Map<Identity, Holding>,
    buyer: Identity,
    seller: Identity,
    stake: nat,
    price: nat,
)
    requires
        buyer != seller,
        stake + price <= ledger[buyer].available,
        stake + price <= ledger[seller].held,
    ensures
        settled(ledger, buyer, seller, stake, price)[seller].held == ledger[seller].held - (stake + price),
        settled(ledger, buyer, seller, stake, price)[buyer].held == ledger[buyer].held + stake,
        settled(ledger, buyer, seller, stake, price)[seller].available
            == ledger[seller].available + stake + price + price,
        settled(ledger, buyer, seller, stake, price)[buyer].available
            == ledger[buyer].available - stake - price,
        forall|other: Identity|
            other != buyer && other != seller ==> #[trigger] settled(ledger, buyer, seller, stake, price)[other]
                == ledger[other],
{
}

/// What a sale does to the two parties' funds in general: the seller's hold
/// goes down by the stake and the price, or to nothing where it was less
/// than that; the buyer's goes up by exactly the stake. The funds of the two
/// together are what they were.
pub proof fn lemma_sale_settles(
    ledger: Map<Identity, Holding>,
    buyer: Identity,
    seller: Identity,
    stake: nat,
    price: nat,
)
    requires
        buyer != seller,
        stake + price <= ledger[buyer].available,
    ensures
        settled(ledger, buyer, seller, stake, price)[seller].held
            == ledger[seller].held - releasable(ledger, seller, stake + price),
        settled(ledger, buyer, seller, stake, price)[buyer].held == ledger[buyer].held + stake,
        settled(ledger, buyer, seller, stake, price)[seller].available
            == ledger[seller].available + releasable(ledger, seller, stake + price) + price,
        settled(ledger, buyer, seller, stake, price)[buyer].available
            == ledger[buyer].available - stake - price,
{
}

/// Hold before release: from the first step of a settlement on, the buyer
/// has the stake on hold, so that there is no step at which neither party
/// holds it.
pub proof fn lemma_stake_stays_held(
    ledger: Map<Identity, Holding>,
    buyer: Identity,
    seller: Identity,
    stake: nat,
    price: nat,
)
    requires
        buyer != seller,
        stake + price <= ledger[buyer].available,
    ensures
        ({
            let first = held_up(ledger, buyer, stake + price);
            let second = released(first, seller, stake + price);
            let third = released(second, buyer, price);
            let fourth = moved(third, buyer, seller, price);
            &&& first[buyer].held >= stake + price
            &&& second[buyer].held >= stake + price
            &&& third[buyer].held >= stake
            &&& fourth[buyer].held >= stake
            &&& fourth == settled(ledger, buyer, seller, stake, price)
        }),
{
}

} // verus!
