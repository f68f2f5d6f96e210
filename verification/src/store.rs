//! The store of asset records.

use vstd::prelude::*;
use std::collections::HashMap;
use crate::primitives::{AssetIndex, Identity};

verus! {

broadcast use vstd::std_specs::hash::group_hash_axioms;

/// The payload of an asset: sixteen opaque bytes, fixed when the asset is
/// made.
#[derive(Clone, Copy, Debug, PartialEq, Eq)]
pub struct Kitty(pub [u8; 16]);

impl View for Kitty {
    type V = Seq<u8>;

    open spec fn view(&self) -> Seq<u8> {
        self.0@
    }
}

/// An asset as the store keeps it: its payload and its current owner.
#[derive(Clone, Copy, Debug, PartialEq, Eq)]
pub struct Asset {
    pub payload: Kitty,
    pub owner: Identity,
}

/// An asset as contracts speak of it.
pub ghost struct AssetView {
    /// The sixteen bytes of the payload.
    pub payload: Seq<u8>,
    /// The current owner.
    pub owner: Identity,
}

impl View for Asset {
    type V = AssetView;

    open spec fn view(&self) -> AssetView {
        AssetView { payload: self.payload@, owner: self.owner }
    }
}

/// No asset has the index that was asked for.
#[derive(Clone, Copy, Debug, PartialEq, Eq)]
pub struct NotFound;

/// Maps each existing asset's index to its record. An index without a
/// record stands for an asset that does not exist, which is not the same as
/// an asset that nobody owns: every record names exactly one owner.
pub struct AssetStore {
    assets: HashMap<AssetIndex, Asset>,
}

impl View for AssetStore {
    type V = Map<AssetIndex, AssetView>;

    closed spec fn view(&self) -> Map<AssetIndex, AssetView> {
        self.assets@.map_values(|asset: Asset| asset@)
    }
}

impl AssetStore {
    /// A store without assets.
    pub fn new() -> (store: Self)
        ensures
            store@ == Map::<AssetIndex, AssetView>::empty(),
    {
        let store = AssetStore { assets: HashMap::new() };
        assert(store@ =~= Map::<AssetIndex, AssetView>::empty());
        store
    }

    /// Every payload in the store has sixteen bytes.
    pub proof fn lemma_payload_len(&self, index: AssetIndex)
        requires
            self@.contains_key(index),
        ensures
            self@[index].payload.len() == 16,
    {
    }

    /// Whether an asset with this index exists.
    pub fn contains(&self, index: AssetIndex) -> (found: bool)
        ensures
            found == self@.contains_key(index),
    {
        self.assets.contains_key(&index)
    }

    /// Creates the record of a new asset, payload and owner at once. The
    /// index must be a fresh one.
    pub fn insert(&mut self, index: AssetIndex, payload: Kitty, owner: Identity)
        requires
            !old(self)@.contains_key(index),
        ensures
            final(self)@ == old(self)@.insert(index, (AssetView { payload: payload@, owner })),
    {
        self.assets.insert(index, Asset { payload, owner });
        assert(final(self)@ =~= old(self)@.insert(index, (AssetView { payload: payload@, owner })));
    }

    /// The record of the asset with this index.
    pub fn get(&self, index: AssetIndex) -> (found: Result<Asset, NotFound>)
        ensures
            match found {
                Ok(asset) => self@.contains_key(index) && asset@ == self@[index],
                Err(_) => !self@.contains_key(index),
            },
    {
        match self.assets.get(&index) {
            Some(asset) => Ok(*asset),
            None => Err(NotFound),
        }
    }

    /// The one owner of the asset with this index.
    pub fn owner_of(&self, index: AssetIndex) -> (found: Result<Identity, NotFound>)
        ensures
            match found {
                Ok(owner) => self@.contains_key(index) && owner == self@[index].owner,
                Err(_) => !self@.contains_key(index),
            },
    {
        match self.assets.get(&index) {
            Some(asset) => Ok(asset.owner),
            None => Err(NotFound),
        }
    }

    /// Hands the asset to a new owner. Its payload stays, and so does every
    /// other record. Without such an asset nothing changes.
    pub fn set_owner(
        &mut self,
        index: AssetIndex,
        new_owner: Identity,
    ) -> (done: Result<(), NotFound>)
        ensures
            match done {
                Ok(_) => {
                    &&& old(self)@.contains_key(index)
                    &&& final(self)@ == old(self)@.insert(
                        index,
                        (AssetView { payload: old(self)@[index].payload, owner: new_owner }),
                    )
                },
                Err(_) => !old(self)@.contains_key(index) && final(self)@ == old(self)@,
            },
    {
        let payload = match self.assets.get(&index) {
            Some(asset) => asset.payload,
            None => {
                return Err(NotFound);
            },
        };
        self.assets.insert(index, Asset { payload, owner: new_owner });
        assert(final(self)@ =~= old(self)@.insert(
            index,
            (AssetView { payload: old(self)@[index].payload, owner: new_owner }),
        ));
        Ok(())
    }
}

} // verus!
