//! The plain values that every component speaks of.

use vstd::prelude::*;

verus! {

/// The index of an asset. Indices are handed out in increasing order and are
/// never used twice.
pub type AssetIndex = u32;

/// An account, as the caller-authentication stage in front of this crate has
/// established it.
pub type Identity = u64;

/// An amount of funds.
pub type Balance = u128;

} // verus!
