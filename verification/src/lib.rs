//! Verified ledger modules.
//!
//! `kitties` is a registry and marketplace for uniquely owned digital
//! assets. It is laid out leaf first: an index allocator, an asset store, an
//! escrow ledger and the payload derivation, then the registry that composes
//! them into the five operations `create`, `transfer`, `buy`, `sell` and
//! `breed`.
//!
//! `poe` is a registry of claims: byte strings that whoever enters them
//! first owns, and may revoke or hand on.

pub mod allocator;
pub mod dna;
pub mod escrow;
pub mod kitties;
pub mod origin;
pub mod poe;
pub mod primitives;
pub mod store;

pub use allocator::{IndexAllocator, OverflowError};
pub use escrow::{EscrowLedger, Holding, InsufficientFunds, IssuanceOverflow};
pub use kitties::{Config, Error, Event, Pallet, RegistryView};
pub use origin::{ensure_signed, BadOrigin, Origin};
pub use primitives::{AssetIndex, Balance, Identity};
pub use store::{Asset, AssetStore, AssetView, Kitty, NotFound};
