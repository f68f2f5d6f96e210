//! Where a call comes from.

use vstd::prelude::*;
use crate::primitives::Identity;

verus! {

/// The origin of a call, as the stage in front of the registries has
/// established it.
#[derive(Clone, Copy, Debug, PartialEq, Eq)]
pub enum Origin {
    /// The system itself.
    Root,
    /// An identity that signed the call.
    Signed(Identity),
    /// Nobody.
    Nobody,
}

/// The call was not signed by an identity.
#[derive(Clone, Copy, Debug, PartialEq, Eq)]
pub struct BadOrigin;

impl Origin {
    /// The origin of a call that `who` signed.
    pub fn signed(who: Identity) -> (origin: Self)
        ensures
            origin == Origin::Signed(who),
    {
        Origin::Signed(who)
    }

    /// The origin of a call that nobody signed.
    pub fn none() -> (origin: Self)
        ensures
            origin == Origin::Nobody,
    {
        Origin::Nobody
    }

    /// The origin of a call of the system itself.
    pub fn root() -> (origin: Self)
        ensures
            origin == Origin::Root,
    {
        Origin::Root
    }

    /// The identity that signed, if one did.
    pub open spec fn signer(self) -> Option<Identity> {
        match self {
            Origin::Signed(who) => Some(who),
            _ => None,
        }
    }
}

/// The identity that signed the call, or `BadOrigin` where none did.
pub fn ensure_signed(origin: Origin) -> (signed: Result<Identity, BadOrigin>)
    ensures
        match signed {
            Ok(who) => origin.signer() == Some(who),
            Err(_) => origin.signer() is None,
        },
{
    match origin {
        Origin::Signed(who) => Ok(who),
        _ => Err(BadOrigin),
    }
}

} // verus!
