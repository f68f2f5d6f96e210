//! Derivation of asset payloads.
//!
//! A fresh payload is the 128-bit Blake2 digest of the chain context and the
//! caller. A bred payload takes every bit from one of its two parents, as a
//! freshly derived selector decides.

use vstd::prelude::*;
use vstd::arithmetic::power2::pow2;
use parity_scale_codec::Encode;
use crate::primitives::Identity;

verus! {

/// The number of bytes in a payload.
pub const DNA_LEN: usize = 16;

/// The 128-bit Blake2 digest of `data`, as `sp_io::hashing::blake2_128`
/// computes it. Nothing is claimed of it but that it depends on `data` alone.
pub uninterp spec fn blake2_128(data: Seq<u8>) -> Seq<u8>;

/// What a transaction brings from the chain into a derivation: the block's
/// randomness seed and the transaction's position within the block, where
/// it has one.
#[derive(Clone, Copy, Debug, PartialEq, Eq)]
pub struct Context {
    pub seed: [u8; 32],
    pub extrinsic_index: Option<u32>,
}

/// The first `width` bytes of `value`, the least significant one first:
/// byte `i` is `value / 256^i`, modulo 256.
pub open spec fn le_bytes(value: nat, width: nat) -> Seq<u8> {
    Seq::new(width, |i: int| ((value / pow2(8 * i as nat)) % 256) as u8)
}

/// The bytes that are digested: the seed as it stands, the sender as eight
/// bytes, least significant first, and the position as one byte that tells
/// whether there is one, followed, if so, by its four bytes, least
/// significant first.
pub open spec fn preimage(
    seed: Seq<u8>,
    sender: Identity,
    extrinsic_index: Option<u32>,
) -> Seq<u8> {
    seed + le_bytes(sender as nat, 8) + match extrinsic_index {
        Some(position) => seq![1u8] + le_bytes(position as nat, 4),
        None => seq![0u8],
    }
}

/// The payload derived for `sender` in `context`.
pub open spec fn derived(context: Context, sender: Identity) -> Seq<u8> {
    blake2_128(preimage(context.seed@, sender, context.extrinsic_index))
}

/// One byte of a bred payload: the bits of `a` where `selector` has a one,
/// the bits of `b` where it has a zero.
pub open spec fn mix_byte(selector: u8, a: u8, b: u8) -> u8 {
    (selector & a) | (!selector & b)
}

/// A bred payload, byte by byte.
pub open spec fn mixed(selector: Seq<u8>, a: Seq<u8>, b: Seq<u8>) -> Seq<u8> {
    Seq::new(DNA_LEN as nat, |i: int| mix_byte(selector[i], a[i], b[i]))
}

/// Calls `parity_scale_codec::Encode::encode` on the tuple of the seed, a
/// reference to the sender and the position. The contract writes out what
/// SCALE prescribes for that tuple: the fields one after the other, an array
/// of bytes as it stands, an integer in little-endian order, an `Option` as a
/// tag byte followed by the value where there is one.
#[verifier::external_body]
fn scale_encode(seed: &[u8; 32], sender: Identity, extrinsic_index: Option<u32>) -> (bytes: Vec<u8>)
    ensures
        bytes@ == preimage(seed@, sender, extrinsic_index),
{
    (seed, &sender, extrinsic_index).encode()
}

/// Calls `sp_io::hashing::blake2_128`. The contract gives the digest its
/// name and claims nothing else of it.
#[verifier::external_body]
fn blake2_128_digest(data: &[u8]) -> (digest: [u8; 16])
    ensures
        digest@ == blake2_128(data@),
{
    sp_io::hashing::blake2_128(data)
}

/// Derives sixteen bytes from the chain context and the sender: the digest
/// of the encoded tuple (seed, sender, position). The same three inputs give
/// the same bytes.
pub fn random_value(sender: Identity, context: &Context) -> (value: [u8; 16])
    ensures
        value@ == derived(*context, sender),
{
    let bytes = scale_encode(&context.seed, sender, context.extrinsic_index);
    blake2_128_digest(bytes.as_slice())
}

/// Breeds a payload from two parents: bit by bit, from `a` where `selector`
/// has a one and from `b` where it has a zero.
pub fn mix(selector: &[u8; 16], a: &[u8; 16], b: &[u8; 16]) -> (child: [u8; 16])
    ensures
        child@ == mixed(selector@, a@, b@),
{
    let mut child = [0u8; 16];
    let mut i: usize = 0;
    while i < 16
        invariant
            i <= 16,
            forall|k: int| 0 <= k < i ==> child@[k] == mix_byte(selector@[k], a@[k], b@[k]),
        decreases 16 - i,
    {
        child[i] = (selector[i] & a[i]) | (!selector[i] & b[i]);
        i += 1;
    }
    assert(child@ =~= mixed(selector@, a@, b@));
    child
}

/// Every bit of a bred byte comes from exactly one parent: where the
/// selector has a one the child agrees with `a`, where it has a zero the
/// child agrees with `b`.
pub proof fn lemma_mix_byte_selects(selector: u8, a: u8, b: u8)
    ensures
        mix_byte(selector, a, b) & selector == a & selector,
        mix_byte(selector, a, b) & !selector == b & !selector,
{
    assert(((selector & a) | (!selector & b)) & selector == a & selector) by (bit_vector);
    assert(((selector & a) | (!selector & b)) & !selector == b & !selector) by (bit_vector);
}

} // verus!
