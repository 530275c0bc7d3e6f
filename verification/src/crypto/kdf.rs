//! Key derivation and random key material.

use vstd::prelude::*;

verus! {

/// The longest output that one derivation can produce.
pub const MAX_DERIVED_LEN: usize = 8160;

/// The output of HKDF with SHA-256 and no salt, for the given input key
/// material, context label and output length.
pub uninterp spec fn hkdf_sha256(ikm: Seq<u8>, info: Seq<u8>, len: nat) -> Seq<u8>;

/// Derives `len` bytes from `ikm` under the label `info`.
///
/// Trusted: calls `hkdf::Hkdf::<sha2::Sha256>::new` without a salt and then
/// `expand`. The contract claims that the output is a function of the three
/// arguments and that it fills exactly `len` bytes; `expand` refuses only
/// lengths above 255 hash blocks, which `requires` leaves out.
#[verifier::external_body]
pub(crate) fn derive(ikm: &[u8], info: &[u8], len: usize) -> (okm: Vec<u8>)
    requires
        len <= MAX_DERIVED_LEN,
    ensures
        okm@ == hkdf_sha256(ikm@, info@, len as nat),
        okm@.len() == len,
{
    let mut okm = vec![0u8; len];
    hkdf::Hkdf::<sha2::Sha256>::new(None, ikm)
        .expand(info, &mut okm)
        .expect("the length is within what the derivation allows");
    okm
}

/// Draws `len` bytes from the system's secure random source.
///
/// Trusted: calls `openssl::rand::rand_bytes`. Nothing is claimed of the
/// bytes but their number; `None` stands for a failure of the source.
#[verifier::external_body]
pub(crate) fn random_bytes(len: usize) -> (res: Option<Vec<u8>>)
    requires
        len <= 0x7fff_ffff,
    ensures
        res matches Some(bytes) ==> bytes@.len() == len,
{
    let mut bytes = vec![0u8; len];
    openssl::rand::rand_bytes(&mut bytes).ok()?;
    Some(bytes)
}

} // verus!
