//! Authenticated encryption with AES-128 in Galois/counter mode.

use vstd::prelude::*;

verus! {

/// The length of a cipher key, in bytes.
pub const KEY_LEN: usize = 16;

/// The length of a nonce, in bytes.
pub const NONCE_LEN: usize = 12;

/// The length of an authentication tag, in bytes.
pub const TAG_LEN: usize = 16;

/// The longest plaintext that is handed to the cipher in one piece.
pub const MAX_PIECE_LEN: usize = 0x4000_0000;

/// The ciphertext and the tag that the cipher gives for a plaintext under a
/// key and a nonce.
pub uninterp spec fn sealed(key: Seq<u8>, nonce: Seq<u8>, plaintext: Seq<u8>) -> (Seq<u8>, Seq<u8>);

/// The plaintext that the cipher gives for a ciphertext and its tag under a
/// key and a nonce, or `None` where the tag does not verify.
pub uninterp spec fn opened(key: Seq<u8>, nonce: Seq<u8>, ciphertext: Seq<u8>, tag: Seq<u8>) -> Option<
    Seq<u8>,
>;

/// What holds of a ciphertext and tag that the cipher handed out for
/// `plaintext`: they are the cipher's answer for these arguments, the
/// ciphertext is as long as the plaintext, the tag has the length asked
/// for, and opening them under the same key and nonce gives the plaintext.
pub open spec fn is_sealed(
    key: Seq<u8>,
    nonce: Seq<u8>,
    plaintext: Seq<u8>,
    ciphertext: Seq<u8>,
    tag: Seq<u8>,
) -> bool {
    &&& (ciphertext, tag) == sealed(key, nonce, plaintext)
    &&& ciphertext.len() == plaintext.len()
    &&& tag.len() == TAG_LEN
    &&& opened(key, nonce, ciphertext, tag) == Some(plaintext)
}

/// Encrypts `plaintext` and computes its tag.
///
/// Trusted: calls `openssl::symm::encrypt_aead` with the cipher
/// `aes_128_gcm`, no associated data and a tag buffer of `TAG_LEN` bytes.
/// The contract claims of a successful call what `is_sealed` says; of a
/// failed call it claims nothing. `requires` keeps the key and nonce at the
/// cipher's lengths and the plaintext within the length that the binding
/// can pass on.
#[verifier::external_body]
pub(crate) fn seal(key: &[u8], nonce: &[u8], plaintext: &[u8]) -> (res: Option<(Vec<u8>, Vec<u8>)>)
    requires
        key@.len() == KEY_LEN,
        nonce@.len() == NONCE_LEN,
        plaintext@.len() <= MAX_PIECE_LEN,
    ensures
        res matches Some(out) ==> (out.0@, out.1@) == sealed(key@, nonce@, plaintext@),
        res matches Some(out) ==> is_sealed(key@, nonce@, plaintext@, out.0@, out.1@),
{
    let mut tag = vec![0u8; TAG_LEN];
    let cipher = openssl::symm::Cipher::aes_128_gcm();
    let body = openssl::symm::encrypt_aead(cipher, key, Some(nonce), &[], plaintext, &mut tag).ok()?;
    Some((body, tag))
}

/// Verifies `tag` and decrypts `ciphertext`.
///
/// Trusted: calls `openssl::symm::decrypt_aead` with the cipher
/// `aes_128_gcm` and no associated data. The contract claims that the
/// outcome is the function `opened` of the four arguments, an error of the
/// cipher standing for a tag that does not verify, and that a plaintext is
/// as long as its ciphertext.
#[verifier::external_body]
pub(crate) fn open(key: &[u8], nonce: &[u8], ciphertext: &[u8], tag: &[u8]) -> (res: Option<Vec<u8>>)
    requires
        key@.len() == KEY_LEN,
        nonce@.len() == NONCE_LEN,
        tag@.len() == TAG_LEN,
        ciphertext@.len() <= MAX_PIECE_LEN,
    ensures
        match res {
            Some(plaintext) => opened(key@, nonce@, ciphertext@, tag@) == Some(plaintext@)
                && plaintext@.len() == ciphertext@.len(),
            None => opened(key@, nonce@, ciphertext@, tag@) is None,
        },
{
    let cipher = openssl::symm::Cipher::aes_128_gcm();
    openssl::symm::decrypt_aead(cipher, key, Some(nonce), &[], ciphertext, tag).ok()
}

} // verus!
