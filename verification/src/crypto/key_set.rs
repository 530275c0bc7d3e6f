//! The keys of one transfer, all derived from one shared secret.

use vstd::prelude::*;
use crate::crypto::aead::KEY_LEN;
use crate::crypto::aead::NONCE_LEN;
use crate::crypto::b64;
use crate::crypto::kdf;
use crate::wire::ascii;
use crate::wire::ascii_bytes;

verus! {

/// The length of a freshly generated secret, in bytes.
pub const SECRET_LEN: usize = 16;

/// The length of the authentication key, in bytes.
pub const AUTH_KEY_LEN: usize = 64;

/// The label under which the authentication key is derived.
pub open spec fn auth_label() -> Seq<u8> {
    ascii("authentication"@)
}

/// The label under which the metadata key is derived.
pub open spec fn meta_label() -> Seq<u8> {
    ascii("metadata"@)
}

/// The label under which the content key is derived.
pub open spec fn file_label() -> Seq<u8> {
    ascii("file-content"@)
}

/// The authentication key that belongs to `secret`.
pub open spec fn derived_auth_key(secret: Seq<u8>) -> Seq<u8> {
    kdf::hkdf_sha256(secret, auth_label(), AUTH_KEY_LEN as nat)
}

/// The metadata key that belongs to `secret`.
pub open spec fn derived_meta_key(secret: Seq<u8>) -> Seq<u8> {
    kdf::hkdf_sha256(secret, meta_label(), KEY_LEN as nat)
}

/// The content key that belongs to `secret`.
pub open spec fn derived_file_key(secret: Seq<u8>) -> Seq<u8> {
    kdf::hkdf_sha256(secret, file_label(), KEY_LEN as nat)
}

/// The key material of one transfer.
pub struct KeySet {
    secret: Vec<u8>,
    iv: [u8; 12],
    file_key: Vec<u8>,
    auth_key: Vec<u8>,
    meta_key: Vec<u8>,
    owning: bool,
}

/// What a key set holds, as plain values.
pub struct KeySetView {
    pub secret: Seq<u8>,
    pub iv: Seq<u8>,
    pub file_key: Seq<u8>,
    pub auth_key: Seq<u8>,
    pub meta_key: Seq<u8>,
    pub owning: bool,
}

impl KeySetView {
    /// Whether the three keys are the ones that belong to the secret, and
    /// the lengths are the cipher's.
    pub open spec fn wf(self) -> bool {
        &&& self.iv.len() == NONCE_LEN
        &&& self.file_key == derived_file_key(self.secret)
        &&& self.auth_key == derived_auth_key(self.secret)
        &&& self.meta_key == derived_meta_key(self.secret)
        &&& self.file_key.len() == KEY_LEN
        &&& self.meta_key.len() == KEY_LEN
        &&& self.auth_key.len() == AUTH_KEY_LEN
    }
}

impl View for KeySet {
    type V = KeySetView;

    closed spec fn view(&self) -> KeySetView {
        KeySetView {
            secret: self.secret@,
            iv: self.iv@,
            file_key: self.file_key@,
            auth_key: self.auth_key@,
            meta_key: self.meta_key@,
            owning: self.owning,
        }
    }
}

impl KeySet {
    /// Whether the keys belong to the secret.
    #[verifier::type_invariant]
    pub closed spec fn wf(&self) -> bool {
        self@.wf()
    }

    /// Derives the key set of a secret that was handed over, as a
    /// downloader does. The result does not own the secret.
    pub fn from(secret: Vec<u8>, iv: [u8; 12]) -> (keys: KeySet)
        ensures
            keys@.wf(),
            keys@.secret == secret@,
            keys@.iv == iv@,
            !keys@.owning,
    {
        Self::derive(secret, iv, false)
    }

    /// Generates a fresh random secret and nonce and derives the keys.
    /// `None` is returned only where the random source fails.
    pub fn generate(owning: bool) -> (res: Option<KeySet>)
        ensures
            res matches Some(keys) ==> keys@.wf() && keys@.owning == owning && keys@.secret.len()
                == SECRET_LEN,
    {
        let secret = kdf::random_bytes(SECRET_LEN);
        let nonce = kdf::random_bytes(NONCE_LEN);
        Self::from_random(secret, nonce, owning)
    }

    /// Builds the key set from what the random source gave: `None` where
    /// either draw failed or the nonce is not of the cipher's length, else
    /// the keys of the drawn secret with the drawn nonce.
    pub fn from_random(secret: Option<Vec<u8>>, nonce: Option<Vec<u8>>, owning: bool) -> (res: Option<
        KeySet,
    >)
        ensures
            (secret is Some && nonce is Some && nonce->0@.len() == NONCE_LEN) <==> res is Some,
            res matches Some(keys) ==> keys@.wf() && keys@.owning == owning && keys@.secret
                == secret->0@ && keys@.iv == nonce->0@,
    {
        match (secret, nonce) {
            (Some(secret), Some(nonce)) => {
                if nonce.len() != NONCE_LEN {
                    return None;
                }
                let mut iv = [0u8; 12];
                let mut i: usize = 0;
                while i < 12
                    invariant
                        i <= 12,
                        nonce@.len() == 12,
                        forall|j: int| 0 <= j < i ==> iv@[j] == nonce@[j],
                    decreases 12 - i,
                {
                    iv[i] = nonce[i];
                    i = i + 1;
                }
                assert(iv@ =~= nonce@);
                Some(Self::derive(secret, iv, owning))
            },
            _ => None,
        }
    }

    fn derive(secret: Vec<u8>, iv: [u8; 12], owning: bool) -> (keys: KeySet)
        ensures
            keys@.wf(),
            keys@.secret == secret@,
            keys@.iv == iv@,
            keys@.owning == owning,
    {
        proof {
            reveal_strlit("authentication");
            reveal_strlit("metadata");
            reveal_strlit("file-content");
        }
        let auth_info = ascii_bytes("authentication");
        let meta_info = ascii_bytes("metadata");
        let file_info = ascii_bytes("file-content");
        let file_key = kdf::derive(secret.as_slice(), file_info.as_slice(), KEY_LEN);
        let auth_key = kdf::derive(secret.as_slice(), auth_info.as_slice(), AUTH_KEY_LEN);
        let meta_key = kdf::derive(secret.as_slice(), meta_info.as_slice(), KEY_LEN);
        KeySet { secret, iv, file_key, auth_key, meta_key, owning }
    }

    /// The shared secret.
    pub fn secret(&self) -> (secret: &[u8])
        ensures
            secret@ == self@.secret,
    {
        self.secret.as_slice()
    }

    /// The base nonce.
    pub fn iv(&self) -> (iv: &[u8; 12])
        ensures
            iv@ == self@.iv,
            self@.wf(),
    {
        proof {
            use_type_invariant(self);
        }
        &self.iv
    }

    /// The key that encrypts the content.
    pub fn file_key(&self) -> (key: &[u8])
        ensures
            key@ == self@.file_key,
            self@.wf(),
    {
        proof {
            use_type_invariant(self);
        }
        self.file_key.as_slice()
    }

    /// The key that encrypts the metadata.
    pub fn meta_key(&self) -> (key: &[u8])
        ensures
            key@ == self@.meta_key,
            self@.wf(),
    {
        proof {
            use_type_invariant(self);
        }
        self.meta_key.as_slice()
    }

    /// The key that authenticates requests.
    pub fn auth_key(&self) -> (key: &[u8])
        ensures
            key@ == self@.auth_key,
            self@.wf(),
    {
        proof {
            use_type_invariant(self);
        }
        self.auth_key.as_slice()
    }

    /// The authentication key in its text form.
    pub fn auth_key_encoded(&self) -> (text: String)
        ensures
            text@ == b64::encoded(self@.auth_key),
            b64::is_alphabet_text(text@),
    {
        b64::encode(self.auth_key.as_slice())
    }

    /// Whether this party generated the secret.
    pub fn is_owning(&self) -> (owning: bool)
        ensures
            owning == self@.owning,
    {
        self.owning
    }

    /// Key sets of one secret hold the same three keys, whoever derived
    /// them and whenever.
    pub proof fn lemma_derivation_is_deterministic(a: KeySetView, b: KeySetView)
        requires
            a.wf(),
            b.wf(),
            a.secret == b.secret,
        ensures
            a.auth_key == b.auth_key,
            a.meta_key == b.meta_key,
            a.file_key == b.file_key,
    {
    }
}

} // verus!
