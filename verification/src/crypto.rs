//! Key material and the primitives it is used with.

pub mod aead;
pub mod b64;
pub mod kdf;
pub mod key_set;
