//! Client-side core of a zero-knowledge file-sharing service: key
//! derivation from one shared secret, the encrypted metadata blob, the
//! chunked content stream, progress accounting, and the decisions of an
//! upload and of a download. The bytes themselves are moved by the caller:
//! nothing here opens a file or a connection.

pub mod cmd_download;
pub mod crypto;
pub mod download;
pub mod error;
pub mod file;
pub mod link;
pub mod metadata;
pub mod progress;
pub mod stream;
pub mod transfer;
pub mod upload;
pub mod wire;
