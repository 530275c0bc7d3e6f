//! The record of a file on the service: what is needed to share it and to
//! manage it later.

use vstd::prelude::*;
use crate::crypto::b64;
use crate::link;
use crate::link::Link;

verus! {

/// What a file record holds, as plain values.
pub struct FileView {
    pub id: Seq<char>,
    pub host: Seq<char>,
    pub url: Seq<char>,
    pub secret: Seq<u8>,
    pub owner: Seq<char>,
    pub created_at: u64,
}

/// The record of an uploaded file. It holds the secret, and so has no
/// printed form.
pub struct File {
    id: String,
    host: Link,
    url: Link,
    secret: Vec<u8>,
    owner: String,
    created_at: u64,
}

impl View for File {
    type V = FileView;

    closed spec fn view(&self) -> FileView {
        FileView {
            id: self.id@,
            host: self.host@,
            url: self.url@,
            secret: self.secret@,
            owner: self.owner@,
            created_at: self.created_at,
        }
    }
}

/// The address under which a file is shared: the file's address as it is,
/// or, with the secret, up to its fragment, followed by `#` and the
/// secret's text form.
pub open spec fn share_address(file: FileView, include_secret: bool) -> Seq<char> {
    if include_secret {
        link::before_fragment(file.url) + seq!['#'] + b64::encoded(file.secret)
    } else {
        file.url
    }
}

/// The secret that a share address carries in its fragment, if it carries
/// one.
pub open spec fn shared_secret(address: Seq<char>) -> Option<Seq<u8>> {
    match link::fragment_of(address) {
        Some(fragment) => b64::decoded(fragment),
        None => None,
    }
}

impl File {
    /// The record of the file with the given identifier on the given
    /// host, reachable at `url`, encrypted under `secret` and managed with
    /// the token `owner`, created at the given time in seconds since the
    /// epoch.
    pub fn new(
        id: String,
        host: Link,
        url: Link,
        secret: Vec<u8>,
        owner: String,
        created_at: u64,
    ) -> (file: File)
        ensures
            file@ == (FileView {
                id: id@,
                host: host@,
                url: url@,
                secret: secret@,
                owner: owner@,
                created_at,
            }),
    {
        File { id, host, url, secret, owner, created_at }
    }

    /// The identifier that the service gave the file.
    pub fn id(&self) -> (id: &str)
        ensures
            id@ == self@.id,
    {
        self.id.as_str()
    }

    /// The service that holds the file.
    pub fn host(&self) -> (host: &Link)
        ensures
            host@ == self@.host,
    {
        &self.host
    }

    /// The address of the file, without the secret.
    pub fn url(&self) -> (url: &Link)
        ensures
            url@ == self@.url,
    {
        &self.url
    }

    /// The secret, as bytes.
    pub fn secret_raw(&self) -> (secret: &[u8])
        ensures
            secret@ == self@.secret,
    {
        self.secret.as_slice()
    }

    /// The secret, in its text form.
    pub fn secret(&self) -> (text: String)
        ensures
            text@ == b64::encoded(self@.secret),
            b64::is_alphabet_text(text@),
            b64::decoded(text@) == Some(self@.secret),
    {
        b64::encode(self.secret.as_slice())
    }

    /// The token that authorises managing the file.
    pub fn owner(&self) -> (owner: &str)
        ensures
            owner@ == self@.owner,
    {
        self.owner.as_str()
    }

    /// The time of creation, in seconds since the epoch.
    pub fn created_at(&self) -> (created_at: u64)
        ensures
            created_at == self@.created_at,
    {
        self.created_at
    }

    /// The address under which the file is shared. With `include_secret`
    /// the secret stands in the fragment, which is never sent to the
    /// service; without, the address is the file's own and holds nothing
    /// of the secret.
    pub fn download_url(&self, include_secret: bool) -> (address: Link)
        ensures
            address@ == share_address(self@, include_secret),
            include_secret ==> shared_secret(address@) == Some(self@.secret),
    {
        if include_secret {
            let secret = self.secret();
            self.url.with_fragment(secret.as_str())
        } else {
            self.url.duplicate()
        }
    }
}

} // verus!
