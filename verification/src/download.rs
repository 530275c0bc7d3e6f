//! The download of one file: the secret is taken from the share address,
//! the metadata is decrypted first, then the content.

use vstd::prelude::*;
use crate::crypto::aead::NONCE_LEN;
use crate::crypto::b64;
use crate::crypto::key_set::derived_meta_key;
use crate::crypto::key_set::KeySet;
use crate::error::MetaError;
use crate::file::shared_secret;
use crate::link::Link;
use crate::metadata;
use crate::metadata::Metadata;
use crate::metadata::MetadataView;
use crate::stream::ContentStream;
use crate::stream::Direction;
use crate::stream::StreamView;
use crate::stream::DEFAULT_CHUNK_LEN;

verus! {

/// Why a download cannot go on.
#[derive(Clone, Copy, Debug, PartialEq, Eq, Structural)]
pub enum DownloadError {
    /// The share address carries no secret.
    NoSecret,
    /// The metadata that the service sent is no text form of a blob.
    Header,
    /// The metadata does not open under the secret of the address: the
    /// address is wrong or damaged.
    Metadata(MetaError),
    /// The metadata names no content nonce.
    Nonce,
}

/// The download of the file behind a share address. The address holds the
/// secret, and so the download has no printed form.
pub struct Download {
    url: Link,
}

/// What the metadata header tells under a secret: the descriptor of the
/// file and the nonce of its content.
pub open spec fn described(secret: Seq<u8>, header: Seq<char>) -> Result<
    (MetadataView, Seq<u8>),
    DownloadError,
> {
    match b64::decoded(header) {
        None => Err(DownloadError::Header),
        Some(blob) => match metadata::decrypted(derived_meta_key(secret), blob) {
            Err(error) => Err(DownloadError::Metadata(error)),
            Ok(descriptor) => match b64::decoded(descriptor.iv) {
                Some(iv) => if iv.len() == NONCE_LEN {
                    Ok((descriptor, iv))
                } else {
                    Err(DownloadError::Nonce)
                },
                None => Err(DownloadError::Nonce),
            },
        },
    }
}

impl Download {
    /// The download of the file behind `url`.
    pub fn new(url: Link) -> (download: Download)
        ensures
            download.address() == url@,
    {
        Download { url }
    }

    /// The share address, as a plain value.
    pub closed spec fn address(&self) -> Seq<char> {
        self.url@
    }

    /// The share address.
    pub fn url(&self) -> (url: &Link)
        ensures
            url@ == self.address(),
    {
        &self.url
    }

    /// The secret that the share address carries in its fragment.
    pub fn secret(&self) -> (res: Result<Vec<u8>, DownloadError>)
        ensures
            match res {
                Ok(secret) => shared_secret(self.address()) == Some(secret@),
                Err(error) => shared_secret(self.address()) is None && error
                    == DownloadError::NoSecret,
            },
    {
        let fragment = match self.url.fragment() {
            Some(fragment) => fragment,
            None => {
                return Err(DownloadError::NoSecret);
            },
        };
        match b64::decode(fragment.as_str()) {
            Some(secret) => Ok(secret),
            None => Err(DownloadError::NoSecret),
        }
    }

    /// Decrypts the metadata that the service sent, `header` being its
    /// text form, under the keys of `secret`, and derives the keys of the
    /// content with the nonce that the metadata names. Metadata that does
    /// not open means that the address is wrong or damaged.
    pub fn read_metadata(secret: Vec<u8>, header: &str) -> (res: Result<
        (Metadata, KeySet),
        DownloadError,
    >)
        ensures
            match res {
                Ok(found) => described(secret@, header@) == Ok::<
                    (MetadataView, Seq<u8>),
                    DownloadError,
                >((found.0@, found.1@.iv)) && found.1@.wf() && found.1@.secret == secret@
                    && !found.1@.owning,
                Err(error) => described(secret@, header@) == Err::<
                    (MetadataView, Seq<u8>),
                    DownloadError,
                >(error),
            },
    {
        let blob = match b64::decode(header) {
            Some(blob) => blob,
            None => {
                return Err(DownloadError::Header);
            },
        };
        let opener = KeySet::from(vstd::slice::slice_to_vec(secret.as_slice()), [0u8; 12]);
        let descriptor = match metadata::decrypt(blob.as_slice(), opener.meta_key()) {
            Ok(descriptor) => descriptor,
            Err(error) => {
                return Err(DownloadError::Metadata(error));
            },
        };
        let iv = match b64::decode(descriptor.iv()) {
            Some(iv) => iv,
            None => {
                return Err(DownloadError::Nonce);
            },
        };
        if iv.len() != NONCE_LEN {
            return Err(DownloadError::Nonce);
        }
        match KeySet::from_random(Some(secret), Some(iv), false) {
            Some(keys) => Ok((descriptor, keys)),
            None => Err(DownloadError::Nonce),
        }
    }

    /// Makes the stream that decrypts the file's content under the
    /// content key and nonce of the keys, in chunks of the default length.
    pub fn create_writer(key: &KeySet) -> (res: Option<ContentStream>)
        ensures
            res matches Some(stream) && stream@ == (StreamView {
                key: key@.file_key,
                iv: key@.iv,
                chunk_len: DEFAULT_CHUNK_LEN as nat,
                counter: 0,
                direction: Direction::Decrypt,
                aborted: false,
            }),
    {
        let file_key = key.file_key();
        match ContentStream::new(file_key, key.iv(), DEFAULT_CHUNK_LEN, Direction::Decrypt) {
            Ok(stream) => Some(stream),
            Err(_) => None,
        }
    }
}

/// Why a download stops without the file.
#[derive(Clone, Copy, Debug, PartialEq, Eq, Structural)]
pub enum Failure {
    /// The share address carries no secret.
    NoSecret,
    /// The request failed.
    Request,
    /// The metadata did not open: the address is wrong or damaged.
    Metadata,
    /// The progress reporter could not be reached.
    Progress,
    /// The content failed partway; what was written is incomplete.
    Transfer,
}

/// Where a download stands: the step whose outcome is awaited.
#[derive(Clone, Copy, Debug, PartialEq, Eq, Structural)]
pub enum Stage {
    /// The secret is being read from the share address.
    Secret,
    /// The file is being requested.
    Request,
    /// The metadata is being decrypted.
    Metadata,
    /// The progress reporter is being started.
    Start,
    /// The content is being decrypted and written.
    Transfer,
    /// The progress reporter is being finished after the content.
    Finish,
    /// The progress reporter is being finished after the given failure.
    Failed(Failure),
    /// Nothing is left to do.
    Done,
}

/// What is to be done next in a download.
#[derive(Clone, Copy, Debug, PartialEq, Eq, Structural)]
pub enum Action {
    /// Request the file and its metadata.
    Request,
    /// Decrypt the metadata and derive the keys of the content.
    ReadMetadata,
    /// Start the progress reporter with the length of the content.
    StartReporter,
    /// Decrypt the content chunk by chunk and write it.
    Receive,
    /// Mark the progress reporter as finished.
    FinishReporter,
    /// Say that the file is there.
    Return,
    /// Hand out the given failure.
    Fail(Failure),
    /// Nothing.
    Nothing,
}

/// The stage and the action that follow when the step awaited in `stage`
/// has succeeded or failed. The metadata is decrypted before any content
/// is. The reporter is finished on every way out; a failure is handed out
/// after that, and the earlier failure is the one that counts.
pub open spec fn planned(stage: Stage, ok: bool) -> (Stage, Action) {
    match stage {
        Stage::Secret => if ok {
            (Stage::Request, Action::Request)
        } else {
            (Stage::Failed(Failure::NoSecret), Action::FinishReporter)
        },
        Stage::Request => if ok {
            (Stage::Metadata, Action::ReadMetadata)
        } else {
            (Stage::Failed(Failure::Request), Action::FinishReporter)
        },
        Stage::Metadata => if ok {
            (Stage::Start, Action::StartReporter)
        } else {
            (Stage::Failed(Failure::Metadata), Action::FinishReporter)
        },
        Stage::Start => if ok {
            (Stage::Transfer, Action::Receive)
        } else {
            (Stage::Failed(Failure::Progress), Action::FinishReporter)
        },
        Stage::Transfer => if ok {
            (Stage::Finish, Action::FinishReporter)
        } else {
            (Stage::Failed(Failure::Transfer), Action::FinishReporter)
        },
        Stage::Finish => if ok {
            (Stage::Done, Action::Return)
        } else {
            (Stage::Done, Action::Fail(Failure::Progress))
        },
        Stage::Failed(failure) => (Stage::Done, Action::Fail(failure)),
        Stage::Done => (Stage::Done, Action::Nothing),
    }
}

/// How often `action` is asked for when a download that stands at `stage`
/// is told the given outcomes in turn.
pub open spec fn count(stage: Stage, outcomes: Seq<bool>, action: Action) -> nat
    decreases outcomes.len(),
{
    if outcomes.len() == 0 {
        0
    } else {
        let next = planned(stage, outcomes[0]);
        let here: nat = if next.1 == action {
            1
        } else {
            0
        };
        here + count(next.0, outcomes.skip(1), action)
    }
}

/// The stage that a download ends in when it stands at `stage` and is
/// told the given outcomes in turn.
pub open spec fn end_stage(stage: Stage, outcomes: Seq<bool>) -> Stage
    decreases outcomes.len(),
{
    if outcomes.len() == 0 {
        stage
    } else {
        end_stage(planned(stage, outcomes[0]).0, outcomes.skip(1))
    }
}

impl Download {
    /// Decides what is done next in a download: `stage` is the step whose
    /// outcome was awaited, `ok` whether it succeeded.
    pub fn invoke(stage: Stage, ok: bool) -> (next: (Stage, Action))
        ensures
            next == planned(stage, ok),
    {
        match stage {
            Stage::Secret => if ok {
                (Stage::Request, Action::Request)
            } else {
                (Stage::Failed(Failure::NoSecret), Action::FinishReporter)
            },
            Stage::Request => if ok {
                (Stage::Metadata, Action::ReadMetadata)
            } else {
                (Stage::Failed(Failure::Request), Action::FinishReporter)
            },
            Stage::Metadata => if ok {
                (Stage::Start, Action::StartReporter)
            } else {
                (Stage::Failed(Failure::Metadata), Action::FinishReporter)
            },
            Stage::Start => if ok {
                (Stage::Transfer, Action::Receive)
            } else {
                (Stage::Failed(Failure::Progress), Action::FinishReporter)
            },
            Stage::Transfer => if ok {
                (Stage::Finish, Action::FinishReporter)
            } else {
                (Stage::Failed(Failure::Transfer), Action::FinishReporter)
            },
            Stage::Finish => if ok {
                (Stage::Done, Action::Return)
            } else {
                (Stage::Done, Action::Fail(Failure::Progress))
            },
            Stage::Failed(failure) => (Stage::Done, Action::Fail(failure)),
            Stage::Done => (Stage::Done, Action::Nothing),
        }
    }
}

/// The number of times that the reporter is still to be finished from a
/// stage: once, until it has been asked for.
pub open spec fn finishes_ahead(stage: Stage) -> nat {
    match stage {
        Stage::Finish | Stage::Failed(_) | Stage::Done => 0,
        _ => 1,
    }
}

/// The number of times that content may still be received from a stage.
pub open spec fn receives_ahead(stage: Stage) -> nat {
    match stage {
        Stage::Secret | Stage::Request | Stage::Metadata | Stage::Start => 1,
        _ => 0,
    }
}

/// In a download that has come to its end, the reporter was asked to
/// finish exactly once, on whichever way the download went out.
pub proof fn lemma_finished_exactly_once(stage: Stage, outcomes: Seq<bool>)
    requires
        end_stage(stage, outcomes) == Stage::Done,
    ensures
        count(stage, outcomes, Action::FinishReporter) == finishes_ahead(stage),
        stage == Stage::Secret ==> count(stage, outcomes, Action::FinishReporter) == 1,
    decreases outcomes.len(),
{
    if outcomes.len() > 0 {
        lemma_finished_exactly_once(planned(stage, outcomes[0]).0, outcomes.skip(1));
    }
}

/// From any stage on, content is received no more than once, and the
/// reporter is asked to finish no more than once.
pub proof fn lemma_at_most_once(stage: Stage, outcomes: Seq<bool>)
    ensures
        count(stage, outcomes, Action::Receive) <= receives_ahead(stage),
        count(stage, outcomes, Action::FinishReporter) <= finishes_ahead(stage),
    decreases outcomes.len(),
{
    if outcomes.len() > 0 {
        lemma_at_most_once(planned(stage, outcomes[0]).0, outcomes.skip(1));
    }
}

/// No content is decrypted unless the secret was found, the request was
/// answered, the metadata opened and the reporter started, in this order:
/// a wrong address is found out before anything is written.
pub proof fn lemma_metadata_first(outcomes: Seq<bool>)
    requires
        count(Stage::Secret, outcomes, Action::Receive) > 0,
    ensures
        outcomes.len() >= 4,
        outcomes[0] && outcomes[1] && outcomes[2] && outcomes[3],
{
    reveal_with_fuel(count, 5);
    let rest = outcomes.skip(1);
    let later = rest.skip(1);
    let last = later.skip(1);
    if outcomes.len() > 0 {
        if !outcomes[0] {
            lemma_failed_is_quiet(Failure::NoSecret, rest, Action::Receive);
        } else if rest.len() > 0 {
            if !rest[0] {
                lemma_failed_is_quiet(Failure::Request, later, Action::Receive);
            } else if later.len() > 0 {
                if !later[0] {
                    lemma_failed_is_quiet(Failure::Metadata, last, Action::Receive);
                } else if last.len() > 0 {
                    if !last[0] {
                        lemma_failed_is_quiet(Failure::Progress, last.skip(1), Action::Receive);
                    }
                }
            }
        }
    }
}

/// A download that has failed asks for nothing but to hand out its
/// failure.
pub proof fn lemma_failed_is_quiet(failure: Failure, outcomes: Seq<bool>, action: Action)
    requires
        action != Action::Nothing,
        action != Action::Fail(failure),
    ensures
        count(Stage::Failed(failure), outcomes, action) == 0,
{
    if outcomes.len() > 0 {
        lemma_done_is_idle(outcomes.skip(1), action);
    }
}

/// A download that is done asks for nothing more.
pub proof fn lemma_done_is_idle(outcomes: Seq<bool>, action: Action)
    requires
        action != Action::Nothing,
    ensures
        count(Stage::Done, outcomes, action) == 0,
    decreases outcomes.len(),
{
    if outcomes.len() > 0 {
        lemma_done_is_idle(outcomes.skip(1), action);
    }
}

} // verus!
