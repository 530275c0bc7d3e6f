//! The upload of one file: what is prepared before anything is sent, the
//! request, and what is made of the service's answer.

use vstd::prelude::*;
use vstd::string::StringExecFns;
use vstd::utf8::decode_utf8;
use vstd::utf8::valid_utf8;
use crate::crypto::aead;
use crate::crypto::aead::MAX_PIECE_LEN;
use crate::crypto::aead::TAG_LEN;
use crate::crypto::b64;
use crate::crypto::key_set::KeySet;
use crate::error::FileError;
use crate::error::MetaError;
use crate::error::ReaderError;
use crate::error::UploadError;
use crate::file::File;
use crate::file::FileView;
use crate::link;
use crate::link::Link;
use crate::link::UrlError;
use crate::metadata;
use crate::metadata::Metadata;
use crate::metadata::MetadataView;
use crate::stream::ContentStream;
use crate::stream::Direction;
use crate::stream::StreamView;
use crate::stream::DEFAULT_CHUNK_LEN;
use crate::wire;
use crate::wire::ascii;

verus! {

/// The media type that belongs to a file name extension: the first type
/// that is known for it, whatever its case, or the generic binary type
/// where none is.
pub uninterp spec fn guessed_mime(extension: Seq<char>) -> Seq<char>;

/// The generic binary media type.
pub open spec fn generic_mime() -> Seq<char> {
    "application/octet-stream"@
}

/// Guesses the media type that belongs to a file name extension.
///
/// Trusted: calls `mime_guess::from_ext` and
/// `MimeGuess::first_or_octet_stream`, and hands out the type's text. The
/// contract claims that the guess is a function of the extension, and that
/// the empty extension, for which nothing is looked up, gets the generic
/// binary type.
#[verifier::external_body]
fn guess_mime(extension: &str) -> (mime: String)
    ensures
        mime@ == guessed_mime(extension@),
        extension@.len() == 0 ==> mime@ == generic_mime(),
{
    mime_guess::from_ext(extension).first_or_octet_stream().to_string()
}

/// The position of the last `.` in a file name, if it has one.
pub open spec fn last_dot(name: Seq<u8>) -> Option<int>
    decreases name.len(),
{
    if name.len() == 0 {
        None
    } else if name.last() == 0x2e {
        Some(name.len() - 1)
    } else {
        last_dot(name.drop_last())
    }
}

/// The extension of a file name: what follows its last `.`, unless that is
/// the name's first byte.
pub open spec fn extension(name: Seq<u8>) -> Option<Seq<u8>> {
    match last_dot(name) {
        Some(at) => if at > 0 {
            Some(name.skip(at + 1))
        } else {
            None
        },
        None => None,
    }
}

/// The media type of a file with the given name: the guess for its
/// extension, or the generic binary type where there is no name, no
/// extension, or an extension that is no text. The rest of the name need
/// not be text.
pub open spec fn media_type(file_name: Option<Seq<u8>>) -> Seq<char> {
    match file_name {
        Some(name) => match extension(name) {
            Some(found) => if valid_utf8(found) {
                guessed_mime(decode_utf8(found))
            } else {
                generic_mime()
            },
            None => generic_mime(),
        },
        None => generic_mime(),
    }
}

/// Finds the extension of a file name.
pub fn extension_of(name: &[u8]) -> (res: Option<&[u8]>)
    ensures
        match res {
            Some(found) => extension(name@) == Some(found@),
            None => extension(name@) is None,
        },
{
    let mut i: usize = name.len();
    assert(name@.take(i as int) =~= name@);
    while i > 0
        invariant
            i <= name.len(),
            last_dot(name@) == last_dot(name@.take(i as int)),
        decreases i,
    {
        let ghost head = name@.take(i as int);
        assert(head.last() == name@[i - 1]);
        if name[i - 1] == 0x2e {
            if i == 1 {
                return None;
            }
            assert(name@.subrange(i as int, name@.len() as int) =~= name@.skip(i as int));
            return Some(&name[i..name.len()]);
        }
        assert(head.drop_last() =~= name@.take(i - 1));
        i = i - 1;
    }
    None
}

/// What is known of a file before it is uploaded, as plain values.
pub struct FileDataView {
    pub name: Seq<char>,
    pub mime: Seq<char>,
}

/// What is known of a file before it is uploaded: its display name and its
/// media type.
#[derive(Debug)]
pub struct FileData {
    name: String,
    mime: String,
}

impl View for FileData {
    type V = FileDataView;

    closed spec fn view(&self) -> FileDataView {
        FileDataView { name: self.name@, mime: self.mime@ }
    }
}

/// The display name of a file: its own where it has one that is text, else
/// the placeholder `file`.
pub open spec fn display_name(file_name: Option<Seq<u8>>) -> Seq<char> {
    match file_name {
        Some(name) => if valid_utf8(name) {
            decode_utf8(name)
        } else {
            "file"@
        },
        None => "file"@,
    }
}

/// What a file name holds, as a plain value.
pub open spec fn name_view(file_name: Option<&[u8]>) -> Option<Seq<u8>> {
    match file_name {
        Some(name) => Some(name@),
        None => None,
    }
}

impl FileData {
    /// Describes a file. `is_file` says whether its path names an existing
    /// regular file, `file_name` holds the bytes of the last component of
    /// the path where it has one. A path that names no file is refused
    /// before anything else is looked at. The display name is the file
    /// name where that is text. The media type is guessed from the
    /// extension of the name alone; the file is not read.
    pub fn from(is_file: bool, file_name: Option<&[u8]>) -> (res: Result<FileData, FileError>)
        ensures
            is_file <==> res is Ok,
            res matches Err(error) ==> error is NotAFile,
            res matches Ok(data) ==> data@ == (FileDataView {
                name: display_name(name_view(file_name)),
                mime: media_type(name_view(file_name)),
            }),
    {
        if !is_file {
            return Err(FileError::NotAFile);
        }
        let text = match file_name {
            Some(name) => wire::text_of(vstd::slice::slice_to_vec(name)),
            None => None,
        };
        let name = match text {
            Some(text) => text,
            None => String::from_str("file"),
        };
        let found = match file_name {
            Some(name) => match extension_of(name) {
                Some(found) => wire::text_of(vstd::slice::slice_to_vec(found)),
                None => None,
            },
            None => None,
        };
        let mime = match found {
            Some(text) => guess_mime(text.as_str()),
            None => String::from_str("application/octet-stream"),
        };
        Ok(FileData { name, mime })
    }

    /// The display name.
    pub fn name(&self) -> (name: &str)
        ensures
            name@ == self@.name,
    {
        self.name.as_str()
    }

    /// The media type.
    pub fn mime(&self) -> (mime: &str)
        ensures
            mime@ == self@.mime,
    {
        self.mime.as_str()
    }
}

/// The request that uploads a file, as plain values.
pub struct RequestView {
    pub method: Seq<char>,
    pub url: Seq<char>,
    pub authorization: Seq<char>,
    pub metadata: Seq<char>,
    pub part: Seq<char>,
    pub content_type: Seq<char>,
    pub length: u64,
}

/// The request that uploads a file: where it goes, the two headers that
/// it carries, and the one part of its body.
#[derive(Debug)]
pub struct UploadRequest {
    /// The method of the request.
    pub method: String,
    /// The address that the request is posted to.
    pub url: String,
    /// The value of the authorisation header.
    pub authorization: String,
    /// The value of the header that carries the encrypted metadata.
    pub metadata: String,
    /// The name of the form part that carries the content.
    pub part: String,
    /// The media type of that part.
    pub content_type: String,
    /// The length of the content, in bytes.
    pub length: u64,
}

impl View for UploadRequest {
    type V = RequestView;

    open spec fn view(&self) -> RequestView {
        RequestView {
            method: self.method@,
            url: self.url@,
            authorization: self.authorization@,
            metadata: self.metadata@,
            part: self.part@,
            content_type: self.content_type@,
            length: self.length,
        }
    }
}

/// The answer of the service to an upload, as it came.
#[derive(Debug)]
pub struct Answer {
    /// The status code.
    pub status: u16,
    /// The message that came with the status.
    pub message: String,
    /// The body.
    pub body: Vec<u8>,
}

/// The name of the header that carries the credential.
pub const AUTHORIZATION_HEADER: &'static str = "Authorization";

/// The name of the header that carries the encrypted metadata.
pub const METADATA_HEADER: &'static str = "X-File-Metadata";

/// The message of an answer: what the service wrote in the body, where
/// that is text and not empty, else the reason that belongs to the status.
pub open spec fn message_of(reason: Seq<char>, body: Seq<u8>) -> Seq<char> {
    if body.len() > 0 && valid_utf8(body) {
        decode_utf8(body)
    } else {
        reason
    }
}

impl Answer {
    /// The answer with the given status and body, and with the message
    /// that the service wrote, if it wrote one.
    pub fn new(status: u16, reason: &str, body: Vec<u8>) -> (answer: Answer)
        ensures
            answer.status == status,
            answer.body@ == body@,
            answer.message@ == message_of(reason@, body@),
    {
        let written = if body.len() > 0 {
            wire::text_of(vstd::slice::slice_to_vec(body.as_slice()))
        } else {
            None
        };
        let message = match written {
            Some(text) => text,
            None => String::from_str(reason),
        };
        Answer { status, message, body }
    }
}

/// Whether a status code stands for success.
pub open spec fn is_success(status: u16) -> bool {
    200 <= status < 300
}

/// What the service says of an uploaded file, as plain values.
pub struct ResponseView {
    pub id: Seq<char>,
    pub url: Seq<char>,
    pub owner: Seq<char>,
}

/// What the service says of an uploaded file: its identifier, its address
/// without the secret, and the token that manages it.
#[derive(Debug)]
pub struct UploadResponse {
    id: String,
    url: String,
    owner: String,
}

impl View for UploadResponse {
    type V = ResponseView;

    closed spec fn view(&self) -> ResponseView {
        ResponseView { id: self.id@, url: self.url@, owner: self.owner@ }
    }
}

/// The response that a body stands for, if it is one: an object that
/// holds a text under each of `id`, `url` and `owner`. Members under other
/// keys are passed over, whatever their values. A key of the three that
/// stands twice or whose value is no string, and an escaped surrogate that
/// stands alone, make the whole no response.
pub open spec fn parsed_response(body: Seq<u8>) -> Option<ResponseView> {
    match wire::three_texts(body, ascii("id"@), ascii("url"@), ascii("owner"@)) {
        Some(found) => Some(ResponseView { id: found.0, url: found.1, owner: found.2 }),
        None => None,
    }
}

/// The record of the file that a response speaks of, or the reason for
/// which its address is none.
pub open spec fn file_of(
    response: ResponseView,
    host: Seq<char>,
    secret: Seq<u8>,
    created_at: u64,
) -> Result<FileView, UrlError> {
    match link::read(response.url) {
        Ok(url) => Ok(
            FileView { id: response.id, host, url, secret, owner: response.owner, created_at },
        ),
        Err(reason) => Err(reason),
    }
}

impl UploadResponse {
    /// A response with the given values.
    pub fn new(id: String, url: String, owner: String) -> (response: UploadResponse)
        ensures
            response@ == (ResponseView { id: id@, url: url@, owner: owner@ }),
    {
        UploadResponse { id, url, owner }
    }

    /// Reads a response from the body of the service's answer: an object
    /// that holds a text under `id`, `url` and `owner`. Members under other
    /// keys are passed over, whatever their values; a key of the three that
    /// stands twice or whose value is no string, and an escaped surrogate
    /// that stands alone, are refused.
    pub fn decode(body: &[u8]) -> (res: Option<UploadResponse>)
        ensures
            match res {
                Some(response) => parsed_response(body@) == Some(response@),
                None => parsed_response(body@) is None,
            },
    {
        proof {
            reveal_strlit("id");
            reveal_strlit("url");
            reveal_strlit("owner");
        }
        let id_key = wire::ascii_bytes("id");
        let url_key = wire::ascii_bytes("url");
        let owner_key = wire::ascii_bytes("owner");
        match wire::read_three(body, id_key.as_slice(), url_key.as_slice(), owner_key.as_slice()) {
            Some((id, url, owner)) => Some(UploadResponse { id, url, owner }),
            None => None,
        }
    }

    /// Makes the record of the file that the response speaks of, on the
    /// given host and with the secret of the given keys. An address that is
    /// none is refused with `ParseUrl`.
    pub fn into_file(self, host: Link, key: &KeySet, created_at: u64) -> (res: Result<
        File,
        UploadError,
    >)
        ensures
            match file_of(self@, host@, key@.secret, created_at) {
                Ok(file) => res matches Ok(made) && made@ == file,
                Err(reason) => res matches Err(error) && error == UploadError::ParseUrl(reason),
            },
    {
        match Link::parse(self.url.as_str()) {
            Ok(url) => Ok(
                File::new(
                    self.id,
                    host,
                    url,
                    vstd::slice::slice_to_vec(key.secret()),
                    self.owner,
                    created_at,
                ),
            ),
            Err(error) => Err(UploadError::ParseUrl(error)),
        }
    }
}

/// The upload of the file at a path to a host.
pub struct Upload {
    host: Link,
    path: String,
}

/// The descriptor that is sent with a file.
pub open spec fn descriptor(iv: Seq<u8>, file: FileDataView) -> MetadataView {
    MetadataView { iv: b64::encoded(iv), name: file.name, mime: file.mime }
}

impl Upload {
    /// The upload of the file at `path` to `host`.
    pub fn new(host: Link, path: String) -> (upload: Upload)
        ensures
            upload.host_view() == host@,
            upload.path_view() == path@,
    {
        Upload { host, path }
    }

    /// The host, as a plain value.
    pub closed spec fn host_view(&self) -> Seq<char> {
        self.host@
    }

    /// The path, as a plain value.
    pub closed spec fn path_view(&self) -> Seq<char> {
        self.path@
    }

    /// The host that the file goes to.
    pub fn host(&self) -> (host: &Link)
        ensures
            host@ == self.host_view(),
    {
        &self.host
    }

    /// The path of the file.
    pub fn path(&self) -> (path: &str)
        ensures
            path@ == self.path_view(),
    {
        self.path.as_str()
    }

    /// Makes the encrypted metadata blob of the file: the wire form of its
    /// descriptor, with the content nonce of the keys, encrypted under
    /// their metadata key and the constant nonce, with the tag behind it.
    /// The blob decrypts again to that descriptor. `Encrypt` comes where
    /// the cipher fails, and always where the wire form is longer than the
    /// cipher takes in one piece.
    pub fn create_metadata(&self, key: &KeySet, file: &FileData) -> (res: Result<Vec<u8>, MetaError>)
        ensures
            match res {
                Ok(blob) => {
                    &&& blob@.len() == metadata::json(descriptor(key@.iv, file@)).len() + TAG_LEN
                    &&& aead::is_sealed(
                        key@.meta_key,
                        metadata::blob_nonce(),
                        metadata::json(descriptor(key@.iv, file@)),
                        blob@.take(blob@.len() - TAG_LEN),
                        blob@.skip(blob@.len() - TAG_LEN),
                    )
                    &&& metadata::decrypted(key@.meta_key, blob@) == Ok::<MetadataView, MetaError>(
                        descriptor(key@.iv, file@),
                    )
                },
                Err(error) => error == MetaError::Encrypt,
            },
            metadata::json(descriptor(key@.iv, file@)).len() > MAX_PIECE_LEN ==> res is Err,
    {
        let descriptor = Metadata::from(
            key.iv().as_slice(),
            file.name.clone(),
            file.mime.clone(),
        );
        metadata::encrypt(&descriptor, key.meta_key())
    }

    /// Makes the stream that encrypts the file's content under the content
    /// key and nonce of the keys, in chunks of the default length.
    pub fn create_reader(&self, key: &KeySet) -> (res: Result<ContentStream, ReaderError>)
        ensures
            res matches Ok(stream) && stream@ == (StreamView {
                key: key@.file_key,
                iv: key@.iv,
                chunk_len: DEFAULT_CHUNK_LEN as nat,
                counter: 0,
                direction: Direction::Encrypt,
                aborted: false,
            }),
    {
        let file_key = key.file_key();
        match ContentStream::new(file_key, key.iv(), DEFAULT_CHUNK_LEN, Direction::Encrypt) {
            Ok(stream) => Ok(stream),
            Err(_) => Err(ReaderError::Encrypt),
        }
    }

    /// Makes the request that carries the upload: a `POST` to `api/upload`
    /// on the host, authorised by the text form of the authentication key
    /// behind `send-v1 `, with the metadata blob in its text form, which is
    /// made of the URL-safe alphabet alone and decodes back to the blob,
    /// and one part, `data`, of `length` bytes of unspecified binary
    /// content. `None` comes for a host against which `api/upload` cannot
    /// be read.
    pub fn create_request(&self, key: &KeySet, metadata: &[u8], length: u64) -> (res: Option<
        UploadRequest,
    >)
        ensures
            match res {
                Some(request) => {
                    &&& link::read_against(self.host_view(), "api/upload"@) == Some(request@.url)
                    &&& request@ == (RequestView {
                        method: "POST"@,
                        url: request@.url,
                        authorization: "send-v1 "@ + b64::encoded(key@.auth_key),
                        metadata: b64::encoded(metadata@),
                        part: "data"@,
                        content_type: "application/octet-stream"@,
                        length,
                    })
                    &&& b64::is_alphabet_text(request@.metadata)
                    &&& b64::decoded(request@.metadata) == Some(metadata@)
                },
                None => link::read_against(self.host_view(), "api/upload"@) is None,
            },
    {
        let url = match self.host.join("api/upload") {
            Some(url) => url,
            None => {
                return None;
            },
        };
        let mut authorization = String::from_str("send-v1 ");
        authorization.append(key.auth_key_encoded().as_str());
        Some(
            UploadRequest {
                method: String::from_str("POST"),
                url: String::from_str(url.as_str()),
                authorization,
                metadata: b64::encode(metadata),
                part: String::from_str("data"),
                content_type: String::from_str("application/octet-stream"),
                length,
            },
        )
    }

    /// Makes of the service's answer the record of the uploaded file.
    /// `None` stands for a request that could not be sent. An answer whose
    /// status is no success is refused with that status and message, a body
    /// that is no response with `Decode`, an address that is none with
    /// `ParseUrl`.
    pub fn execute_request(&self, answer: Option<Answer>, key: &KeySet, created_at: u64) -> (res:
        Result<File, UploadError>)
        ensures
            match answer {
                None => res matches Err(error) && error is Request,
                Some(answer) => if !is_success(answer.status) {
                    res matches Err(error) && error == UploadError::RequestStatus(
                        answer.status,
                        answer.message,
                    )
                } else {
                    match parsed_response(answer.body@) {
                        None => res matches Err(error) && error is Decode,
                        Some(response) => match file_of(
                            response,
                            self.host_view(),
                            key@.secret,
                            created_at,
                        ) {
                            Err(reason) => res matches Err(error) && error
                                == UploadError::ParseUrl(reason),
                            Ok(file) => res matches Ok(made) && made@ == file,
                        },
                    }
                },
            },
    {
        let answer = match answer {
            Some(answer) => answer,
            None => {
                return Err(UploadError::Request);
            },
        };
        if answer.status < 200 || answer.status >= 300 {
            return Err(UploadError::RequestStatus(answer.status, answer.message));
        }
        match UploadResponse::decode(answer.body.as_slice()) {
            Some(response) => response.into_file(self.host.duplicate(), key, created_at),
            None => Err(UploadError::Decode),
        }
    }
}

/// Why an upload stops without the result of its request.
#[derive(Clone, Copy, Debug, PartialEq, Eq, Structural)]
pub enum Failure {
    /// The path names no existing regular file.
    NotAFile,
    /// The preparation failed.
    Prepare,
    /// The progress reporter could not be reached.
    Progress,
}

/// Where an upload stands: the step whose outcome is awaited.
#[derive(Clone, Copy, Debug, PartialEq, Eq, Structural)]
pub enum Stage {
    /// The path is being checked.
    Validate,
    /// Keys, metadata, reader and request are being prepared.
    Prepare,
    /// The progress reporter is being started.
    Start,
    /// The request is being sent.
    Transfer,
    /// The progress reporter is being finished after the request.
    Finish,
    /// The progress reporter is being finished after the given failure.
    Failed(Failure),
    /// Nothing is left to do.
    Done,
}

/// What is to be done next in an upload.
#[derive(Clone, Copy, Debug, PartialEq, Eq, Structural)]
pub enum Action {
    /// Generate the keys and prepare metadata, reader and request.
    Prepare,
    /// Start the progress reporter with the length of the content.
    StartReporter,
    /// Send the request.
    Send,
    /// Mark the progress reporter as finished.
    FinishReporter,
    /// Hand out the result of the request.
    Return,
    /// Hand out the given failure.
    Fail(Failure),
    /// Nothing.
    Nothing,
}

/// The stage and the action that follow when the step awaited in `stage`
/// has succeeded or failed. The path is checked before anything else. The
/// reporter is finished on every way out, whatever became of the upload
/// and however far it came; a failure is handed out after that, and the
/// earlier failure is the one that counts.
pub open spec fn planned(stage: Stage, ok: bool) -> (Stage, Action) {
    match stage {
        Stage::Validate => if ok {
            (Stage::Prepare, Action::Prepare)
        } else {
            (Stage::Failed(Failure::NotAFile), Action::FinishReporter)
        },
        Stage::Prepare => if ok {
            (Stage::Start, Action::StartReporter)
        } else {
            (Stage::Failed(Failure::Prepare), Action::FinishReporter)
        },
        Stage::Start => if ok {
            (Stage::Transfer, Action::Send)
        } else {
            (Stage::Failed(Failure::Progress), Action::FinishReporter)
        },
        Stage::Transfer => (Stage::Finish, Action::FinishReporter),
        Stage::Finish => if ok {
            (Stage::Done, Action::Return)
        } else {
            (Stage::Done, Action::Fail(Failure::Progress))
        },
        Stage::Failed(failure) => (Stage::Done, Action::Fail(failure)),
        Stage::Done => (Stage::Done, Action::Nothing),
    }
}

/// How often `action` is asked for when an upload that stands at `stage`
/// is told the given outcomes in turn.
pub open spec fn count(stage: Stage, outcomes: Seq<bool>, action: Action) -> nat
    decreases outcomes.len(),
{
    if outcomes.len() == 0 {
        0
    } else {
        let next = planned(stage, outcomes[0]);
        let here: nat = if next.1 == action {
            1
        } else {
            0
        };
        here + count(next.0, outcomes.skip(1), action)
    }
}

/// The stage that an upload ends in when it stands at `stage` and is told
/// the given outcomes in turn.
pub open spec fn end_stage(stage: Stage, outcomes: Seq<bool>) -> Stage
    decreases outcomes.len(),
{
    if outcomes.len() == 0 {
        stage
    } else {
        end_stage(planned(stage, outcomes[0]).0, outcomes.skip(1))
    }
}

impl Upload {
    /// Decides what is done next in an upload: `stage` is the step whose
    /// outcome was awaited, `ok` whether it succeeded.
    pub fn invoke(stage: Stage, ok: bool) -> (next: (Stage, Action))
        ensures
            next == planned(stage, ok),
    {
        match stage {
            Stage::Validate => if ok {
                (Stage::Prepare, Action::Prepare)
            } else {
                (Stage::Failed(Failure::NotAFile), Action::FinishReporter)
            },
            Stage::Prepare => if ok {
                (Stage::Start, Action::StartReporter)
            } else {
                (Stage::Failed(Failure::Prepare), Action::FinishReporter)
            },
            Stage::Start => if ok {
                (Stage::Transfer, Action::Send)
            } else {
                (Stage::Failed(Failure::Progress), Action::FinishReporter)
            },
            Stage::Transfer => (Stage::Finish, Action::FinishReporter),
            Stage::Finish => if ok {
                (Stage::Done, Action::Return)
            } else {
                (Stage::Done, Action::Fail(Failure::Progress))
            },
            Stage::Failed(failure) => (Stage::Done, Action::Fail(failure)),
            Stage::Done => (Stage::Done, Action::Nothing),
        }
    }
}

/// The number of requests that may still be sent from a stage.
pub open spec fn sends_ahead(stage: Stage) -> nat {
    match stage {
        Stage::Validate | Stage::Prepare | Stage::Start => 1,
        _ => 0,
    }
}

/// The number of times that the reporter is still to be finished from a
/// stage: once, until it has been asked for.
pub open spec fn finishes_ahead(stage: Stage) -> nat {
    match stage {
        Stage::Validate | Stage::Prepare | Stage::Start | Stage::Transfer => 1,
        _ => 0,
    }
}

/// From any stage on, no more than one request is sent, and the reporter
/// is asked to finish no more than once.
pub proof fn lemma_at_most_once(stage: Stage, outcomes: Seq<bool>)
    ensures
        count(stage, outcomes, Action::Send) <= sends_ahead(stage),
        count(stage, outcomes, Action::FinishReporter) <= finishes_ahead(stage),
    decreases outcomes.len(),
{
    if outcomes.len() > 0 {
        lemma_at_most_once(planned(stage, outcomes[0]).0, outcomes.skip(1));
    }
}

/// In an upload that has come to its end, the reporter was asked to
/// finish exactly once, on whichever way the upload went out: after a
/// path that names no file, after a failed preparation, after a reporter
/// that did not start, and after the request, whatever its outcome.
pub proof fn lemma_finished_exactly_once(stage: Stage, outcomes: Seq<bool>)
    requires
        end_stage(stage, outcomes) == Stage::Done,
    ensures
        count(stage, outcomes, Action::FinishReporter) == finishes_ahead(stage),
        stage == Stage::Validate ==> count(stage, outcomes, Action::FinishReporter) == 1,
    decreases outcomes.len(),
{
    if outcomes.len() > 0 {
        lemma_finished_exactly_once(planned(stage, outcomes[0]).0, outcomes.skip(1));
    }
}

/// No failure is handed out, and no result, before the reporter was asked
/// to finish: an upload that has not yet asked for it has handed out
/// nothing.
pub proof fn lemma_finished_before_the_end(stage: Stage, outcomes: Seq<bool>, failure: Failure)
    requires
        count(stage, outcomes, Action::FinishReporter) == 0,
        finishes_ahead(stage) == 1,
    ensures
        count(stage, outcomes, Action::Return) == 0,
        count(stage, outcomes, Action::Fail(failure)) == 0,
    decreases outcomes.len(),
{
    if outcomes.len() > 0 {
        let next = planned(stage, outcomes[0]);
        if next.1 != Action::FinishReporter {
            lemma_finished_before_the_end(next.0, outcomes.skip(1), failure);
        }
    }
}

/// An upload whose path names no file stops at once: no keys are
/// generated, nothing is prepared, the reporter is not started and no
/// request is sent. The reporter is finished, and the failure that is
/// handed out after that is the missing file.
pub proof fn lemma_fails_fast(outcomes: Seq<bool>)
    requires
        outcomes.len() > 0,
        !outcomes[0],
    ensures
        planned(Stage::Validate, outcomes[0]) == (
            Stage::Failed(Failure::NotAFile),
            Action::FinishReporter,
        ),
        forall|ok: bool| #[trigger]
            planned(Stage::Failed(Failure::NotAFile), ok) == (
                Stage::Done,
                Action::Fail(Failure::NotAFile),
            ),
        count(Stage::Validate, outcomes, Action::Prepare) == 0,
        count(Stage::Validate, outcomes, Action::StartReporter) == 0,
        count(Stage::Validate, outcomes, Action::Send) == 0,
        count(Stage::Validate, outcomes, Action::Return) == 0,
{
    lemma_failed_is_quiet(Failure::NotAFile, outcomes.skip(1), Action::Prepare);
    lemma_failed_is_quiet(Failure::NotAFile, outcomes.skip(1), Action::StartReporter);
    lemma_failed_is_quiet(Failure::NotAFile, outcomes.skip(1), Action::Send);
    lemma_failed_is_quiet(Failure::NotAFile, outcomes.skip(1), Action::Return);
}

/// An upload that has failed asks for nothing but to hand out its
/// failure.
pub proof fn lemma_failed_is_quiet(failure: Failure, outcomes: Seq<bool>, action: Action)
    requires
        action != Action::Nothing,
        action != Action::Fail(failure),
    ensures
        count(Stage::Failed(failure), outcomes, action) == 0,
{
    if outcomes.len() > 0 {
        lemma_done_is_idle(outcomes.skip(1), action);
    }
}

/// An upload that is done asks for nothing more.
pub proof fn lemma_done_is_idle(outcomes: Seq<bool>, action: Action)
    requires
        action != Action::Nothing,
    ensures
        count(Stage::Done, outcomes, action) == 0,
    decreases outcomes.len(),
{
    if outcomes.len() > 0 {
        lemma_done_is_idle(outcomes.skip(1), action);
    }
}

} // verus!
