use ffsend_api::crypto::key_set::KeySet;
use ffsend_api::error::Error;
use ffsend_api::error::FileError;
use ffsend_api::error::MetaError;
use ffsend_api::error::PrepareError;
use ffsend_api::error::ReaderError;
use ffsend_api::error::UploadError;
use ffsend_api::download::Download;
use ffsend_api::file::File;
use ffsend_api::link::Link;
use ffsend_api::link::UrlError;
use ffsend_api::metadata::decrypt;
use ffsend_api::stream::decrypt_stream;
use ffsend_api::stream::DEFAULT_CHUNK_LEN;
use ffsend_api::upload::extension_of;
use ffsend_api::upload::Action;
use ffsend_api::upload::AUTHORIZATION_HEADER;
use ffsend_api::upload::METADATA_HEADER;
use ffsend_api::upload::Answer;
use ffsend_api::upload::Failure;
use ffsend_api::upload::FileData;
use ffsend_api::upload::Stage;
use ffsend_api::upload::Upload;
use ffsend_api::upload::UploadResponse;

fn sample_keys() -> KeySet {
    KeySet::from((0u8..16).collect(), [0u8; 12])
}

fn sample_upload() -> Upload {
    Upload::new(Link::parse("https://send.example/").unwrap(), "/tmp/a.txt".to_string())
}

fn answer(status: u16, message: &str, body: &str) -> Option<Answer> {
    Some(Answer { status, message: message.to_string(), body: body.as_bytes().to_vec() })
}

const GOOD_BODY: &str = r#"{"id":"abc","url":"https://example.com/download/abc","owner":"tok"}"#;

#[test]
fn a_missing_file_fails_fast() {
    let res = FileData::from(false, Some(b"file".as_slice()));
    assert!(matches!(res, Err(FileError::NotAFile)));
    assert_eq!(
        Upload::invoke(Stage::Validate, false),
        (Stage::Failed(Failure::NotAFile), Action::FinishReporter)
    );
    for finished in [true, false] {
        assert_eq!(
            Upload::invoke(Stage::Failed(Failure::NotAFile), finished),
            (Stage::Done, Action::Fail(Failure::NotAFile))
        );
    }
    assert_eq!(Upload::invoke(Stage::Done, true), (Stage::Done, Action::Nothing));
    assert_eq!(Upload::invoke(Stage::Done, false), (Stage::Done, Action::Nothing));
}

#[test]
fn file_data_has_name_and_type() {
    let data = FileData::from(true, Some(b"notes.txt".as_slice())).unwrap();
    assert_eq!(data.name(), "notes.txt");
    assert_eq!(data.mime(), "text/plain");
    let data = FileData::from(true, Some(b"photo.PNG".as_slice())).unwrap();
    assert_eq!(data.mime(), "image/png");
    let data = FileData::from(true, Some(b"archive.tar.gz".as_slice())).unwrap();
    assert_eq!(data.mime(), "application/gzip");
    let data = FileData::from(true, Some("héllo wörld.json".as_bytes())).unwrap();
    assert_eq!(data.name(), "héllo wörld.json");
    assert_eq!(data.mime(), "application/json");
}

#[test]
fn file_data_falls_back() {
    let data = FileData::from(true, None).unwrap();
    assert_eq!(data.name(), "file");
    assert_eq!(data.mime(), "application/octet-stream");
    for name in ["x.unknown-extension", "blob", ".txt", "notes.", "", "."] {
        let data = FileData::from(true, Some(name.as_bytes())).unwrap();
        assert_eq!(data.name(), name);
        assert_eq!(data.mime(), "application/octet-stream", "{}", name);
    }
}

#[test]
fn a_name_that_is_no_text_keeps_its_extension() {
    let data = FileData::from(true, Some(b"\xff\xfe.txt".as_slice())).unwrap();
    assert_eq!(data.name(), "file");
    assert_eq!(data.mime(), "text/plain");
    let data = FileData::from(true, Some(b"notes.\xff".as_slice())).unwrap();
    assert_eq!(data.name(), "file");
    assert_eq!(data.mime(), "application/octet-stream");
}

#[test]
fn extensions_follow_the_last_dot() {
    assert_eq!(extension_of(b"a.txt"), Some(&b"txt"[..]));
    assert_eq!(extension_of(b"a.b.c"), Some(&b"c"[..]));
    assert_eq!(extension_of(b"a."), Some(&b""[..]));
    assert_eq!(extension_of(b"a..b"), Some(&b"b"[..]));
    assert_eq!(extension_of(b".hidden"), None);
    assert_eq!(extension_of(b".hidden.txt"), Some(&b"txt"[..]));
    assert_eq!(extension_of(b"plain"), None);
    assert_eq!(extension_of(b""), None);
    assert_eq!(extension_of(b"."), None);
}

#[test]
fn an_upload_runs_through_its_stages() {
    let mut stage = Stage::Validate;
    let mut actions = Vec::new();
    for _ in 0..6 {
        let (next, action) = Upload::invoke(stage, true);
        stage = next;
        actions.push(action);
    }
    assert_eq!(
        actions,
        vec![
            Action::Prepare,
            Action::StartReporter,
            Action::Send,
            Action::FinishReporter,
            Action::Return,
            Action::Nothing
        ]
    );
    assert_eq!(stage, Stage::Done);
}

#[test]
fn the_reporter_is_finished_once_whatever_happens() {
    for outcomes in 0..64u32 {
        let mut stage = Stage::Validate;
        let mut sends = 0;
        let mut finishes = 0;
        let mut prepares = 0;
        for step in 0..6 {
            let ok = outcomes & (1 << step) != 0;
            let (next, action) = Upload::invoke(stage, ok);
            stage = next;
            match action {
                Action::Send => sends += 1,
                Action::FinishReporter => finishes += 1,
                Action::Prepare => prepares += 1,
                _ => {}
            }
        }
        assert_eq!(stage, Stage::Done);
        assert_eq!(finishes, 1);
        assert!(sends <= 1);
        if outcomes & 1 == 0 {
            assert_eq!(prepares + sends, 0);
        }
    }
}

#[test]
fn failures_are_told_apart() {
    assert_eq!(
        Upload::invoke(Stage::Prepare, false),
        (Stage::Failed(Failure::Prepare), Action::FinishReporter)
    );
    assert_eq!(
        Upload::invoke(Stage::Start, false),
        (Stage::Failed(Failure::Progress), Action::FinishReporter)
    );
    for failure in [Failure::NotAFile, Failure::Prepare, Failure::Progress] {
        for finished in [true, false] {
            assert_eq!(
                Upload::invoke(Stage::Failed(failure), finished),
                (Stage::Done, Action::Fail(failure))
            );
        }
    }
    assert_eq!(Upload::invoke(Stage::Transfer, false), (Stage::Finish, Action::FinishReporter));
    assert_eq!(Upload::invoke(Stage::Transfer, true), (Stage::Finish, Action::FinishReporter));
    assert_eq!(Upload::invoke(Stage::Finish, false), (Stage::Done, Action::Fail(Failure::Progress)));
    assert_eq!(Upload::invoke(Stage::Finish, true), (Stage::Done, Action::Return));
}

#[test]
fn an_upload_keeps_host_and_path() {
    let upload = sample_upload();
    assert_eq!(upload.host().as_str(), "https://send.example/");
    assert_eq!(upload.path(), "/tmp/a.txt");
}

#[test]
fn the_metadata_blob_reads_back() {
    let keys = sample_keys();
    let data = FileData::from(true, Some(b"a.txt".as_slice())).unwrap();
    let blob = sample_upload().create_metadata(&keys, &data).unwrap();
    assert_eq!(blob.len(), 76);
    let back = decrypt(&blob, keys.meta_key()).unwrap();
    assert_eq!(back.name(), "a.txt");
    assert_eq!(back.mime(), "text/plain");
    assert_eq!(back.iv(), "AAAAAAAAAAAAAAAA");
}

#[test]
fn the_metadata_blob_depends_on_secret_and_file_alone() {
    let data = FileData::from(true, Some(b"a.txt".as_slice())).unwrap();
    let first = sample_upload().create_metadata(&sample_keys(), &data).unwrap();
    let second = sample_upload().create_metadata(&sample_keys(), &data).unwrap();
    assert_eq!(first, second);
    assert_eq!(&first[..4], &[36, 154, 59, 94]);
}

#[test]
fn the_metadata_header_decodes_back_to_the_blob() {
    let keys = sample_keys();
    let blob: Vec<u8> = (0..=255u8).collect();
    let request = sample_upload().create_request(&keys, &blob, 0).unwrap();
    assert!(request
        .metadata
        .bytes()
        .all(|b| b.is_ascii_alphanumeric() || b == b'-' || b == b'_'));
    let file = File::new(
        String::new(),
        Link::parse("https://a.example").unwrap(),
        Link::parse(&format!("https://a.example/#{}", request.metadata)).unwrap(),
        vec![],
        String::new(),
        0,
    );
    assert_eq!(Download::new(file.download_url(false)).secret(), Ok(blob));
}

#[test]
fn the_reader_encrypts_under_the_file_key() {
    let keys = sample_keys();
    let mut stream = sample_upload().create_reader(&keys).unwrap();
    assert_eq!(stream.input_len(), DEFAULT_CHUNK_LEN);
    let out = stream.pull(b"content").unwrap();
    assert_eq!(
        decrypt_stream(&out, keys.file_key(), keys.iv(), DEFAULT_CHUNK_LEN),
        Ok(b"content".to_vec())
    );
}

#[test]
fn the_request_carries_credential_and_metadata() {
    let keys = sample_keys();
    let request = sample_upload().create_request(&keys, &[0xfb, 0xff, 0x00], 1234).unwrap();
    assert_eq!(request.method, "POST");
    assert_eq!(request.url, "https://send.example/api/upload");
    assert_eq!(
        request.authorization,
        "send-v1 kQ93M995gaAZVUQIc_hb2GSavYMMJAt5u-tT55jauhvgtaL35F3FDba5oPgZFb44gpXP7mS1ENvs1EcEtb8lng"
    );
    assert_eq!(request.metadata, "-_8A");
    assert_eq!(request.part, "data");
    assert_eq!(request.content_type, "application/octet-stream");
    assert_eq!(request.length, 1234);
}

#[test]
fn the_request_goes_below_the_hosts_path() {
    let keys = sample_keys();
    let upload = Upload::new(Link::parse("https://send.example/sub/").unwrap(), String::new());
    assert_eq!(upload.create_request(&keys, &[], 0).unwrap().url, "https://send.example/sub/api/upload");
    let upload = Upload::new(Link::parse("mailto:someone@example.com").unwrap(), String::new());
    assert!(upload.create_request(&keys, &[], 0).is_none());
}

#[test]
fn a_good_answer_gives_the_file() {
    let keys = sample_keys();
    let file = sample_upload().execute_request(answer(200, "OK", GOOD_BODY), &keys, 77).unwrap();
    assert_eq!(file.id(), "abc");
    assert_eq!(file.owner(), "tok");
    assert_eq!(file.host().as_str(), "https://send.example/");
    assert_eq!(file.url().as_str(), "https://example.com/download/abc");
    assert_eq!(file.secret_raw(), keys.secret());
    assert_eq!(file.created_at(), 77);
}

#[test]
fn the_secret_is_embedded_in_the_fragment_only() {
    let keys = sample_keys();
    let file = sample_upload().execute_request(answer(200, "OK", GOOD_BODY), &keys, 0).unwrap();
    assert_eq!(file.secret(), "AAECAwQFBgcICQoLDA0ODw");
    assert_eq!(
        file.download_url(true).as_str(),
        "https://example.com/download/abc#AAECAwQFBgcICQoLDA0ODw"
    );
    assert_eq!(file.download_url(false).as_str(), "https://example.com/download/abc");
    assert!(!file.download_url(false).as_str().contains("AAECAwQFBgcICQoLDA0ODw"));
}

#[test]
fn a_bad_status_is_handed_on_as_it_came() {
    let keys = sample_keys();
    let res = sample_upload().execute_request(answer(413, "file too large", GOOD_BODY), &keys, 0);
    match res {
        Err(UploadError::RequestStatus(413, message)) => assert_eq!(message, "file too large"),
        Err(other) => panic!("{:?}", other),
        Ok(_) => panic!("a refused upload gave a file"),
    }
    for status in [0u16, 100, 199, 300, 404, 500, 65535] {
        let res = sample_upload().execute_request(answer(status, "m", GOOD_BODY), &keys, 0);
        assert!(matches!(res, Err(UploadError::RequestStatus(s, _)) if s == status));
    }
    for status in [200u16, 201, 204, 299] {
        assert!(sample_upload().execute_request(answer(status, "m", GOOD_BODY), &keys, 0).is_ok());
    }
}

#[test]
fn an_answer_carries_the_message_of_the_service() {
    let answer = Answer::new(413, "Payload Too Large", b"file too large".to_vec());
    assert_eq!(answer.status, 413);
    assert_eq!(answer.message, "file too large");
    assert_eq!(answer.body, b"file too large".to_vec());
    assert_eq!(Answer::new(404, "Not Found", vec![]).message, "Not Found");
    assert_eq!(Answer::new(500, "Internal Server Error", vec![0xff, 0xfe]).message, "Internal Server Error");
    let res = sample_upload().execute_request(Some(answer), &sample_keys(), 0);
    assert!(matches!(res, Err(UploadError::RequestStatus(413, ref m)) if m == "file too large"));
}

#[test]
fn the_headers_have_their_names() {
    assert_eq!(AUTHORIZATION_HEADER, "Authorization");
    assert_eq!(METADATA_HEADER, "X-File-Metadata");
}

#[test]
fn a_request_that_was_not_sent_is_a_request_failure() {
    let res = sample_upload().execute_request(None, &sample_keys(), 0);
    assert!(matches!(res, Err(UploadError::Request)));
}

#[test]
fn an_answer_of_another_shape_is_a_decode_failure() {
    let keys = sample_keys();
    for body in ["", "null", "{}", r#"{"id":"abc","url":"https://x.example/"}"#, r#"{"id":1,"url":"https://x.example/","owner":"t"}"#, "<html>"] {
        let res = sample_upload().execute_request(answer(200, "OK", body), &keys, 0);
        assert!(matches!(res, Err(UploadError::Decode)), "{}", body);
    }
}

#[test]
fn an_address_that_is_none_is_a_parse_failure() {
    let keys = sample_keys();
    let body = r#"{"id":"abc","url":"/download/abc","owner":"tok"}"#;
    let res = sample_upload().execute_request(answer(200, "OK", body), &keys, 0);
    assert!(matches!(res, Err(UploadError::ParseUrl(UrlError::RelativeUrlWithoutBase))));
}

#[test]
fn responses_are_decoded_in_any_member_order() {
    let response = UploadResponse::decode(br#" { "owner":"o", "url":"https://h.example/d/1", "id":"1" } "#).unwrap();
    let file = response.into_file(Link::parse("https://h.example").unwrap(), &sample_keys(), 5).unwrap();
    assert_eq!(file.id(), "1");
    assert_eq!(file.owner(), "o");
    assert_eq!(file.url().as_str(), "https://h.example/d/1");
    let made = UploadResponse::new("i".to_string(), "not an address".to_string(), "o".to_string());
    assert!(matches!(
        made.into_file(Link::parse("https://h.example").unwrap(), &sample_keys(), 5),
        Err(UploadError::ParseUrl(_))
    ));
}

#[test]
fn errors_are_sorted_by_stage() {
    assert!(matches!(Error::from(MetaError::Encrypt), Error::Prepare(PrepareError::Meta(MetaError::Encrypt))));
    assert!(matches!(Error::from(ReaderError::Progress), Error::Prepare(PrepareError::Reader(ReaderError::Progress))));
    assert!(matches!(Error::from(ReaderError::Encrypt), Error::Prepare(PrepareError::Reader(ReaderError::Encrypt))));
    assert!(matches!(Error::from(FileError::NotAFile), Error::File(FileError::NotAFile)));
    let open = FileError::Open(std::io::Error::new(std::io::ErrorKind::NotFound, "gone"));
    assert!(matches!(Error::from(open), Error::File(FileError::Open(_))));
    assert!(matches!(Error::from(UploadError::Progress), Error::Upload(UploadError::Progress)));
    assert!(matches!(Error::from(UploadError::Decode), Error::Upload(UploadError::Decode)));
}
