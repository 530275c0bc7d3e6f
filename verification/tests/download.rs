use ffsend_api::crypto::key_set::KeySet;
use ffsend_api::download::Action;
use ffsend_api::download::Download;
use ffsend_api::download::DownloadError;
use ffsend_api::download::Failure;
use ffsend_api::download::Stage;
use ffsend_api::error::MetaError;
use ffsend_api::file::File;
use ffsend_api::link::Link;
use ffsend_api::metadata::encrypt;
use ffsend_api::metadata::Metadata;
use ffsend_api::upload::FileData;
use ffsend_api::upload::Upload;

fn uploaded(keys: &KeySet) -> (String, File) {
    let upload = Upload::new(Link::parse("https://send.example").unwrap(), "a.txt".to_string());
    let data = FileData::from(true, Some(b"a.txt".as_slice())).unwrap();
    let blob = upload.create_metadata(keys, &data).unwrap();
    let request = upload.create_request(keys, &blob, 0).unwrap();
    let file = File::new(
        "abc".to_string(),
        Link::parse("https://send.example").unwrap(),
        Link::parse("https://send.example/download/abc").unwrap(),
        keys.secret().to_vec(),
        "tok".to_string(),
        0,
    );
    (request.metadata, file)
}

#[test]
fn the_share_address_gives_the_secret_back() {
    let keys = KeySet::generate(true).unwrap();
    let (_, file) = uploaded(&keys);
    let download = Download::new(file.download_url(true));
    assert_eq!(download.secret(), Ok(keys.secret().to_vec()));
    assert_eq!(download.url().as_str(), file.download_url(true).as_str());
}

#[test]
fn an_address_without_a_secret_is_refused() {
    let download = Download::new(Link::parse("https://send.example/download/abc").unwrap());
    assert_eq!(download.secret(), Err(DownloadError::NoSecret));
    let download = Download::new(Link::parse("https://send.example/download/abc#not base64").unwrap());
    assert_eq!(download.secret(), Err(DownloadError::NoSecret));
    let download = Download::new(Link::parse("https://send.example/download/abc#AAE=").unwrap());
    assert_eq!(download.secret(), Err(DownloadError::NoSecret));
    let download = Download::new(Link::parse("https://send.example/download/abc#").unwrap());
    assert_eq!(download.secret(), Ok(vec![]));
}

#[test]
fn the_metadata_opens_under_the_shared_secret() {
    let keys = KeySet::generate(true).unwrap();
    let (header, file) = uploaded(&keys);
    let secret = Download::new(file.download_url(true)).secret().unwrap();
    let (metadata, derived) = Download::read_metadata(secret, &header).unwrap();
    assert_eq!(metadata.name(), "a.txt");
    assert_eq!(metadata.mime(), "text/plain");
    assert_eq!(derived.iv(), keys.iv());
    assert_eq!(derived.file_key(), keys.file_key());
    assert_eq!(derived.auth_key(), keys.auth_key());
    assert!(!derived.is_owning());
}

#[test]
fn a_wrong_secret_does_not_open_the_metadata() {
    let keys = KeySet::generate(true).unwrap();
    let (header, _) = uploaded(&keys);
    assert_eq!(
        Download::read_metadata(vec![0u8; 16], &header).err(),
        Some(DownloadError::Metadata(MetaError::Decrypt))
    );
    assert_eq!(
        Download::read_metadata(keys.secret().to_vec(), "AAAA").err(),
        Some(DownloadError::Metadata(MetaError::Decrypt))
    );
}

#[test]
fn a_header_that_is_no_text_form_is_refused() {
    assert_eq!(
        Download::read_metadata(vec![0u8; 16], "not base64!").err(),
        Some(DownloadError::Header)
    );
}

#[test]
fn metadata_without_a_proper_nonce_is_refused() {
    let keys = KeySet::from(vec![4u8; 16], [0u8; 12]);
    let short = Metadata::from(&[1, 2, 3], "n".to_string(), "t".to_string());
    let blob = encrypt(&short, keys.meta_key()).unwrap();
    let header = File::new(
        String::new(),
        Link::parse("https://a.example").unwrap(),
        Link::parse("https://a.example").unwrap(),
        blob,
        String::new(),
        0,
    )
    .secret();
    assert_eq!(
        Download::read_metadata(vec![4u8; 16], &header).err(),
        Some(DownloadError::Nonce)
    );
}

#[test]
fn the_writer_decrypts_what_the_reader_encrypted() {
    let keys = KeySet::generate(true).unwrap();
    let upload = Upload::new(Link::parse("https://send.example").unwrap(), String::new());
    let mut reader = upload.create_reader(&keys).unwrap();
    let first = reader.pull(b"first chunk").unwrap();
    let second = reader.pull(b"second").unwrap();
    let mirror = KeySet::from(keys.secret().to_vec(), *keys.iv());
    let mut writer = Download::create_writer(&mirror).unwrap();
    assert_eq!(writer.input_len(), 65536 + 16);
    assert_eq!(writer.pull(&first), Ok(b"first chunk".to_vec()));
    assert_eq!(writer.pull(&second), Ok(b"second".to_vec()));
}

#[test]
fn a_download_runs_through_its_stages() {
    let mut stage = Stage::Secret;
    let mut actions = Vec::new();
    for _ in 0..7 {
        let (next, action) = Download::invoke(stage, true);
        stage = next;
        actions.push(action);
    }
    assert_eq!(
        actions,
        vec![
            Action::Request,
            Action::ReadMetadata,
            Action::StartReporter,
            Action::Receive,
            Action::FinishReporter,
            Action::Return,
            Action::Nothing
        ]
    );
    assert_eq!(stage, Stage::Done);
}

#[test]
fn a_download_finishes_its_reporter_once_whatever_happens() {
    for outcomes in 0..128u32 {
        let mut stage = Stage::Secret;
        let mut finishes = 0;
        let mut receives = 0;
        let mut handed_out = Vec::new();
        for step in 0..7 {
            let ok = outcomes & (1 << step) != 0;
            let (next, action) = Download::invoke(stage, ok);
            stage = next;
            match action {
                Action::FinishReporter => finishes += 1,
                Action::Receive => receives += 1,
                Action::Return | Action::Fail(_) => {
                    assert_eq!(finishes, 1);
                    handed_out.push(action);
                }
                _ => {}
            }
        }
        assert_eq!(stage, Stage::Done);
        assert_eq!(finishes, 1);
        assert_eq!(handed_out.len(), 1);
        if receives == 1 {
            assert_eq!(outcomes & 0b1111, 0b1111);
        }
    }
}

#[test]
fn download_failures_are_told_apart() {
    let firsts = [
        (Stage::Secret, Failure::NoSecret),
        (Stage::Request, Failure::Request),
        (Stage::Metadata, Failure::Metadata),
        (Stage::Start, Failure::Progress),
        (Stage::Transfer, Failure::Transfer),
    ];
    for (stage, failure) in firsts {
        assert_eq!(
            Download::invoke(stage, false),
            (Stage::Failed(failure), Action::FinishReporter)
        );
        assert_eq!(
            Download::invoke(Stage::Failed(failure), false),
            (Stage::Done, Action::Fail(failure))
        );
        assert_eq!(
            Download::invoke(Stage::Failed(failure), true),
            (Stage::Done, Action::Fail(failure))
        );
    }
    assert_eq!(
        Download::invoke(Stage::Finish, false),
        (Stage::Done, Action::Fail(Failure::Progress))
    );
    assert_eq!(Download::invoke(Stage::Done, true), (Stage::Done, Action::Nothing));
}
