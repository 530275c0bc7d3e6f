use ffsend_api::crypto::key_set::KeySet;
use ffsend_api::error::MetaError;
use ffsend_api::metadata::conclude_encrypt;
use ffsend_api::metadata::decrypt;
use ffsend_api::metadata::encrypt;
use ffsend_api::metadata::Metadata;
use ffsend_api::stream::encrypt_stream;

const META_KEY: [u8; 16] = [
    108, 209, 36, 255, 185, 205, 35, 249, 211, 243, 27, 142, 218, 222, 194, 114,
];

fn sample() -> Metadata {
    Metadata::from(&[0u8; 12], "a.txt".to_string(), "text/plain".to_string())
}

fn assert_same(a: &Metadata, b: &Metadata) {
    assert_eq!(a.iv(), b.iv());
    assert_eq!(a.name(), b.name());
    assert_eq!(a.mime(), b.mime());
}

#[test]
fn metadata_holds_the_nonce_as_text() {
    let metadata = sample();
    assert_eq!(metadata.iv(), "AAAAAAAAAAAAAAAA");
    assert_eq!(metadata.name(), "a.txt");
    assert_eq!(metadata.mime(), "text/plain");
    let other = Metadata::from(&[0xfb, 0xff], String::new(), String::new());
    assert_eq!(other.iv(), "-_8");
}

#[test]
fn metadata_has_its_wire_form() {
    assert_eq!(
        sample().to_json(),
        br#"{"iv":"AAAAAAAAAAAAAAAA","name":"a.txt","type":"text/plain"}"#.to_vec()
    );
}

#[test]
fn names_are_escaped_in_the_wire_form() {
    let metadata = Metadata::from(&[], "a\"b\\c\n\u{1}é".to_string(), "x/y".to_string());
    assert_eq!(
        metadata.to_json(),
        "{\"iv\":\"\",\"name\":\"a\\\"b\\\\c\\u000a\\u0001é\",\"type\":\"x/y\"}"
            .as_bytes()
            .to_vec()
    );
}

#[test]
fn wire_form_round_trip() {
    for name in ["", "plain.bin", "a\"b\\c", "tab\there\nnew\r\u{0}\u{1f}", "héllo wörld ✓ 🦀", "/\\/"] {
        let metadata = Metadata::from(&[1, 2, 3], name.to_string(), "application/x-thing".to_string());
        let back = Metadata::from_json(&metadata.to_json()).unwrap();
        assert_same(&metadata, &back);
    }
}

#[test]
fn wire_forms_of_other_writers_are_read() {
    let text = " {\n \"type\" : \"text\\/plain\",\t\"extra\":\"ignored\",\r\n \"name\":\"\\u0041\\u00e9\\u20ac\\n\\t\\b\\f\\r\", \"iv\":\"abc\" } ";
    let metadata = Metadata::from_json(text.as_bytes()).unwrap();
    assert_eq!(metadata.iv(), "abc");
    assert_eq!(metadata.name(), "Aé€\n\t\u{8}\u{c}\r");
    assert_eq!(metadata.mime(), "text/plain");
}

#[test]
fn what_is_no_metadata_is_not_read() {
    for text in [
        "",
        "{}",
        "[]",
        "null",
        r#"{"iv":"a","name":"b"}"#,
        r#"{"iv":"a","name":"b","type":1}"#,
        r#"{"iv":"a","name":"b","type":"c"} x"#,
        r#"{"iv":"a","name":"b","type":"c",}"#,
        r#"{"iv":"a" "name":"b","type":"c"}"#,
        r#"{"iv":"a","name":"b","type":"c""#,
        r#"{"iv":"a","name":"b","type":"c\x"}"#,
        r#"{"iv":"a","name":"b","type":"\ud800"}"#,
        r#"{"iv":"a","name":"b","type":"\u12"}"#,
        "{\"iv\":\"a\",\"name\":\"b\nc\",\"type\":\"c\"}",
    ] {
        assert!(Metadata::from_json(text.as_bytes()).is_none(), "{}", text);
    }
    assert!(Metadata::from_json(b"{\"iv\":\"a\",\"name\":\"\xff\",\"type\":\"c\"}").is_none());
}

#[test]
fn a_repeated_member_is_refused() {
    assert!(Metadata::from_json(br#"{"iv":"1","name":"n","type":"t","iv":"2"}"#).is_none());
    assert!(Metadata::from_json(br#"{"iv":"1","name":"n","type":"t","iv":"1"}"#).is_none());
    assert!(Metadata::from_json(br#"{"iv":1,"iv":"1","name":"n","type":"t"}"#).is_none());
}

#[test]
fn members_under_other_keys_are_passed_over() {
    let text = r#"{"size":1234,"iv":"1","manifest":{"files":[{"name":"a","size":1}]},"name":"n","type":"t","flag":true,"none":null}"#;
    let metadata = Metadata::from_json(text.as_bytes()).unwrap();
    assert_eq!(metadata.iv(), "1");
    assert_eq!(metadata.name(), "n");
    assert_eq!(metadata.mime(), "t");
}

#[test]
fn escaped_characters_above_the_basic_plane_are_read() {
    let metadata = Metadata::from_json(br#"{"iv":"","name":"crab \ud83e\udd80.txt","type":"t"}"#).unwrap();
    assert_eq!(metadata.name(), "crab 🦀.txt");
}

#[test]
fn blob_round_trip() {
    for name in ["a.txt", "", "weird \"name\"\\ \u{7} ünïcödé 🦀"] {
        let metadata = Metadata::from(&[9u8; 12], name.to_string(), "text/plain".to_string());
        let blob = encrypt(&metadata, &META_KEY).unwrap();
        assert_eq!(blob.len(), metadata.to_json().len() + 16);
        let back = decrypt(&blob, &META_KEY).unwrap();
        assert_same(&metadata, &back);
    }
}

#[test]
fn blob_has_its_known_value() {
    let blob = encrypt(&sample(), &META_KEY).unwrap();
    assert_eq!(
        blob,
        vec![
            36, 154, 59, 94, 102, 175, 160, 90, 191, 149, 110, 45, 17, 115, 174, 7, 140, 249, 22,
            77, 169, 185, 148, 86, 66, 7, 69, 254, 145, 224, 179, 3, 232, 88, 220, 253, 206, 161,
            14, 128, 145, 138, 216, 185, 31, 115, 217, 94, 81, 65, 178, 100, 213, 129, 140, 239,
            94, 119, 227, 235, 141, 6, 181, 162, 216, 95, 5, 249, 15, 72, 47, 144, 9, 247, 209, 36
        ]
    );
}

#[test]
fn blob_of_generated_keys_round_trip() {
    let keys = KeySet::generate(true).unwrap();
    let metadata = Metadata::from(keys.iv(), "report.pdf".to_string(), "application/pdf".to_string());
    let blob = encrypt(&metadata, keys.meta_key()).unwrap();
    let reader = KeySet::from(keys.secret().to_vec(), *keys.iv());
    assert_same(&metadata, &decrypt(&blob, reader.meta_key()).unwrap());
}

#[test]
fn a_tampered_blob_is_refused() {
    let blob = encrypt(&sample(), &META_KEY).unwrap();
    for byte in 0..blob.len() {
        let mut tampered = blob.clone();
        tampered[byte] ^= 0x10;
        assert_eq!(decrypt(&tampered, &META_KEY).err(), Some(MetaError::Decrypt));
    }
    assert_eq!(decrypt(&blob[..blob.len() - 1], &META_KEY).err(), Some(MetaError::Decrypt));
    assert_eq!(decrypt(&blob[..15], &META_KEY).err(), Some(MetaError::Decrypt));
    assert_eq!(decrypt(&[], &META_KEY).err(), Some(MetaError::Decrypt));
}

#[test]
fn a_wrong_key_is_refused() {
    let blob = encrypt(&sample(), &META_KEY).unwrap();
    assert_eq!(decrypt(&blob, &[1u8; 16]).err(), Some(MetaError::Decrypt));
    assert_eq!(decrypt(&blob, &[1u8; 15]).err(), Some(MetaError::Decrypt));
    assert_eq!(decrypt(&blob, &[]).err(), Some(MetaError::Decrypt));
}

#[test]
fn a_key_of_the_wrong_length_does_not_encrypt() {
    assert_eq!(encrypt(&sample(), &[0u8; 15]), Err(MetaError::Encrypt));
    assert_eq!(encrypt(&sample(), &[0u8; 32]), Err(MetaError::Encrypt));
}

#[test]
fn a_blob_that_carries_no_metadata_is_malformed() {
    let blob = encrypt_stream(b"{\"iv\":\"x\"}", &META_KEY, &[0u8; 12], 64).unwrap();
    assert_eq!(decrypt(&blob, &META_KEY).err(), Some(MetaError::Malformed));
    let empty = encrypt_stream(b"not json", &META_KEY, &[0u8; 12], 64).unwrap();
    assert_eq!(decrypt(&empty, &META_KEY).err(), Some(MetaError::Malformed));
}

#[test]
fn the_cipher_answer_is_taken_as_it_comes() {
    assert_eq!(conclude_encrypt(Some((vec![1, 2], vec![3]))), Ok(vec![1, 2, 3]));
    assert_eq!(conclude_encrypt(None), Err(MetaError::Encrypt));
}
