use ffsend_api::crypto::key_set::KeySet;

fn sample_secret() -> Vec<u8> {
    (0u8..16).collect()
}

#[test]
fn derivation_is_deterministic() {
    let a = KeySet::from(sample_secret(), [7u8; 12]);
    let b = KeySet::from(sample_secret(), [7u8; 12]);
    assert_eq!(a.auth_key(), b.auth_key());
    assert_eq!(a.meta_key(), b.meta_key());
    assert_eq!(a.file_key(), b.file_key());
}

#[test]
fn derivation_does_not_depend_on_the_nonce() {
    let a = KeySet::from(sample_secret(), [0u8; 12]);
    let b = KeySet::from(sample_secret(), [9u8; 12]);
    assert_eq!(a.file_key(), b.file_key());
    assert_eq!(a.iv(), &[0u8; 12]);
    assert_eq!(b.iv(), &[9u8; 12]);
}

#[test]
fn derived_keys_have_their_known_values() {
    let keys = KeySet::from(sample_secret(), [0u8; 12]);
    assert_eq!(
        keys.meta_key(),
        &[108, 209, 36, 255, 185, 205, 35, 249, 211, 243, 27, 142, 218, 222, 194, 114]
    );
    assert_eq!(
        keys.file_key(),
        &[210, 101, 156, 129, 156, 254, 32, 21, 151, 24, 73, 131, 126, 148, 99, 232]
    );
    assert_eq!(keys.auth_key().len(), 64);
    assert_eq!(&keys.auth_key()[..4], &[145, 15, 119, 51]);
    assert_eq!(&keys.auth_key()[60..], &[181, 191, 37, 158]);
}

#[test]
fn the_three_keys_differ_from_each_other_and_from_the_secret() {
    let keys = KeySet::from(sample_secret(), [0u8; 12]);
    assert_ne!(keys.meta_key(), keys.file_key());
    assert_ne!(keys.meta_key(), &keys.auth_key()[..16]);
    assert_ne!(keys.file_key(), keys.secret());
    assert_eq!(keys.secret(), sample_secret().as_slice());
}

#[test]
fn different_secrets_give_different_keys() {
    let a = KeySet::from(vec![1u8; 16], [0u8; 12]);
    let b = KeySet::from(vec![2u8; 16], [0u8; 12]);
    assert_ne!(a.file_key(), b.file_key());
    assert_ne!(a.meta_key(), b.meta_key());
    assert_ne!(a.auth_key(), b.auth_key());
}

#[test]
fn auth_key_is_encoded_for_the_header() {
    let keys = KeySet::from(sample_secret(), [0u8; 12]);
    assert_eq!(
        keys.auth_key_encoded(),
        "kQ93M995gaAZVUQIc_hb2GSavYMMJAt5u-tT55jauhvgtaL35F3FDba5oPgZFb44gpXP7mS1ENvs1EcEtb8lng"
    );
}

#[test]
fn a_derived_key_set_does_not_own_the_secret() {
    let keys = KeySet::from(sample_secret(), [0u8; 12]);
    assert!(!keys.is_owning());
}

#[test]
fn generated_key_sets_are_fresh() {
    let a = KeySet::generate(true).expect("random source");
    let b = KeySet::generate(false).expect("random source");
    assert!(a.is_owning());
    assert!(!b.is_owning());
    assert_eq!(a.secret().len(), 16);
    assert_eq!(a.file_key().len(), 16);
    assert_eq!(a.meta_key().len(), 16);
    assert_eq!(a.auth_key().len(), 64);
    assert_ne!(a.secret(), b.secret());
    assert_ne!(a.secret(), &[0u8; 16]);
}

#[test]
fn generated_keys_are_those_of_the_generated_secret() {
    let made = KeySet::generate(true).expect("random source");
    let again = KeySet::from(made.secret().to_vec(), *made.iv());
    assert_eq!(made.file_key(), again.file_key());
    assert_eq!(made.meta_key(), again.meta_key());
    assert_eq!(made.auth_key(), again.auth_key());
}

#[test]
fn a_failed_random_draw_gives_no_keys() {
    assert!(KeySet::from_random(None, Some(vec![0u8; 12]), true).is_none());
    assert!(KeySet::from_random(Some(vec![0u8; 16]), None, true).is_none());
    assert!(KeySet::from_random(Some(vec![0u8; 16]), Some(vec![0u8; 11]), true).is_none());
    assert!(KeySet::from_random(Some(vec![0u8; 16]), Some(vec![0u8; 13]), true).is_none());
    let keys = KeySet::from_random(Some(sample_secret()), Some(vec![3u8; 12]), true).unwrap();
    assert_eq!(keys.iv(), &[3u8; 12]);
    assert_eq!(keys.secret(), sample_secret().as_slice());
    assert!(keys.is_owning());
}
