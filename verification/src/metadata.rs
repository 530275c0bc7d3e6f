//! The descriptor of a file, and the encrypted blob that carries it.

use vstd::prelude::*;
use crate::crypto::aead;
use crate::crypto::aead::KEY_LEN;
use crate::crypto::aead::MAX_PIECE_LEN;
use crate::crypto::aead::TAG_LEN;
use crate::crypto::b64;
use crate::error::MetaError;
use crate::wire;
use crate::wire::Member;
use crate::wire::Pair;
use crate::wire::ascii;
use vstd::utf8::encode_utf8;

verus! {

/// What a descriptor holds, as plain values.
pub struct MetadataView {
    pub iv: Seq<char>,
    pub name: Seq<char>,
    pub mime: Seq<char>,
}

/// The descriptor of a file: the nonce of its content in text form, its
/// display name and its media type.
#[derive(Debug)]
pub struct Metadata {
    iv: String,
    name: String,
    mime: String,
}

impl View for Metadata {
    type V = MetadataView;

    closed spec fn view(&self) -> MetadataView {
        MetadataView { iv: self.iv@, name: self.name@, mime: self.mime@ }
    }
}

/// The key under which the nonce is written.
pub open spec fn iv_key() -> Seq<u8> {
    ascii("iv"@)
}

/// The key under which the name is written.
pub open spec fn name_key() -> Seq<u8> {
    ascii("name"@)
}

/// The key under which the media type is written.
pub open spec fn mime_key() -> Seq<u8> {
    ascii("type"@)
}

/// The members that a descriptor is written as.
pub open spec fn members_of(metadata: MetadataView) -> Seq<Pair> {
    seq![
        (iv_key(), encode_utf8(metadata.iv)),
        (name_key(), encode_utf8(metadata.name)),
        (mime_key(), encode_utf8(metadata.mime)),
    ]
}

/// The wire form of a descriptor.
pub open spec fn json(metadata: MetadataView) -> Seq<u8> {
    wire::object_bytes(members_of(metadata))
}

/// The descriptor that a wire form stands for, if it is one: an object
/// that holds a text under each of the three keys. Members under other
/// keys are passed over, whatever their values. A key of the three that
/// stands twice or whose value is no string, and an escaped surrogate that
/// stands alone, make the whole no wire form.
pub open spec fn parsed(bytes: Seq<u8>) -> Option<MetadataView> {
    match wire::three_texts(bytes, iv_key(), name_key(), mime_key()) {
        Some(found) => Some(MetadataView { iv: found.0, name: found.1, mime: found.2 }),
        None => None,
    }
}

/// The nonce under which a descriptor is encrypted. It is constant: the
/// metadata key encrypts one descriptor and nothing else.
pub open spec fn blob_nonce() -> Seq<u8> {
    Seq::new(12, |i: int| 0u8)
}

/// The descriptor that a blob carries under a key: the blob's last
/// `TAG_LEN` bytes are the tag of what stands before them. A key of another
/// length than the cipher's, a blob that is too short or too long and a tag
/// that does not verify give `Decrypt`; a plaintext that is no descriptor
/// gives `Malformed`.
pub open spec fn decrypted(key: Seq<u8>, blob: Seq<u8>) -> Result<MetadataView, MetaError> {
    if key.len() != KEY_LEN || blob.len() < TAG_LEN || blob.len() - TAG_LEN > MAX_PIECE_LEN {
        Err(MetaError::Decrypt)
    } else {
        let split = blob.len() - TAG_LEN;
        match aead::opened(key, blob_nonce(), blob.take(split), blob.skip(split)) {
            None => Err(MetaError::Decrypt),
            Some(plaintext) => match parsed(plaintext) {
                Some(metadata) => Ok(metadata),
                None => Err(MetaError::Malformed),
            },
        }
    }
}

/// What a result holds, as plain values.
pub open spec fn result_view(res: Result<Metadata, MetaError>) -> Result<MetadataView, MetaError> {
    match res {
        Ok(metadata) => Ok(metadata@),
        Err(error) => Err(error),
    }
}

/// A descriptor's wire form, read again, is that descriptor.
pub proof fn lemma_json_reads_back(metadata: MetadataView)
    ensures
        parsed(json(metadata)) == Some(metadata),
{
    let members = wire::as_read(members_of(metadata));
    wire::lemma_object_reads_back(members_of(metadata));
    reveal_strlit("iv");
    reveal_strlit("name");
    reveal_strlit("type");
    assert(iv_key().len() == 2 && name_key().len() == 4 && mime_key().len() == 4);
    assert(name_key()[0] == 0x6e && mime_key()[0] == 0x74);
    assert(members.len() == 3);
    assert(members[0] == (iv_key(), Some(encode_utf8(metadata.iv))));
    assert(members[1] == (name_key(), Some(encode_utf8(metadata.name))));
    assert(members[2] == (mime_key(), Some(encode_utf8(metadata.mime))));
    assert(members.skip(1)[0] == members[1]);
    assert(members.skip(1).skip(1)[0] == members[2]);
    assert(members.skip(1).skip(1).skip(1).len() == 0);
    reveal_with_fuel(wire::field, 4);
    reveal_with_fuel(wire::occurrences, 5);
    assert(wire::field(members, iv_key()) == Some(Some(encode_utf8(metadata.iv))));
    assert(wire::field(members, name_key()) == Some(Some(encode_utf8(metadata.name))));
    assert(wire::field(members, mime_key()) == Some(Some(encode_utf8(metadata.mime))));
    assert(wire::occurrences(members, iv_key()) == 1);
    assert(wire::occurrences(members, name_key()) == 1);
    assert(wire::occurrences(members, mime_key()) == 1);
    vstd::utf8::encode_utf8_valid_utf8(metadata.iv);
    vstd::utf8::encode_utf8_valid_utf8(metadata.name);
    vstd::utf8::encode_utf8_valid_utf8(metadata.mime);
    vstd::utf8::encode_utf8_decode_utf8(metadata.iv);
    vstd::utf8::encode_utf8_decode_utf8(metadata.name);
    vstd::utf8::encode_utf8_decode_utf8(metadata.mime);
    assert(wire::text_field(members, iv_key()) == Some(metadata.iv));
    assert(wire::text_field(members, name_key()) == Some(metadata.name));
    assert(wire::text_field(members, mime_key()) == Some(metadata.mime));
}

impl Metadata {
    /// The descriptor of a file with the given content nonce, name and
    /// media type.
    pub fn from(iv: &[u8], name: String, mime: String) -> (metadata: Metadata)
        ensures
            metadata@ == (MetadataView { iv: b64::encoded(iv@), name: name@, mime: mime@ }),
    {
        Metadata { iv: b64::encode(iv), name, mime }
    }

    /// The content nonce, in text form.
    pub fn iv(&self) -> (iv: &str)
        ensures
            iv@ == self@.iv,
    {
        self.iv.as_str()
    }

    /// The display name.
    pub fn name(&self) -> (name: &str)
        ensures
            name@ == self@.name,
    {
        self.name.as_str()
    }

    /// The media type.
    pub fn mime(&self) -> (mime: &str)
        ensures
            mime@ == self@.mime,
    {
        self.mime.as_str()
    }

    /// Writes the descriptor in its wire form.
    pub fn to_json(&self) -> (bytes: Vec<u8>)
        ensures
            bytes@ == json(self@),
            parsed(bytes@) == Some(self@),
    {
        proof {
            reveal_strlit("iv");
            reveal_strlit("name");
            reveal_strlit("type");
        }
        let mut members: Vec<Member> = Vec::new();
        members.push(Member { key: wire::ascii_bytes("iv"), value: self.iv.as_str().as_bytes_vec() });
        members.push(
            Member { key: wire::ascii_bytes("name"), value: self.name.as_str().as_bytes_vec() },
        );
        members.push(
            Member { key: wire::ascii_bytes("type"), value: self.mime.as_str().as_bytes_vec() },
        );
        assert(wire::pairs(members@) =~= members_of(self@));
        proof {
            lemma_json_reads_back(self@);
        }
        wire::write_object(&members)
    }

    /// Reads a descriptor from its wire form: an object that holds a text
    /// under `iv`, `name` and `type`. Members under other keys are passed
    /// over, whatever their values; a key of the three that stands twice
    /// or whose value is no string, and an escaped surrogate that stands
    /// alone, are refused.
    pub fn from_json(bytes: &[u8]) -> (res: Option<Metadata>)
        ensures
            match res {
                Some(metadata) => parsed(bytes@) == Some(metadata@),
                None => parsed(bytes@) is None,
            },
    {
        proof {
            reveal_strlit("iv");
            reveal_strlit("name");
            reveal_strlit("type");
        }
        let iv_key = wire::ascii_bytes("iv");
        let name_key = wire::ascii_bytes("name");
        let mime_key = wire::ascii_bytes("type");
        match wire::read_three(bytes, iv_key.as_slice(), name_key.as_slice(), mime_key.as_slice()) {
            Some((iv, name, mime)) => Some(Metadata { iv, name, mime }),
            None => None,
        }
    }
}

/// Takes the cipher's answer for a descriptor's wire form: the blob is the
/// ciphertext with the tag behind it; a failure of the cipher is `Encrypt`.
pub fn conclude_encrypt(sealed: Option<(Vec<u8>, Vec<u8>)>) -> (res: Result<Vec<u8>, MetaError>)
    ensures
        match sealed {
            Some(piece) => res matches Ok(blob) && blob@ == piece.0@ + piece.1@,
            None => res == Err::<Vec<u8>, MetaError>(MetaError::Encrypt),
        },
{
    match sealed {
        Some((mut body, mut tag)) => {
            body.append(&mut tag);
            Ok(body)
        },
        None => Err(MetaError::Encrypt),
    }
}

/// Encrypts a descriptor under the metadata key, which must encrypt
/// nothing else. The blob that comes out decrypts again to the descriptor.
/// A key that is not of the cipher's length, and a descriptor whose wire
/// form is longer than the cipher takes in one piece, are refused with
/// `Encrypt`.
pub fn encrypt(metadata: &Metadata, meta_key: &[u8]) -> (res: Result<Vec<u8>, MetaError>)
    ensures
        match res {
            Ok(blob) => {
                &&& meta_key@.len() == KEY_LEN
                &&& blob@.len() == json(metadata@).len() + TAG_LEN
                &&& aead::is_sealed(
                    meta_key@,
                    blob_nonce(),
                    json(metadata@),
                    blob@.take(blob@.len() - TAG_LEN),
                    blob@.skip(blob@.len() - TAG_LEN),
                )
                &&& decrypted(meta_key@, blob@) == Ok::<MetadataView, MetaError>(metadata@)
            },
            Err(error) => error == MetaError::Encrypt,
        },
        meta_key@.len() != KEY_LEN || json(metadata@).len() > MAX_PIECE_LEN ==> res is Err,
{
    let plaintext = metadata.to_json();
    if meta_key.len() != KEY_LEN || plaintext.len() > MAX_PIECE_LEN {
        return Err(MetaError::Encrypt);
    }
    let nonce = [0u8; 12];
    assert(nonce@ =~= blob_nonce());
    let sealed = aead::seal(meta_key, nonce.as_slice(), plaintext.as_slice());
    let res = conclude_encrypt(sealed);
    proof {
        if res is Ok {
            let blob = res->Ok_0@;
            let piece = sealed->0;
            assert(blob.take(blob.len() - TAG_LEN) =~= piece.0@);
            assert(blob.skip(blob.len() - TAG_LEN) =~= piece.1@);
        }
    }
    res
}

/// Decrypts a blob under the metadata key and reads the descriptor in it.
/// Nothing of the plaintext is looked at unless the tag verifies.
pub fn decrypt(blob: &[u8], meta_key: &[u8]) -> (res: Result<Metadata, MetaError>)
    ensures
        result_view(res) == decrypted(meta_key@, blob@),
{
    if meta_key.len() != KEY_LEN || blob.len() < TAG_LEN || blob.len() - TAG_LEN > MAX_PIECE_LEN {
        return Err(MetaError::Decrypt);
    }
    let split = blob.len() - TAG_LEN;
    let nonce = [0u8; 12];
    assert(nonce@ =~= blob_nonce());
    assert(blob@.subrange(0, split as int) == blob@.take(split as int));
    assert(blob@.subrange(split as int, blob@.len() as int) == blob@.skip(split as int));
    let opened = aead::open(meta_key, nonce.as_slice(), &blob[0..split], &blob[split..blob.len()]);
    match opened {
        None => Err(MetaError::Decrypt),
        Some(plaintext) => match Metadata::from_json(plaintext.as_slice()) {
            Some(metadata) => Ok(metadata),
            None => Err(MetaError::Malformed),
        },
    }
}

} // verus!
