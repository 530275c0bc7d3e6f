//! The URL-safe text form of binary values.

use vstd::prelude::*;

verus! {

/// The URL-safe base64 text of `data`, without padding.
pub uninterp spec fn encoded(data: Seq<u8>) -> Seq<char>;

/// The bytes that a URL-safe base64 text without padding stands for, if it
/// is such a text.
pub uninterp spec fn decoded(text: Seq<char>) -> Option<Seq<u8>>;

/// Whether `c` belongs to the URL-safe base64 alphabet.
pub open spec fn is_alphabet_char(c: char) -> bool {
    ('A' <= c && c <= 'Z') || ('a' <= c && c <= 'z') || ('0' <= c && c <= '9') || c == '-' || c
        == '_'
}

/// Whether every character of `text` belongs to the URL-safe alphabet.
pub open spec fn is_alphabet_text(text: Seq<char>) -> bool {
    forall|i: int| 0 <= i < text.len() ==> is_alphabet_char(#[trigger] text[i])
}

/// The number of characters that `n` bytes encode to.
pub open spec fn encoded_len(n: nat) -> nat {
    ((4 * n + 2) / 3) as nat
}

/// Encodes `data` as URL-safe base64 without padding.
///
/// Trusted: calls `base64::Engine::encode` on the engine
/// `URL_SAFE_NO_PAD`. The contract claims that the text is a function of
/// the bytes, that it uses only the URL-safe alphabet, that it has four
/// characters for every three bytes, rounded up, and that decoding it gives
/// the bytes back.
#[verifier::external_body]
pub(crate) fn encode(data: &[u8]) -> (text: String)
    ensures
        text@ == encoded(data@),
        text@.len() == encoded_len(data@.len()),
        is_alphabet_text(text@),
        decoded(text@) == Some(data@),
{
    base64::Engine::encode(&base64::engine::general_purpose::URL_SAFE_NO_PAD, data)
}

/// Decodes a URL-safe base64 text without padding.
///
/// Trusted: calls `base64::Engine::decode` on the engine
/// `URL_SAFE_NO_PAD`. The contract claims that the outcome is a function of
/// the text, `None` standing for any decoding error.
#[verifier::external_body]
pub(crate) fn decode(text: &str) -> (res: Option<Vec<u8>>)
    ensures
        match res {
            Some(data) => decoded(text@) == Some(data@),
            None => decoded(text@) is None,
        },
{
    base64::Engine::decode(&base64::engine::general_purpose::URL_SAFE_NO_PAD, text).ok()
}

} // verus!
