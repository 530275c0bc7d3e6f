//! Addresses of the service and of the files on it, held in their
//! normalised text form.

use vstd::prelude::*;
use vstd::string::StrSliceExecFns;
use crate::crypto::b64;

verus! {

/// Why a text is no address.
#[derive(Clone, Copy, Debug, PartialEq, Eq, Structural)]
pub enum UrlError {
    EmptyHost,
    IdnaError,
    InvalidPort,
    InvalidIpv4Address,
    InvalidIpv6Address,
    InvalidDomainCharacter,
    RelativeUrlWithoutBase,
    RelativeUrlWithCannotBeABaseBase,
    SetHostOnCannotBeABaseUrl,
    Overflow,
    /// A reason that this library has no name for.
    Other,
}

/// The normalised form of the absolute address that `text` is, or the
/// reason for which it is none.
pub uninterp spec fn parsed(text: Seq<char>) -> Result<Seq<char>, UrlError>;

/// The normalised form of the address that `relative` is when it is read
/// against the address `base`, if the two are such.
pub uninterp spec fn joined(base: Seq<char>, relative: Seq<char>) -> Option<Seq<char>>;

/// The normalised form of the address `address` with its fragment set to
/// `fragment`, if `address` is an address.
pub uninterp spec fn with_fragment(address: Seq<char>, fragment: Seq<char>) -> Option<Seq<char>>;

/// The fragment of the address `address`, if it is an address and has
/// one.
pub uninterp spec fn fragment_of(address: Seq<char>) -> Option<Seq<char>>;

/// The most characters that an address may have before its fragment, and
/// the most that an address may have when it is read.
pub const MAX_LINK_LEN: usize = 0x3fff_ffff;

/// The address that `text` is read as: its normalised form, unless that is
/// longer than `MAX_LINK_LEN`.
pub open spec fn read(text: Seq<char>) -> Result<Seq<char>, UrlError> {
    match parsed(text) {
        Ok(address) => if address.len() <= MAX_LINK_LEN {
            Ok(address)
        } else {
            Err(UrlError::Overflow)
        },
        Err(reason) => Err(reason),
    }
}

/// The address that `relative` is read as against `base`: the normalised
/// form, unless there is none or it is longer than `MAX_LINK_LEN`.
pub open spec fn read_against(base: Seq<char>, relative: Seq<char>) -> Option<Seq<char>> {
    match joined(base, relative) {
        Some(address) => if address.len() <= MAX_LINK_LEN {
            Some(address)
        } else {
            None
        },
        None => None,
    }
}

/// An address up to its fragment: what stands before the first `#`.
pub open spec fn before_fragment(address: Seq<char>) -> Seq<char>
    decreases address.len(),
{
    if address.len() == 0 || address[0] == '#' {
        Seq::empty()
    } else {
        seq![address[0]] + before_fragment(address.skip(1))
    }
}

/// What stands before the fragment is no longer than the address.
pub proof fn lemma_before_fragment_is_shorter(address: Seq<char>)
    ensures
        before_fragment(address).len() <= address.len(),
    decreases address.len(),
{
    if address.len() > 0 && address[0] != '#' {
        lemma_before_fragment_is_shorter(address.skip(1));
    }
}

/// Parses an absolute address.
///
/// Trusted: calls `url::Url::parse`, hands out the address's serialisation
/// and tells the variants of `url::ParseError` apart, one arm each. The
/// contract claims that the outcome, the reason of a refusal too, is a
/// function of the text, and that a serialisation parses again to itself.
#[verifier::external_body]
fn parse_text(text: &str) -> (res: Result<String, UrlError>)
    ensures
        match res {
            Ok(address) => parsed(text@) == Ok::<Seq<char>, UrlError>(address@) && parsed(address@)
                == Ok::<Seq<char>, UrlError>(address@),
            Err(error) => parsed(text@) == Err::<Seq<char>, UrlError>(error),
        },
{
    Err(match url::Url::parse(text) {
        Ok(address) => return Ok(String::from(address)),
        Err(url::ParseError::EmptyHost) => UrlError::EmptyHost,
        Err(url::ParseError::IdnaError) => UrlError::IdnaError,
        Err(url::ParseError::InvalidPort) => UrlError::InvalidPort,
        Err(url::ParseError::InvalidIpv4Address) => UrlError::InvalidIpv4Address,
        Err(url::ParseError::InvalidIpv6Address) => UrlError::InvalidIpv6Address,
        Err(url::ParseError::InvalidDomainCharacter) => UrlError::InvalidDomainCharacter,
        Err(url::ParseError::RelativeUrlWithoutBase) => UrlError::RelativeUrlWithoutBase,
        Err(url::ParseError::RelativeUrlWithCannotBeABaseBase) => UrlError::RelativeUrlWithCannotBeABaseBase,
        Err(url::ParseError::SetHostOnCannotBeABaseUrl) => UrlError::SetHostOnCannotBeABaseUrl,
        Err(url::ParseError::Overflow) => UrlError::Overflow,
        Err(_) => UrlError::Other,
    })
}

/// Reads a relative address against a base.
///
/// Trusted: calls `url::Url::parse` on the base and `url::Url::join` on
/// the result. The contract claims that the outcome is a function of the
/// two texts, `None` standing for any refusal, and that a serialisation
/// parses again to itself.
#[verifier::external_body]
fn join_text(base: &str, relative: &str) -> (res: Option<String>)
    ensures
        match res {
            Some(address) => joined(base@, relative@) == Some(address@) && parsed(address@)
                == Ok::<Seq<char>, UrlError>(address@),
            None => joined(base@, relative@) is None,
        },
{
    url::Url::parse(base).ok()?.join(relative).ok().map(String::from)
}

/// Sets the fragment of an address.
///
/// Trusted: calls `url::Url::parse` and `url::Url::set_fragment`. The
/// setter converts the length of what stands before the fragment to 32
/// bits and does not return where that fails; `requires` keeps that part
/// of a normalised address at `MAX_LINK_LEN` characters, which are fewer
/// than 2^32 bytes. The contract claims that the call fails only where the
/// text is no address; that the outcome is a function of the two texts and
/// parses again to itself; that what stands before the fragment is left as
/// it was; and, of a fragment made of the URL-safe base64 alphabet, which
/// the setter writes as it stands, that the outcome is the address up to
/// its old fragment, `#`, and the new fragment, and that the new fragment
/// is the one that is read from it again.
#[verifier::external_body]
fn set_fragment_text(address: &str, fragment: &str) -> (res: Option<String>)
    requires
        parsed(address@) == Ok::<Seq<char>, UrlError>(address@),
        before_fragment(address@).len() <= MAX_LINK_LEN,
    ensures
        match res {
            Some(out) => {
                &&& with_fragment(address@, fragment@) == Some(out@)
                &&& parsed(out@) == Ok::<Seq<char>, UrlError>(out@)
                &&& before_fragment(out@) == before_fragment(address@)
                &&& b64::is_alphabet_text(fragment@) ==> out@ == before_fragment(address@)
                    + seq!['#'] + fragment@
                &&& b64::is_alphabet_text(fragment@) ==> fragment_of(out@) == Some(fragment@)
            },
            None => parsed(address@) is Err && with_fragment(address@, fragment@) is None,
        },
{
    let mut address = url::Url::parse(address).ok()?;
    address.set_fragment(Some(fragment));
    Some(String::from(address))
}

/// Reads the fragment of an address.
///
/// Trusted: calls `url::Url::parse` and `url::Url::fragment`. The contract
/// claims that the outcome is a function of the text.
#[verifier::external_body]
fn fragment_text(address: &str) -> (res: Option<String>)
    ensures
        match res {
            Some(fragment) => fragment_of(address@) == Some(fragment@),
            None => fragment_of(address@) is None,
        },
{
    url::Url::parse(address).ok()?.fragment().map(String::from)
}

/// An absolute address in its normalised text form. A share address holds
/// a secret, and so an address has no printed form but its text.
pub struct Link {
    text: String,
}

impl View for Link {
    type V = Seq<char>;

    closed spec fn view(&self) -> Seq<char> {
        self.text@
    }
}

impl Link {
    #[verifier::type_invariant]
    closed spec fn wf(&self) -> bool {
        &&& parsed(self.text@) == Ok::<Seq<char>, UrlError>(self.text@)
        &&& before_fragment(self.text@).len() <= MAX_LINK_LEN
    }

    /// Reads `text` as an absolute address, or says why it is none. An
    /// address whose normalised form has more than `MAX_LINK_LEN`
    /// characters is refused with `Overflow`.
    pub fn parse(text: &str) -> (res: Result<Link, UrlError>)
        ensures
            match res {
                Ok(link) => read(text@) == Ok::<Seq<char>, UrlError>(link@) && parsed(link@)
                    == Ok::<Seq<char>, UrlError>(link@),
                Err(error) => read(text@) == Err::<Seq<char>, UrlError>(error),
            },
    {
        match parse_text(text) {
            Ok(text) => {
                if text.as_str().unicode_len() > MAX_LINK_LEN {
                    return Err(UrlError::Overflow);
                }
                proof {
                    lemma_before_fragment_is_shorter(text@);
                }
                Ok(Link { text })
            },
            Err(error) => Err(error),
        }
    }

    /// Reads `relative` against this address, if it can be read so and
    /// the result has no more than `MAX_LINK_LEN` characters.
    pub fn join(&self, relative: &str) -> (res: Option<Link>)
        ensures
            match res {
                Some(link) => read_against(self@, relative@) == Some(link@) && parsed(link@)
                    == Ok::<Seq<char>, UrlError>(link@),
                None => read_against(self@, relative@) is None,
            },
    {
        match join_text(self.text.as_str(), relative) {
            Some(text) => {
                if text.as_str().unicode_len() > MAX_LINK_LEN {
                    return None;
                }
                proof {
                    lemma_before_fragment_is_shorter(text@);
                }
                Some(Link { text })
            },
            None => None,
        }
    }

    /// This address with its fragment set to `fragment`. What stands before
    /// the fragment stays as it is. A fragment of the URL-safe base64
    /// alphabet stands in the result as it was given, behind what preceded
    /// the old fragment and a `#`.
    pub fn with_fragment(&self, fragment: &str) -> (link: Link)
        ensures
            with_fragment(self@, fragment@) == Some(link@),
            parsed(self@) == Ok::<Seq<char>, UrlError>(self@),
            before_fragment(link@) == before_fragment(self@),
            b64::is_alphabet_text(fragment@) ==> link@ == before_fragment(self@) + seq!['#']
                + fragment@,
            b64::is_alphabet_text(fragment@) ==> fragment_of(link@) == Some(fragment@),
    {
        proof {
            use_type_invariant(self);
        }
        match set_fragment_text(self.text.as_str(), fragment) {
            Some(text) => Link { text },
            None => vstd::pervasive::unreached(),
        }
    }

    /// The fragment of this address, if it has one.
    pub fn fragment(&self) -> (res: Option<String>)
        ensures
            match res {
                Some(fragment) => fragment_of(self@) == Some(fragment@),
                None => fragment_of(self@) is None,
            },
    {
        fragment_text(self.text.as_str())
    }

    /// The address as text.
    pub fn as_str(&self) -> (text: &str)
        ensures
            text@ == self@,
            parsed(self@) == Ok::<Seq<char>, UrlError>(self@),
            before_fragment(self@).len() <= MAX_LINK_LEN,
    {
        proof {
            use_type_invariant(self);
        }
        self.text.as_str()
    }

    /// Another value of the same address.
    pub fn duplicate(&self) -> (link: Link)
        ensures
            link@ == self@,
    {
        proof {
            use_type_invariant(self);
        }
        Link { text: self.text.clone() }
    }
}

} // verus!
