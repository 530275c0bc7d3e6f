//! The `download` subcommand: its definition, and what it reads from the
//! parsed arguments.

use vstd::prelude::*;
use vstd::string::StringExecFns;
use crate::link;
use crate::link::Link;
use crate::link::UrlError;

verus! {

/// The definition of an argument.
#[derive(Debug)]
pub struct ArgSpec {
    pub name: String,
    pub help: String,
    pub required: bool,
    pub multiple: bool,
}

/// The definition of a subcommand.
#[derive(Debug)]
pub struct CommandSpec {
    pub name: String,
    pub about: String,
    pub visible_aliases: Vec<String>,
    pub args: Vec<ArgSpec>,
}

/// The value that was given for an argument.
pub struct ArgValue {
    pub name: String,
    pub value: String,
}

/// The parsed arguments of a program run: the subcommand that was named,
/// if any, and the values of its arguments.
pub struct Matches {
    pub subcommand: Option<String>,
    pub values: Vec<ArgValue>,
}

/// The value of the first argument with the given name.
pub open spec fn value_of(values: Seq<ArgValue>, name: Seq<char>) -> Option<Seq<char>>
    decreases values.len(),
{
    if values.len() == 0 {
        None
    } else if values[0].name@ == name {
        Some(values[0].value@)
    } else {
        value_of(values.skip(1), name)
    }
}

/// What is said of an address that was refused for the given reason.
pub open spec fn error_text(error: UrlError) -> Seq<char> {
    match error {
        UrlError::EmptyHost => "Emtpy host given"@,
        UrlError::InvalidPort => "Invalid host port"@,
        UrlError::InvalidIpv4Address => "Invalid IPv4 address in host"@,
        UrlError::InvalidIpv6Address => "Invalid IPv6 address in host"@,
        UrlError::InvalidDomainCharacter => "Host domains contains an invalid character"@,
        UrlError::RelativeUrlWithoutBase => "Host domain doesn't contain a host"@,
        _ => "The given host is invalid"@,
    }
}

/// Says why an address was refused.
pub fn error_message(error: UrlError) -> (text: &'static str)
    ensures
        text@ == error_text(error),
{
    match error {
        UrlError::EmptyHost => "Emtpy host given",
        UrlError::InvalidPort => "Invalid host port",
        UrlError::InvalidIpv4Address => "Invalid IPv4 address in host",
        UrlError::InvalidIpv6Address => "Invalid IPv6 address in host",
        UrlError::InvalidDomainCharacter => "Host domains contains an invalid character",
        UrlError::RelativeUrlWithoutBase => "Host domain doesn't contain a host",
        _ => "The given host is invalid",
    }
}

/// Why the share address could not be read from the arguments.
#[derive(Clone, Copy, Debug, PartialEq, Eq, Structural)]
pub enum UrlFailure {
    /// No address was given.
    Missing,
    /// What was given is no address.
    Invalid(UrlError),
}

/// The download command, as it was given.
pub struct CmdDownload<'a> {
    matches: &'a Matches,
}

impl<'a> CmdDownload<'a> {
    /// The arguments that the command was given, as plain values.
    pub closed spec fn values(&self) -> Seq<ArgValue> {
        self.matches.values@
    }

    /// The definition of the subcommand: `download`, also reachable as `d`
    /// and `down`, with one required argument, the share address.
    pub fn build() -> (spec: CommandSpec)
        ensures
            spec.name@ == "download"@,
            spec.about@ == "Download files."@,
            spec.visible_aliases@.len() == 2,
            spec.visible_aliases@[0]@ == "d"@,
            spec.visible_aliases@[1]@ == "down"@,
            spec.args@.len() == 1,
            spec.args@[0].name@ == "URL"@,
            spec.args@[0].help@ == "The share URL"@,
            spec.args@[0].required,
            !spec.args@[0].multiple,
    {
        let mut visible_aliases: Vec<String> = Vec::new();
        visible_aliases.push(String::from_str("d"));
        visible_aliases.push(String::from_str("down"));
        let mut args: Vec<ArgSpec> = Vec::new();
        args.push(
            ArgSpec {
                name: String::from_str("URL"),
                help: String::from_str("The share URL"),
                required: true,
                multiple: false,
            },
        );
        CommandSpec {
            name: String::from_str("download"),
            about: String::from_str("Download files."),
            visible_aliases,
            args,
        }
    }

    /// The download command, if it is the subcommand that was named.
    pub fn parse(parent: &'a Matches) -> (res: Option<CmdDownload<'a>>)
        ensures
            res is Some <==> (parent.subcommand matches Some(name) && name@ == "download"@),
            res matches Some(cmd) ==> cmd.values() == parent.values@,
    {
        match &parent.subcommand {
            Some(name) => {
                if *name == String::from_str("download") {
                    Some(CmdDownload { matches: parent })
                } else {
                    None
                }
            },
            None => None,
        }
    }

    /// The share address to download from: the value of the argument
    /// `URL`, read as an address.
    pub fn url(&self) -> (res: Result<Link, UrlFailure>)
        ensures
            match value_of(self.values(), "URL"@) {
                None => res matches Err(failure) && failure == UrlFailure::Missing,
                Some(text) => match res {
                    Ok(link) => link::read(text) == Ok::<Seq<char>, UrlError>(link@),
                    Err(failure) => link::read(text) matches Err(reason) && failure
                        == UrlFailure::Invalid(reason),
                },
            },
    {
        let wanted = String::from_str("URL");
        let values = &self.matches.values;
        let mut i: usize = 0;
        assert(values@.skip(0) =~= values@);
        while i < values.len()
            invariant
                i <= values.len(),
                wanted@ == "URL"@,
                values@ == self.values(),
                value_of(values@, wanted@) == value_of(values@.skip(i as int), wanted@),
            decreases values.len() - i,
        {
            assert(values@.skip(i as int).skip(1) =~= values@.skip(i + 1));
            if values[i].name == wanted {
                return match Link::parse(values[i].value.as_str()) {
                    Ok(link) => Ok(link),
                    Err(error) => Err(UrlFailure::Invalid(error)),
                };
            }
            i = i + 1;
        }
        Err(UrlFailure::Missing)
    }
}

} // verus!
