//! The configuration of the relay: what the operator gives on the command
//! line, checked once and never changed afterwards.

use vstd::prelude::*;
use rustc_serialize::hex::FromHexError;
use crate::relay::Settings;

verus! {

#[verifier::external_type_specification]
#[verifier::external_body]
pub struct ExFromHexError(FromHexError);

/// Length of the shared secret.
pub const SECRET_LEN: usize = 16;

/// Why a configuration is refused.
#[derive(Clone, Copy, Debug, PartialEq, Eq, Structural)]
pub enum ConfigError {
    /// The secret is not written in hexadecimal.
    MalformedSecret,
    /// The secret is not `SECRET_LEN` bytes long.
    UnsupportedSecretLength,
    /// The tag is not written in hexadecimal.
    MalformedTag,
}

impl ConfigError {
    /// What the operator is told.
    pub open spec fn text(self) -> Seq<char> {
        match self {
            ConfigError::MalformedSecret => "Mailformed secret"@,
            ConfigError::UnsupportedSecretLength => "Unsupported secret length"@,
            ConfigError::MalformedTag => "Mailformed tag"@,
        }
    }

    /// What the operator is told.
    pub fn message(&self) -> (text: &'static str)
        ensures
            text@ == self.text(),
    {
        match self {
            ConfigError::MalformedSecret => "Mailformed secret",
            ConfigError::UnsupportedSecretLength => "Unsupported secret length",
            ConfigError::MalformedTag => "Mailformed tag",
        }
    }
}

/// The bytes that a hexadecimal text spells, where it is one.
pub uninterp spec fn hex_decoded(text: Seq<char>) -> Option<Seq<u8>>;

/// Calls `rustc_serialize::hex::FromHex::from_hex` on a string. The contract
/// names what the text decodes to and claims that the call succeeds exactly
/// when the text decodes.
#[verifier::external_body]
fn decode_hex(text: &str) -> (r: Result<Vec<u8>, FromHexError>)
    ensures
        r is Ok == hex_decoded(text@) is Some,
        r matches Ok(bytes) ==> hex_decoded(text@) == Some(bytes@),
{
    rustc_serialize::hex::FromHex::from_hex(text)
}

/// The view of optional bytes.
pub open spec fn bytes_view(bytes: Option<Vec<u8>>) -> Option<Seq<u8>> {
    match bytes {
        Some(b) => Some(b@),
        None => None,
    }
}

/// What a decoded secret is worth: it has to be there and to be
/// `SECRET_LEN` bytes long.
pub open spec fn secret_verdict(decoded: Option<Seq<u8>>) -> Result<Seq<u8>, ConfigError> {
    match decoded {
        None => Err(ConfigError::MalformedSecret),
        Some(bytes) => if bytes.len() == SECRET_LEN {
            Ok(bytes)
        } else {
            Err(ConfigError::UnsupportedSecretLength)
        },
    }
}

/// What a decoded tag is worth: where a tag was given, it has to decode.
/// `decoded` is `None` where no tag was given.
pub open spec fn tag_verdict(decoded: Option<Option<Seq<u8>>>) -> Result<
    Option<Seq<u8>>,
    ConfigError,
> {
    match decoded {
        None => Ok(None),
        Some(None) => Err(ConfigError::MalformedTag),
        Some(Some(bytes)) => Ok(Some(bytes)),
    }
}

/// The view of a checked secret.
pub open spec fn secret_view(r: Result<Vec<u8>, ConfigError>) -> Result<Seq<u8>, ConfigError> {
    match r {
        Ok(bytes) => Ok(bytes@),
        Err(e) => Err(e),
    }
}

/// The view of a checked tag.
pub open spec fn tag_view(r: Result<Option<Vec<u8>>, ConfigError>) -> Result<
    Option<Seq<u8>>,
    ConfigError,
> {
    match r {
        Ok(tag) => Ok(bytes_view(tag)),
        Err(e) => Err(e),
    }
}

/// Checks a secret that has been through hexadecimal decoding; `None`
/// stands for a text that did not decode.
pub fn check_secret(decoded: Option<Vec<u8>>) -> (r: Result<Vec<u8>, ConfigError>)
    ensures
        secret_view(r) == secret_verdict(bytes_view(decoded)),
{
    match decoded {
        None => Err(ConfigError::MalformedSecret),
        Some(bytes) => if bytes.len() == SECRET_LEN {
            Ok(bytes)
        } else {
            Err(ConfigError::UnsupportedSecretLength)
        },
    }
}

/// Decodes a text that may or may not be hexadecimal.
fn decode(text: &str) -> (r: Option<Vec<u8>>)
    ensures
        bytes_view(r) == hex_decoded(text@),
{
    match decode_hex(text) {
        Ok(bytes) => Some(bytes),
        Err(_) => None,
    }
}

/// Reads the secret as the operator wrote it, in hexadecimal.
pub fn parse_secret(text: &str) -> (r: Result<Vec<u8>, ConfigError>)
    ensures
        secret_view(r) == secret_verdict(hex_decoded(text@)),
{
    check_secret(decode(text))
}

/// Reads the tag as the operator wrote it, in hexadecimal, if one was given.
pub fn parse_tag(text: Option<&str>) -> (r: Result<Option<Vec<u8>>, ConfigError>)
    ensures
        tag_view(r) == tag_verdict(
            match text {
                Some(t) => Some(hex_decoded(t@)),
                None => None,
            },
        ),
{
    match text {
        None => Ok(None),
        Some(t) => match decode(t) {
            Some(bytes) => Ok(Some(bytes)),
            None => Err(ConfigError::MalformedTag),
        },
    }
}

/// A checked configuration.
pub struct Config {
    secret: Vec<u8>,
    tag: Option<Vec<u8>>,
    ipv6: bool,
    settings: Settings,
}

impl Config {
    #[verifier::type_invariant]
    spec fn secret_has_its_length(&self) -> bool {
        self.secret@.len() == SECRET_LEN
    }

    /// The shared secret.
    pub closed spec fn secret_bytes(&self) -> Seq<u8> {
        self.secret@
    }

    /// The tag that opens the disguise preamble, in disguise mode.
    pub closed spec fn tag_bytes(&self) -> Option<Seq<u8>> {
        bytes_view(self.tag)
    }

    /// Whether backends are reached over IPv6.
    pub closed spec fn uses_ipv6(&self) -> bool {
        self.ipv6
    }

    /// The tuning of the connections.
    pub closed spec fn tuning(&self) -> Settings {
        self.settings
    }

    /// Makes a configuration out of its parts. Only a secret of
    /// `SECRET_LEN` bytes is taken.
    pub fn new(secret: Vec<u8>, tag: Option<Vec<u8>>, ipv6: bool, settings: Settings) -> (r: Result<
        Config,
        ConfigError,
    >)
        ensures
            r is Ok == (secret@.len() == SECRET_LEN),
            r matches Err(e) ==> e == ConfigError::UnsupportedSecretLength,
            r matches Ok(config) ==> config.secret_bytes() == secret@ && config.tag_bytes()
                == bytes_view(tag) && config.uses_ipv6() == ipv6 && config.tuning() == settings,
    {
        if secret.len() != SECRET_LEN {
            return Err(ConfigError::UnsupportedSecretLength);
        }
        Ok(Config { secret, tag, ipv6, settings })
    }

    /// Makes a configuration out of what the operator wrote: the secret and
    /// the optional tag in hexadecimal. The secret is looked at first.
    pub fn from_text(secret: &str, tag: Option<&str>, ipv6: bool, settings: Settings) -> (r:
        Result<Config, ConfigError>)
        ensures
            match (
                secret_verdict(hex_decoded(secret@)),
                tag_verdict(
                    match tag {
                        Some(t) => Some(hex_decoded(t@)),
                        None => None,
                    },
                ),
            ) {
                (Err(e), _) => r matches Err(got) && got == e,
                (Ok(_), Err(e)) => r matches Err(got) && got == e,
                (Ok(s), Ok(t)) => r matches Ok(config) && config.secret_bytes() == s
                    && config.tag_bytes() == t && config.uses_ipv6() == ipv6 && config.tuning()
                    == settings,
            },
    {
        let secret = match parse_secret(secret) {
            Ok(bytes) => bytes,
            Err(e) => {
                return Err(e);
            },
        };
        let tag = match parse_tag(tag) {
            Ok(tag) => tag,
            Err(e) => {
                return Err(e);
            },
        };
        Config::new(secret, tag, ipv6, settings)
    }

    /// The shared secret.
    pub fn secret(&self) -> (bytes: &[u8])
        ensures
            bytes@ == self.secret_bytes(),
            bytes@.len() == SECRET_LEN,
    {
        proof {
            use_type_invariant(self);
        }
        self.secret.as_slice()
    }

    /// The tag, in disguise mode.
    pub fn tag(&self) -> (bytes: Option<&[u8]>)
        ensures
            crate::handshake::opt_view(bytes) == self.tag_bytes(),
    {
        match &self.tag {
            Some(t) => Some(t.as_slice()),
            None => None,
        }
    }

    /// Whether backends are reached over IPv6.
    pub fn ipv6(&self) -> (b: bool)
        ensures
            b == self.uses_ipv6(),
    {
        self.ipv6
    }

    /// The tuning of the connections.
    pub fn settings(&self) -> (s: &Settings)
        ensures
            *s == self.tuning(),
    {
        &self.settings
    }
}

} // verus!
