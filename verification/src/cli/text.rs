//! The options of the signing commands.
use vstd::prelude::*;
use crate::text::{concat, lowercase_of, str_eq, to_lowercase};

verus! {

/// Said of a format that is neither `blake3` nor `ed25519`.
pub const MSG_SIGN_FORMAT: &'static str = "not support ";

/// What the text command is to do.
#[derive(Debug)]
pub enum TextSubcommand {
    Sign(TextSignOpts),
    Verify(TextVerifyOpts),
    Generate(TextKeyGenerateOpts),
}

/// What to sign, with which key, in which scheme.
#[derive(Debug)]
pub struct TextSignOpts {
    pub input: String,
    pub key: String,
    pub format: TextSignFormat,
}

/// What was signed, with which key, the signature, and the scheme.
#[derive(Debug)]
pub struct TextVerifyOpts {
    pub input: String,
    pub key: String,
    pub sig: String,
    pub format: TextSignFormat,
}

/// Where to write new keys, and for which scheme.
#[derive(Debug)]
pub struct TextKeyGenerateOpts {
    pub output: String,
    pub format: TextSignFormat,
}

/// The signing scheme.
#[derive(Debug, Clone, Copy, PartialEq, Eq, Structural)]
pub enum TextSignFormat {
    Blake3,
    Ed25519,
}

/// The scheme that `written` names, where `lower` is `written` in lower
/// case, or what to say of a name that stands for none.
pub open spec fn sign_format_of(written: Seq<char>, lower: Seq<char>) -> Result<
    TextSignFormat,
    Seq<char>,
> {
    if lower == "blake3"@ {
        Ok(TextSignFormat::Blake3)
    } else if lower == "ed25519"@ {
        Ok(TextSignFormat::Ed25519)
    } else {
        Err(MSG_SIGN_FORMAT@ + written)
    }
}

impl TextSignFormat {
    /// The name of the scheme, in lower case.
    pub open spec fn name(self) -> Seq<char> {
        match self {
            TextSignFormat::Blake3 => "blake3"@,
            TextSignFormat::Ed25519 => "ed25519"@,
        }
    }

    /// The scheme that `written` names, where `lower` is `written` in lower case.
    pub fn named(written: &str, lower: &str) -> (r: Result<TextSignFormat, String>)
        ensures
            match r {
                Ok(f) => sign_format_of(written@, lower@) == Ok::<TextSignFormat, Seq<char>>(f),
                Err(message) => sign_format_of(written@, lower@) == Err::<
                    TextSignFormat,
                    Seq<char>,
                >(message@),
            },
    {
        if str_eq(lower, "blake3") {
            Ok(TextSignFormat::Blake3)
        } else if str_eq(lower, "ed25519") {
            Ok(TextSignFormat::Ed25519)
        } else {
            Err(concat(MSG_SIGN_FORMAT, written))
        }
    }

    /// The scheme that `s` names, in whatever case it is written.
    pub fn from_str(s: &str) -> (r: Result<TextSignFormat, String>)
        ensures
            match r {
                Ok(f) => sign_format_of(s@, lowercase_of(s@)) == Ok::<TextSignFormat, Seq<char>>(
                    f,
                ),
                Err(message) => sign_format_of(s@, lowercase_of(s@)) == Err::<
                    TextSignFormat,
                    Seq<char>,
                >(message@),
            },
    {
        let lower: String = to_lowercase(s);
        TextSignFormat::named(s, lower.as_str())
    }

    /// The name of the scheme, in lower case.
    pub fn as_str(&self) -> (name: &'static str)
        ensures
            name@ == self.name(),
            sign_format_of(name@, name@) == Ok::<TextSignFormat, Seq<char>>(*self),
    {
        proof {
            reveal_strlit("blake3");
            reveal_strlit("ed25519");
            assert("blake3"@ != "ed25519"@) by {
                assert("blake3"@.len() == 6);
                assert("ed25519"@.len() == 7);
            }
        }
        match self {
            TextSignFormat::Blake3 => "blake3",
            TextSignFormat::Ed25519 => "ed25519",
        }
    }

    /// The name of the scheme, as a text of its own.
    pub fn to_string(&self) -> (name: String)
        ensures
            name@ == self.name(),
    {
        self.as_str().to_owned()
    }
}

/// The scheme that `format` names, in whatever case it is written.
pub fn verify_sign_format(format: &str) -> (r: Result<TextSignFormat, String>)
    ensures
        match r {
            Ok(f) => sign_format_of(format@, lowercase_of(format@)) == Ok::<
                TextSignFormat,
                Seq<char>,
            >(f),
            Err(message) => sign_format_of(format@, lowercase_of(format@)) == Err::<
                TextSignFormat,
                Seq<char>,
            >(message@),
        },
{
    TextSignFormat::from_str(format)
}

} // verus!
