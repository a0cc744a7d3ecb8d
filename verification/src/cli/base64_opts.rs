//! The options of the base64 commands.
use vstd::prelude::*;
use crate::text::{concat, lowercase_of, str_eq, to_lowercase};

verus! {

/// Said of a formatter that is neither `normal` nor `urlsafe`.
pub const MSG_FORMATTER: &'static str = "not support formatter: ";

/// The two directions of the base64 command.
#[derive(Debug)]
pub enum Base64Subcommand {
    Encode(Base64Opts),
    Decode(Base64Opts),
}

/// Where the input comes from, and in which alphabet the base64 text is.
#[derive(Debug)]
pub struct Base64Opts {
    pub input: String,
    pub format: Base64Formatter,
}

/// The alphabet of the base64 text.
#[derive(Debug, Clone, Copy, PartialEq, Eq, Structural)]
pub enum Base64Formatter {
    NORMAL,
    URLSAFE,
}

/// The formatter that the lower-case name `lower` stands for, or what to say
/// of a name that stands for none.
pub open spec fn formatter_of(lower: Seq<char>) -> Result<Base64Formatter, Seq<char>> {
    if lower == "normal"@ {
        Ok(Base64Formatter::NORMAL)
    } else if lower == "urlsafe"@ {
        Ok(Base64Formatter::URLSAFE)
    } else {
        Err(MSG_FORMATTER@ + lower)
    }
}

/// The formatter that the lower-case name `lower` stands for.
pub fn formatter_named(lower: &str) -> (r: Result<Base64Formatter, String>)
    ensures
        match r {
            Ok(f) => formatter_of(lower@) == Ok::<Base64Formatter, Seq<char>>(f),
            Err(message) => formatter_of(lower@) == Err::<Base64Formatter, Seq<char>>(message@),
        },
{
    if str_eq(lower, "normal") {
        Ok(Base64Formatter::NORMAL)
    } else if str_eq(lower, "urlsafe") {
        Ok(Base64Formatter::URLSAFE)
    } else {
        Err(concat(MSG_FORMATTER, lower))
    }
}

/// The formatter that `formatter` names, in whatever case it is written.
pub fn validate_formatter(formatter: &str) -> (r: Result<Base64Formatter, String>)
    ensures
        match r {
            Ok(f) => formatter_of(lowercase_of(formatter@)) == Ok::<Base64Formatter, Seq<char>>(f),
            Err(message) => formatter_of(lowercase_of(formatter@)) == Err::<
                Base64Formatter,
                Seq<char>,
            >(message@),
        },
{
    let lower: String = to_lowercase(formatter);
    formatter_named(lower.as_str())
}

impl Base64Formatter {
    /// The name of the formatter.
    pub open spec fn name(self) -> Seq<char> {
        match self {
            Base64Formatter::NORMAL => "normal"@,
            Base64Formatter::URLSAFE => "urlsafe"@,
        }
    }

    /// The name of the formatter.
    pub fn as_str(&self) -> (name: &'static str)
        ensures
            name@ == self.name(),
            formatter_of(name@) == Ok::<Base64Formatter, Seq<char>>(*self),
    {
        proof {
            reveal_strlit("normal");
            reveal_strlit("urlsafe");
            assert("normal"@ != "urlsafe"@) by {
                assert("normal"@.len() == 6);
                assert("urlsafe"@.len() == 7);
            }
        }
        match self {
            Base64Formatter::NORMAL => "normal",
            Base64Formatter::URLSAFE => "urlsafe",
        }
    }
}

} // verus!
