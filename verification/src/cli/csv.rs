//! The options of the csv command.
use vstd::prelude::*;
use crate::text::{concat, lowercase_of, str_eq, to_lowercase};

verus! {

/// Said of a format that is neither `json` nor `yaml`.
pub const MSG_FORMAT: &'static str = "Not support ";

/// Said of a file that is not there.
pub const MSG_NOT_FOUND: &'static str = "Not found ";

/// The format in which the rows are written out.
#[derive(Debug, Clone, Copy, PartialEq, Eq, Structural)]
pub enum OutputFormat {
    Json,
    Yaml,
}

/// The format that the lower-case name `lower` stands for, or what to say of
/// a name that stands for none.
pub open spec fn output_format_of(lower: Seq<char>) -> Result<OutputFormat, Seq<char>> {
    if lower == "json"@ {
        Ok(OutputFormat::Json)
    } else if lower == "yaml"@ {
        Ok(OutputFormat::Yaml)
    } else {
        Err(MSG_FORMAT@ + lower)
    }
}

impl OutputFormat {
    /// The name of the format.
    pub open spec fn name(self) -> Seq<char> {
        match self {
            OutputFormat::Json => "json"@,
            OutputFormat::Yaml => "yaml"@,
        }
    }

    /// The format that the lower-case name `lower` stands for.
    pub fn named(lower: &str) -> (r: Result<OutputFormat, String>)
        ensures
            match r {
                Ok(f) => output_format_of(lower@) == Ok::<OutputFormat, Seq<char>>(f),
                Err(message) => output_format_of(lower@) == Err::<OutputFormat, Seq<char>>(
                    message@,
                ),
            },
    {
        if str_eq(lower, "json") {
            Ok(OutputFormat::Json)
        } else if str_eq(lower, "yaml") {
            Ok(OutputFormat::Yaml)
        } else {
            Err(concat(MSG_FORMAT, lower))
        }
    }

    /// The format that `s` names, in whatever case it is written.
    pub fn from_str(s: &str) -> (r: Result<OutputFormat, String>)
        ensures
            match r {
                Ok(f) => output_format_of(lowercase_of(s@)) == Ok::<OutputFormat, Seq<char>>(f),
                Err(message) => output_format_of(lowercase_of(s@)) == Err::<
                    OutputFormat,
                    Seq<char>,
                >(message@),
            },
    {
        let lower: String = to_lowercase(s);
        OutputFormat::named(lower.as_str())
    }

    /// The name of the format, which is also the ending of the file written.
    pub fn as_str(&self) -> (name: &'static str)
        ensures
            name@ == self.name(),
            output_format_of(name@) == Ok::<OutputFormat, Seq<char>>(*self),
    {
        proof {
            reveal_strlit("json");
            reveal_strlit("yaml");
            assert("json"@ != "yaml"@) by {
                assert("json"@[0] == 'j');
                assert("yaml"@[0] == 'y');
            }
        }
        match self {
            OutputFormat::Json => "json",
            OutputFormat::Yaml => "yaml",
        }
    }
}

/// The format that `format` names, in whatever case it is written.
pub fn validate_output_format(format: &str) -> (r: Result<OutputFormat, String>)
    ensures
        match r {
            Ok(f) => output_format_of(lowercase_of(format@)) == Ok::<OutputFormat, Seq<char>>(f),
            Err(message) => output_format_of(lowercase_of(format@)) == Err::<
                OutputFormat,
                Seq<char>,
            >(message@),
        },
{
    OutputFormat::from_str(format)
}

/// The path `file` where a file is there, as `existed` says, and what to say
/// where none is.
pub fn validate_file_existed(file: &str, existed: bool) -> (r: Result<String, String>)
    ensures
        match r {
            Ok(path) => existed && path@ == file@,
            Err(message) => !existed && message@ == MSG_NOT_FOUND@ + file@,
        },
{
    if !existed {
        Err(concat(MSG_NOT_FOUND, file))
    } else {
        Ok(file.to_owned())
    }
}

} // verus!
