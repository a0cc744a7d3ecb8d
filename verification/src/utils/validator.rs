//! Whether a path that the command line names can be used.
use vstd::prelude::*;
use crate::text::{concat, str_eq};

verus! {

/// Said of an input file that is not there.
pub const MSG_NO_FILE: &'static str = "not found file: ";

/// Said of a directory that is not there.
pub const MSG_NO_DIR: &'static str = "Not found dir: ";

/// The input `input` where it can be read: it is `-`, which stands for the
/// standard input, or a file is there, as `existed` says.
pub fn validate_file(input: &str, existed: bool) -> (r: Result<String, String>)
    ensures
        match r {
            Ok(path) => (input@ == "-"@ || existed) && path@ == input@,
            Err(message) => !(input@ == "-"@ || existed) && message@ == MSG_NO_FILE@ + input@,
        },
{
    if str_eq(input, "-") || existed {
        Ok(input.to_owned())
    } else {
        Err(concat(MSG_NO_FILE, input))
    }
}

/// The path `path` where a directory is there, as `is_dir` says.
pub fn validate_path(path: &str, is_dir: bool) -> (r: Result<String, String>)
    ensures
        match r {
            Ok(dir) => is_dir && dir@ == path@,
            Err(message) => !is_dir && message@ == MSG_NO_DIR@ + path@,
        },
{
    if is_dir {
        Ok(path.to_owned())
    } else {
        Err(concat(MSG_NO_DIR, path))
    }
}

} // verus!
