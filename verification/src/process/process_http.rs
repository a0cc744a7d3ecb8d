//! What the file server answers.
use vstd::prelude::*;
use crate::text::push_str;

verus! {

/// The status of an answer that holds what was asked for.
pub const STATUS_OK: u16 = 200;

/// The status of an answer for a path under which nothing is.
pub const STATUS_NOT_FOUND: u16 = 404;

/// The status of an answer for a file that could not be read.
pub const STATUS_FAILED: u16 = 500;

/// What looking for a file came to.
pub enum Fetched {
    /// Nothing is under the path.
    Missing,
    /// The file was read and held this text.
    Content(String),
    /// The file is there and could not be read, for the reason given.
    Failed(String),
}

/// The status and the body of the answer for `path`.
pub open spec fn reply_of(path: Seq<char>, fetched: Fetched) -> (u16, Seq<char>) {
    match fetched {
        Fetched::Missing => (STATUS_NOT_FOUND, "Not found '"@ + path + "'"@),
        Fetched::Content(text) => (STATUS_OK, text@),
        Fetched::Failed(reason) => (
            STATUS_FAILED,
            "Failed to open '"@ + path + "', err: "@ + reason@,
        ),
    }
}

/// The status and the body of the answer for `path`, given what looking for it came to.
pub fn index(path: &str, fetched: Fetched) -> (r: (u16, String))
    ensures
        (r.0, r.1@) == reply_of(path@, fetched),
{
    match fetched {
        Fetched::Missing => {
            let mut body: String = "Not found '".to_owned();
            push_str(&mut body, path);
            push_str(&mut body, "'");
            (STATUS_NOT_FOUND, body)
        },
        Fetched::Content(text) => (STATUS_OK, text),
        Fetched::Failed(reason) => {
            let mut body: String = "Failed to open '".to_owned();
            push_str(&mut body, path);
            push_str(&mut body, "', err: ");
            push_str(&mut body, reason.as_str());
            (STATUS_FAILED, body)
        },
    }
}

} // verus!
